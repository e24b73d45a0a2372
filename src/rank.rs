//! Ranking table entries by count: highest first, earlier insertion first
//! among equal counts.
use vstd::prelude::*;
use crate::table::KeyedTable;

verus! {

/// Entry `a` of `vals` ranks before entry `b`.
pub open spec fn ranked_before(vals: Seq<usize>, a: int, b: int) -> bool {
    vals[a] > vals[b] || (vals[a] == vals[b] && a < b)
}

/// `ps` lists the first `n` positions of `vals` (all of them, if fewer) in
/// rank order.
pub open spec fn top_positions(vals: Seq<usize>, n: nat, ps: Seq<int>) -> bool {
    &&& ps.len() == (if n < vals.len() {
        n
    } else {
        vals.len()
    })
    &&& forall|i: int| 0 <= i < ps.len() ==> 0 <= #[trigger] ps[i] < vals.len()
    &&& forall|i: int, j: int| 0 <= i < j < ps.len() ==> ranked_before(vals, ps[i], ps[j])
    &&& forall|q: int, i: int|
        0 <= q < vals.len() && !ps.contains(q) && 0 <= i < ps.len() ==> #[trigger] ranked_before(vals, ps[i], q)
}

/// `out` is the key and count at each position of `ps`.
pub open spec fn entries_at(
    keys: Seq<Seq<char>>,
    vals: Seq<usize>,
    ps: Seq<int>,
    out: Seq<(String, usize)>,
) -> bool {
    &&& out.len() == ps.len()
    &&& forall|i: int|
        0 <= i < ps.len() ==> (#[trigger] out[i]).0@ == keys[ps[i]] && out[i].1 == vals[ps[i]]
}

/// The first `n` entries of `t` in rank order.
pub fn top_by_count(t: &KeyedTable<usize>, n: usize) -> (r: Vec<(String, usize)>)
    requires
        t.wf(),
    ensures
        exists|ps: Seq<int>|
            top_positions(t.values_view(), n as nat, ps) && entries_at(
                t.keys_view(),
                t.values_view(),
                ps,
                r@,
            ),
{
    proof {
        t.lemma_wf();
    }
    let len = t.len();
    let ghost vals = t.values_view();
    let limit = if n < len { n } else { len };
    let mut chosen: Vec<bool> = Vec::new();
    let mut k: usize = 0;
    while k < len
        invariant
            k <= len,
            chosen@.len() == k,
            forall|q: int| 0 <= q < k ==> !chosen@[q],
        decreases len - k,
    {
        chosen.push(false);
        k = k + 1;
    }
    let mut out: Vec<(String, usize)> = Vec::new();
    let ghost mut ps: Seq<int> = Seq::empty();
    let mut round: usize = 0;
    while round < limit
        invariant
            t.wf(),
            len == t.keys_view().len(),
            vals == t.values_view(),
            vals.len() == len,
            limit <= len,
            limit == (if n < len { n } else { len }),
            round <= limit,
            chosen@.len() == len,
            ps.len() == round,
            forall|i: int| 0 <= i < ps.len() ==> 0 <= #[trigger] ps[i] < len,
            forall|i: int, j: int| 0 <= i < j < ps.len() ==> ranked_before(vals, ps[i], ps[j]),
            forall|q: int| 0 <= q < len ==> (chosen@[q] <==> ps.contains(q)),
            forall|q: int, i: int|
                0 <= q < len && !chosen@[q] && 0 <= i < ps.len() ==> #[trigger] ranked_before(vals, ps[i], q),
            entries_at(t.keys_view(), vals, ps, out@),
        decreases limit - round,
    {
        // the first unchosen entry of highest count
        let mut best: usize = len;
        let mut q: usize = 0;
        while q < len
            invariant
                q <= len,
                len == vals.len(),
                chosen@.len() == len,
                best == len || (best < q && !chosen@[best as int]),
                best == len ==> forall|x: int| 0 <= x < q ==> chosen@[x],
                best < len ==> forall|x: int|
                    0 <= x < q && !chosen@[x] && x != best ==> ranked_before(vals, best as int, x),
                vals == t.values_view(),
                len == t.keys_view().len(),
                t.wf(),
            decreases len - q,
        {
            if !chosen[q] {
                if best == len || *t.value(q) > *t.value(best) {
                    best = q;
                }
            }
            q = q + 1;
        }
        proof {
            // an unchosen entry remains, since fewer than `len` were chosen
            if best == len {
                assert forall|x: int| 0 <= x < len implies ps.contains(x) by {
                    assert(chosen@[x]);
                }
                lemma_pigeon(ps, len as int);
            }
        }
        assert(forall|i: int| 0 <= i < ps.len() ==> ranked_before(vals, #[trigger] ps[i], best as int));
        let ghost chosen_before = chosen@;
        let key = t.key(best).clone();
        let count = *t.value(best);
        out.push((key, count));
        chosen.set(best, true);
        proof {
            let old_ps = ps;
            ps = ps.push(best as int);
            assert forall|i: int, j: int| 0 <= i < j < ps.len() implies ranked_before(vals, ps[i], ps[j]) by {
                if j == ps.len() - 1 && i < old_ps.len() {
                    assert(ranked_before(vals, old_ps[i], best as int));
                }
            }
            assert forall|x: int| 0 <= x < len implies (chosen@[x] <==> ps.contains(x)) by {
                if x == best {
                    assert(ps[ps.len() - 1] == x);
                } else {
                    if old_ps.contains(x) {
                        let w = choose|w: int| 0 <= w < old_ps.len() && old_ps[w] == x;
                        assert(ps[w] == x);
                    }
                    if ps.contains(x) {
                        let w = choose|w: int| 0 <= w < ps.len() && ps[w] == x;
                        assert(w < old_ps.len());
                        assert(old_ps[w] == x);
                    }
                }
            }
            assert(entries_at(t.keys_view(), vals, ps, out@));
            assert forall|x: int, i: int| 0 <= x < len && !chosen@[x] && 0 <= i < ps.len() implies #[trigger] ranked_before(vals, ps[i], x) by {
                assert(x != best);
                assert(!chosen_before[x]);
                if i < old_ps.len() {
                    assert(ps[i] == old_ps[i]);
                }
            }
        }
        round = round + 1;
    }
    proof {
        assert forall|q: int, i: int|
            0 <= q < vals.len() && !ps.contains(q) && 0 <= i < ps.len() implies #[trigger] ranked_before(vals, ps[i], q) by {
            assert(!chosen@[q]);
        }
        assert(top_positions(vals, n as nat, ps));
    }
    out
}

/// Covering every position below `len` takes at least `len` entries.
proof fn lemma_pigeon(ps: Seq<int>, len: int)
    requires
        0 <= len,
        forall|x: int| 0 <= x < len ==> ps.contains(x),
    ensures
        ps.len() >= len,
{
    let s = ps.to_set();
    let full = Set::new(|x: int| 0 <= x < len);
    assert forall|x: int| full.contains(x) implies s.contains(x) by {
        assert(ps.contains(x));
    }
    vstd::set_lib::lemma_int_range(0, len);
    assert(full =~= vstd::set_lib::set_int_range(0, len));
    vstd::set_lib::lemma_len_subset(full, s);
    ps.lemma_cardinality_of_set();
}

} // verus!
