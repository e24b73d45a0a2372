//! Lexicographic order on strings (the order of `String`'s `Ord`) and
//! sorting table positions by key.
use vstd::prelude::*;
use crate::table::KeyedTable;
use crate::text::chars_of;

verus! {

/// `a` sorts strictly before `b`, character by character.
pub open spec fn seq_less(a: Seq<char>, b: Seq<char>) -> bool
    decreases a.len(),
{
    if b.len() == 0 {
        false
    } else if a.len() == 0 {
        true
    } else if a[0] != b[0] {
        a[0] < b[0]
    } else {
        seq_less(a.drop_first(), b.drop_first())
    }
}

pub proof fn lemma_less_irreflexive(a: Seq<char>)
    ensures
        !seq_less(a, a),
    decreases a.len(),
{
    if a.len() > 0 {
        lemma_less_irreflexive(a.drop_first());
    }
}

pub proof fn lemma_less_asymmetric(a: Seq<char>, b: Seq<char>)
    requires
        seq_less(a, b),
    ensures
        !seq_less(b, a),
    decreases a.len(),
{
    if a.len() > 0 && b.len() > 0 && a[0] == b[0] {
        lemma_less_asymmetric(a.drop_first(), b.drop_first());
    }
}

pub proof fn lemma_less_total(a: Seq<char>, b: Seq<char>)
    ensures
        a == b || seq_less(a, b) || seq_less(b, a),
    decreases a.len(),
{
    if a.len() > 0 && b.len() > 0 && a[0] == b[0] {
        lemma_less_total(a.drop_first(), b.drop_first());
        if a.drop_first() == b.drop_first() {
            assert(a =~= seq![a[0]] + a.drop_first());
            assert(b =~= seq![b[0]] + b.drop_first());
        }
    } else if a.len() > 0 && b.len() > 0 {
    } else if a.len() == 0 && b.len() == 0 {
        assert(a =~= b);
    }
}

pub proof fn lemma_less_transitive(a: Seq<char>, b: Seq<char>, c: Seq<char>)
    requires
        seq_less(a, b),
        seq_less(b, c),
    ensures
        seq_less(a, c),
    decreases a.len(),
{
    if a.len() > 0 && b.len() > 0 && c.len() > 0 && a[0] == b[0] && b[0] == c[0] {
        lemma_less_transitive(a.drop_first(), b.drop_first(), c.drop_first());
    }
}

/// Whether `a` sorts strictly before `b`.
pub fn less_than(a: &str, b: &str) -> (r: bool)
    ensures
        r == seq_less(a@, b@),
{
    let x = chars_of(a);
    let y = chars_of(b);
    let mut i: usize = 0;
    assert(x@.skip(0) =~= x@);
    assert(y@.skip(0) =~= y@);
    while i < x.len() && i < y.len() && x[i] == y[i]
        invariant
            i <= x@.len(),
            i <= y@.len(),
            x@.take(i as int) == y@.take(i as int),
            seq_less(a@, b@) == seq_less(x@.skip(i as int), y@.skip(i as int)),
            x@ == a@,
            y@ == b@,
        decreases x.len() - i,
    {
        proof {
            assert(x@.skip(i as int).drop_first() =~= x@.skip(i + 1));
            assert(y@.skip(i as int).drop_first() =~= y@.skip(i + 1));
            assert(x@.take(i + 1) =~= x@.take(i as int).push(x@[i as int]));
            assert(y@.take(i + 1) =~= y@.take(i as int).push(y@[i as int]));
        }
        i = i + 1;
    }
    if i == y.len() {
        false
    } else if i == x.len() {
        true
    } else {
        x[i] < y[i]
    }
}

/// `ps` lists positions of `keys` in strictly increasing key order.
pub open spec fn sorted_by_key(keys: Seq<Seq<char>>, ps: Seq<int>) -> bool {
    &&& forall|i: int| 0 <= i < ps.len() ==> 0 <= #[trigger] ps[i] < keys.len()
    &&& forall|i: int, j: int|
        0 <= i < j < ps.len() ==> #[trigger] seq_less(keys[ps[i]], keys[ps[j]])
}

/// Distinct positions below `n`, `n` of them, are all the positions below `n`.
proof fn lemma_covers(qs: Seq<int>, n: int)
    requires
        qs.len() == n,
        forall|i: int| 0 <= i < qs.len() ==> 0 <= #[trigger] qs[i] < n,
        qs.no_duplicates(),
    ensures
        forall|x: int| 0 <= x < n ==> qs.contains(x),
{
    broadcast use vstd::seq_lib::seq_to_set_is_finite;

    qs.unique_seq_to_set();
    vstd::set_lib::lemma_int_range(0, n);
    let range = vstd::set_lib::set_int_range(0, n);
    assert(qs.to_set().subset_of(range));
    vstd::set_lib::lemma_subset_equality(qs.to_set(), range);
    assert forall|x: int| 0 <= x < n implies qs.contains(x) by {
        assert(range.contains(x));
        assert(qs.to_set().contains(x));
    }
}

/// Positions in strictly increasing key order have no repeats.
proof fn lemma_sorted_distinct(keys: Seq<Seq<char>>, ps: Seq<int>)
    requires
        sorted_by_key(keys, ps),
    ensures
        ps.no_duplicates(),
{
    assert forall|i: int, j: int| 0 <= i < ps.len() && 0 <= j < ps.len() && i != j implies ps[i]
        != ps[j] by {
        if i < j {
            assert(seq_less(keys[ps[i]], keys[ps[j]]));
            if ps[i] == ps[j] {
                lemma_less_irreflexive(keys[ps[i]]);
            }
        } else {
            assert(seq_less(keys[ps[j]], keys[ps[i]]));
            if ps[i] == ps[j] {
                lemma_less_irreflexive(keys[ps[i]]);
            }
        }
    }
}

/// Two listings of all positions in increasing key order are the same.
pub proof fn lemma_sorted_unique(keys: Seq<Seq<char>>, ps: Seq<int>, qs: Seq<int>)
    requires
        ps.len() == keys.len(),
        qs.len() == keys.len(),
        sorted_by_key(keys, ps),
        sorted_by_key(keys, qs),
    ensures
        ps == qs,
{
    lemma_sorted_distinct(keys, ps);
    lemma_sorted_distinct(keys, qs);
    lemma_covers(ps, keys.len() as int);
    lemma_covers(qs, keys.len() as int);
    lemma_sorted_prefix(keys, ps, qs, ps.len() as int);
    assert(ps =~= qs);
}

proof fn lemma_sorted_prefix(keys: Seq<Seq<char>>, ps: Seq<int>, qs: Seq<int>, k: int)
    requires
        ps.len() == keys.len(),
        qs.len() == keys.len(),
        sorted_by_key(keys, ps),
        sorted_by_key(keys, qs),
        ps.no_duplicates(),
        qs.no_duplicates(),
        forall|x: int| 0 <= x < keys.len() ==> ps.contains(x),
        forall|x: int| 0 <= x < keys.len() ==> qs.contains(x),
        0 <= k <= ps.len(),
    ensures
        forall|i: int| 0 <= i < k ==> ps[i] == qs[i],
    decreases k,
{
    if k > 0 {
        lemma_sorted_prefix(keys, ps, qs, k - 1);
        let i = k - 1;
        let a = ps[i];
        let b = qs[i];
        if a != b {
            assert(qs.contains(a));
            let j = choose|j: int| 0 <= j < qs.len() && qs[j] == a;
            assert(ps.contains(b));
            let jj = choose|jj: int| 0 <= jj < ps.len() && ps[jj] == b;
            if j < i {
                assert(ps[j] == qs[j]);
            } else if jj < i {
                assert(ps[jj] == qs[jj]);
            } else {
                assert(j != i && jj != i);
                assert(seq_less(keys[qs[i]], keys[qs[j]]));
                assert(seq_less(keys[ps[i]], keys[ps[jj]]));
                lemma_less_asymmetric(keys[b], keys[a]);
            }
        }
    }
}

pub open spec fn usize_seq_to_int(v: Seq<usize>) -> Seq<int> {
    v.map_values(|x: usize| x as int)
}

/// All positions of `t`, in increasing key order.
pub fn positions_by_key<V>(t: &KeyedTable<V>) -> (r: Vec<usize>)
    requires
        t.wf(),
    ensures
        r@.len() == t.keys_view().len(),
        sorted_by_key(t.keys_view(), usize_seq_to_int(r@)),
{
    proof {
        t.lemma_wf();
    }
    let n = t.len();
    let ghost keys = t.keys_view();
    let mut ps: Vec<usize> = Vec::new();
    let mut q: usize = 0;
    while q < n
        invariant
            q <= n,
            n == keys.len(),
            keys == t.keys_view(),
            t.wf(),
            t.distinct(),
            ps@.len() == q,
            forall|i: int| 0 <= i < ps@.len() ==> #[trigger] ps@[i] < q,
            forall|i: int, j: int|
                0 <= i < j < ps@.len() ==> #[trigger] seq_less(keys[ps@[i] as int], keys[ps@[j] as int]),
        decreases n - q,
    {
        let kq = t.key(q);
        let mut j: usize = ps.len();
        while j > 0 && less_than(kq.as_str(), t.key(ps[j - 1]).as_str())
            invariant
                j <= ps@.len(),
                n == keys.len(),
                keys == t.keys_view(),
                q < n,
                kq@ == keys[q as int],
                forall|i: int| 0 <= i < ps@.len() ==> #[trigger] ps@[i] < q,
                forall|i: int| j <= i < ps@.len() ==> #[trigger] seq_less(keys[q as int], keys[ps@[i] as int]),
            decreases j,
        {
            j = j - 1;
        }
        proof {
            if j > 0 {
                let pj = ps@[j - 1] as int;
                assert(!seq_less(keys[q as int], keys[pj]));
                assert(keys[q as int] != keys[pj]);
                lemma_less_total(keys[q as int], keys[pj]);
            }
        }
        let ghost old_ps = ps@;
        ps.insert(j, q);
        proof {
            assert forall|a: int, b: int| 0 <= a < b < ps@.len() implies #[trigger] seq_less(keys[ps@[a] as int], keys[ps@[b] as int]) by {
                if b < j {
                    assert(ps@[a] == old_ps[a] && ps@[b] == old_ps[b]);
                } else if b == j {
                    assert(ps@[a] == old_ps[a]);
                    if a < j - 1 {
                        lemma_less_transitive(keys[old_ps[a] as int], keys[old_ps[j - 1] as int], keys[q as int]);
                    }
                } else if a == j {
                    assert(ps@[b] == old_ps[b - 1]);
                } else if a > j {
                    assert(ps@[a] == old_ps[a - 1] && ps@[b] == old_ps[b - 1]);
                } else {
                    assert(ps@[a] == old_ps[a] && ps@[b] == old_ps[b - 1]);
                    if j > 0 {
                        if a < j - 1 {
                            lemma_less_transitive(keys[old_ps[a] as int], keys[old_ps[j - 1] as int], keys[q as int]);
                        }
                        lemma_less_transitive(keys[old_ps[a] as int], keys[q as int], keys[old_ps[b - 1] as int]);
                    }
                }
            }
        }
        q = q + 1;
    }
    proof {
        assert forall|i: int, j: int| 0 <= i < j < ps@.len() implies #[trigger] seq_less(
            keys[usize_seq_to_int(ps@)[i]],
            keys[usize_seq_to_int(ps@)[j]],
        ) by {
            assert(seq_less(keys[ps@[i] as int], keys[ps@[j] as int]));
        }
    }
    ps
}

} // verus!
