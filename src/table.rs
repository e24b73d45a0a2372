//! A string-keyed table that keeps its keys in the order they were first
//! seen, with a hash index for lookups.
use vstd::prelude::*;
use vstd::hash_map::StringHashMap;

verus! {

/// Keys in order of first insertion, each with a value; keys are distinct.
pub struct KeyedTable<V> {
    keys: Vec<String>,
    values: Vec<V>,
    index: StringHashMap<usize>,
}

impl<V> KeyedTable<V> {
    /// The keys, in order of first insertion.
    pub closed spec fn keys_view(&self) -> Seq<Seq<char>> {
        self.keys@.map_values(|k: String| k@)
    }

    /// The values, aligned with `keys_view`.
    pub closed spec fn values_view(&self) -> Seq<V> {
        self.values@
    }

    pub closed spec fn wf(&self) -> bool {
        &&& self.keys@.len() == self.values@.len()
        &&& forall|i: int|
            0 <= i < self.keys@.len() ==> #[trigger] self.index@.contains_key(self.keys@[i]@)
                && self.index@[self.keys@[i]@] == i
        &&& forall|k: Seq<char>|
            #[trigger] self.index@.contains_key(k) ==> self.index@[k] < self.keys@.len()
                && self.keys@[self.index@[k] as int]@ == k
    }

    /// Whether `k` is a key.
    pub open spec fn has(&self, k: Seq<char>) -> bool {
        self.keys_view().contains(k)
    }

    /// The position of key `k`.
    pub open spec fn pos(&self, k: Seq<char>) -> int {
        choose|i: int| 0 <= i < self.keys_view().len() && self.keys_view()[i] == k
    }

    /// The value of `k`, if it is a key.
    pub open spec fn get(&self, k: Seq<char>) -> Option<V> {
        if self.has(k) {
            Some(self.values_view()[self.pos(k)])
        } else {
            None
        }
    }

    pub open spec fn distinct(&self) -> bool {
        forall|i: int, j: int|
            0 <= i < j < self.keys_view().len() ==> self.keys_view()[i] != self.keys_view()[j]
    }

    pub proof fn lemma_wf(&self)
        requires
            self.wf(),
        ensures
            self.distinct(),
            self.keys_view().len() == self.values_view().len(),
            forall|i: int|
                0 <= i < self.keys_view().len() ==> self.pos(#[trigger] self.keys_view()[i]) == i,
    {
        assert forall|i: int, j: int|
            0 <= i < j < self.keys_view().len() implies self.keys_view()[i]
            != self.keys_view()[j] by {
            assert(self.index@.contains_key(self.keys@[i]@));
            assert(self.index@.contains_key(self.keys@[j]@));
        }
        assert forall|i: int| 0 <= i < self.keys_view().len() implies self.pos(
            #[trigger] self.keys_view()[i],
        ) == i by {
            let k = self.keys_view()[i];
            assert(0 <= i < self.keys_view().len() && self.keys_view()[i] == k);
            let p = self.pos(k);
            if p != i {
                if p < i {
                    assert(self.keys_view()[p] != self.keys_view()[i]);
                } else {
                    assert(self.keys_view()[i] != self.keys_view()[p]);
                }
            }
        }
    }

    pub fn new() -> (r: Self)
        ensures
            r.wf(),
            r.keys_view() == Seq::<Seq<char>>::empty(),
            r.values_view() == Seq::<V>::empty(),
    {
        let r = KeyedTable { keys: Vec::new(), values: Vec::new(), index: StringHashMap::new() };
        assert(r.keys_view() =~= Seq::<Seq<char>>::empty());
        r
    }

    pub fn len(&self) -> (r: usize)
        requires
            self.wf(),
        ensures
            r == self.keys_view().len(),
    {
        self.keys.len()
    }

    /// The position of `k`, if it is a key.
    pub fn find(&self, k: &str) -> (r: Option<usize>)
        requires
            self.wf(),
        ensures
            match r {
                Some(i) => i < self.keys_view().len() && self.keys_view()[i as int] == k@
                    && self.pos(k@) == i,
                None => !self.has(k@),
            },
    {
        proof {
            self.lemma_wf();
        }
        match self.index.get(k) {
            Some(i) => {
                proof {
                    assert(self.keys_view()[*i as int] == k@);
                    assert(self.pos(self.keys_view()[*i as int]) == *i);
                }
                Some(*i)
            },
            None => {
                proof {
                    if self.has(k@) {
                        let j = choose|j: int|
                            0 <= j < self.keys_view().len() && self.keys_view()[j] == k@;
                        assert(self.index@.contains_key(self.keys@[j]@));
                    }
                }
                None
            },
        }
    }

    /// The key at position `i`.
    pub fn key(&self, i: usize) -> (r: &String)
        requires
            i < self.keys_view().len(),
        ensures
            r@ == self.keys_view()[i as int],
    {
        &self.keys[i]
    }

    /// The value at position `i`.
    pub fn value(&self, i: usize) -> (r: &V)
        requires
            self.wf(),
            i < self.keys_view().len(),
        ensures
            *r == self.values_view()[i as int],
    {
        &self.values[i]
    }

    /// Adds a new key at the end.
    pub fn push_new(&mut self, k: String, v: V)
        requires
            old(self).wf(),
            !old(self).has(k@),
        ensures
            final(self).wf(),
            final(self).keys_view() == old(self).keys_view().push(k@),
            final(self).values_view() == old(self).values_view().push(v),
    {
        let n = self.keys.len();
        proof {
            if self.index@.contains_key(k@) {
                let p = self.index@[k@] as int;
                assert(self.keys_view()[p] == k@);
            }
        }
        self.index.insert(k.clone(), n);
        self.keys.push(k);
        self.values.push(v);
        assert(self.keys_view() =~= old(self).keys_view().push(k@));
    }

    /// After a value is replaced, every other key keeps its value.
    pub proof fn lemma_get_after_set(old_t: &Self, new_t: &Self, i: int, v: V)
        requires
            old_t.wf(),
            new_t.wf(),
            0 <= i < old_t.keys_view().len(),
            new_t.keys_view() == old_t.keys_view(),
            new_t.values_view() == old_t.values_view().update(i, v),
        ensures
            forall|j: Seq<char>|
                #[trigger] new_t.get(j) == (if j == old_t.keys_view()[i] {
                    Some(v)
                } else {
                    old_t.get(j)
                }),
    {
        old_t.lemma_wf();
        new_t.lemma_wf();
        assert forall|j: Seq<char>| #[trigger]
            new_t.get(j) == (if j == old_t.keys_view()[i] {
                Some(v)
            } else {
                old_t.get(j)
            }) by {
            if old_t.has(j) {
                let p = choose|p: int|
                    0 <= p < old_t.keys_view().len() && old_t.keys_view()[p] == j;
                assert(old_t.pos(old_t.keys_view()[p]) == p);
                assert(new_t.pos(new_t.keys_view()[p]) == p);
            }
        }
    }

    /// After a key is added, the old keys keep their values.
    pub proof fn lemma_get_after_push(old_t: &Self, new_t: &Self, k: Seq<char>, v: V)
        requires
            old_t.wf(),
            new_t.wf(),
            !old_t.has(k),
            new_t.keys_view() == old_t.keys_view().push(k),
            new_t.values_view() == old_t.values_view().push(v),
        ensures
            forall|j: Seq<char>|
                #[trigger] new_t.get(j) == (if j == k {
                    Some(v)
                } else {
                    old_t.get(j)
                }),
    {
        old_t.lemma_wf();
        new_t.lemma_wf();
        let n = old_t.keys_view().len() as int;
        assert forall|j: Seq<char>| #[trigger]
            new_t.get(j) == (if j == k {
                Some(v)
            } else {
                old_t.get(j)
            }) by {
            if j == k {
                assert(new_t.keys_view()[n] == k);
                assert(new_t.pos(new_t.keys_view()[n]) == n);
            } else if old_t.has(j) {
                let p = choose|p: int|
                    0 <= p < old_t.keys_view().len() && old_t.keys_view()[p] == j;
                assert(old_t.pos(old_t.keys_view()[p]) == p);
                assert(new_t.keys_view()[p] == j);
                assert(new_t.pos(new_t.keys_view()[p]) == p);
            } else {
                if new_t.has(j) {
                    let p = choose|p: int|
                        0 <= p < new_t.keys_view().len() && new_t.keys_view()[p] == j;
                    if p < n {
                        assert(old_t.keys_view()[p] == j);
                    }
                }
            }
        }
    }

    /// Replaces the value at position `i`.
    pub fn set_value(&mut self, i: usize, v: V)
        requires
            old(self).wf(),
            i < old(self).keys_view().len(),
        ensures
            final(self).wf(),
            final(self).keys_view() == old(self).keys_view(),
            final(self).values_view() == old(self).values_view().update(i as int, v),
    {
        self.values.set(i, v);
    }
}

impl KeyedTable<usize> {
    /// The count of `k`: its value, or 0 where it is not a key.
    pub open spec fn count(&self, k: Seq<char>) -> nat {
        match self.get(k) {
            Some(c) => c as nat,
            None => 0,
        }
    }

    /// Every count is at most `bound`.
    pub open spec fn bounded_by(&self, bound: nat) -> bool {
        forall|i: int| 0 <= i < self.values_view().len() ==> #[trigger] self.values_view()[i] <= bound
    }

    pub proof fn lemma_count_bounded(&self, b: nat, k: Seq<char>)
        requires
            self.wf(),
            self.bounded_by(b),
        ensures
            self.count(k) <= b,
    {
        self.lemma_wf();
        if self.has(k) {
            let p = choose|p: int| 0 <= p < self.keys_view().len() && self.keys_view()[p] == k;
            assert(self.pos(self.keys_view()[p]) == p);
            assert(self.values_view()[p] <= b);
        }
    }

    /// Adds one to the count of `k`, adding `k` at the end where it is new.
    pub fn bump(&mut self, k: &str)
        requires
            old(self).wf(),
            old(self).count(k@) < usize::MAX,
        ensures
            final(self).wf(),
            final(self).keys_view() == (if old(self).has(k@) {
                old(self).keys_view()
            } else {
                old(self).keys_view().push(k@)
            }),
            forall|j: Seq<char>|
                #[trigger] final(self).count(j) == old(self).count(j) + (if j == k@ {
                    1int
                } else {
                    0
                }),
            forall|b: nat|
                old(self).bounded_by(b) && old(self).count(k@) < b ==> final(self).bounded_by(b),
    {
        match self.find(k) {
            Some(i) => {
                let c = *self.value(i);
                let ghost old_t = *self;
                self.set_value(i, c + 1);
                proof {
                    Self::lemma_get_after_set(&old_t, self, i as int, (c + 1) as usize);
                    assert forall|b: nat|
                        old_t.bounded_by(b) && old_t.count(k@) < b implies self.bounded_by(b) by {
                        assert forall|t: int| 0 <= t < self.values_view().len() implies #[trigger] self.values_view()[t] <= b by {
                            if t != i {
                                assert(self.values_view()[t] == old_t.values_view()[t]);
                            }
                        }
                    }
                }
            },
            None => {
                let ghost old_t = *self;
                self.push_new(k.to_owned(), 1);
                proof {
                    Self::lemma_get_after_push(&old_t, self, k@, 1);
                    assert forall|b: nat|
                        old_t.bounded_by(b) && old_t.count(k@) < b implies self.bounded_by(b) by {
                        assert forall|t: int| 0 <= t < self.values_view().len() implies #[trigger] self.values_view()[t] <= b by {
                            if t < old_t.values_view().len() {
                                assert(self.values_view()[t] == old_t.values_view()[t]);
                            }
                        }
                    }
                }
            },
        }
    }
}

} // verus!
