//! The streaming aggregator: running counts over every entry that passes the
//! filter, without keeping the entries themselves.
use vstd::prelude::*;
use crate::entry::JournalEntry;
use crate::normalize::NormalizeRegex;
use crate::table::KeyedTable;
use crate::rank::{entries_at, top_by_count, top_positions};
use crate::order::{positions_by_key, sorted_by_key, usize_seq_to_int};

verus! {

/// Counts for one time bucket.
#[derive(Clone, Copy, Debug, PartialEq, Eq, Structural)]
pub struct TimeBucket {
    pub total: usize,
    /// entries with priority 0 to 3
    pub errors: usize,
    /// entries with priority 4
    pub warnings: usize,
}

impl Default for TimeBucket {
    fn default() -> (r: TimeBucket)
        ensures
            r == (TimeBucket { total: 0, errors: 0, warnings: 0 }),
    {
        TimeBucket { total: 0, errors: 0, warnings: 0 }
    }
}

/// A bucket after one more entry of priority `p`.
pub open spec fn bumped(b: TimeBucket, p: u8) -> TimeBucket {
    TimeBucket {
        total: (b.total + 1) as usize,
        errors: if p <= 3 {
            (b.errors + 1) as usize
        } else {
            b.errors
        },
        warnings: if p == 4 {
            (b.warnings + 1) as usize
        } else {
            b.warnings
        },
    }
}

pub open spec fn empty_bucket() -> TimeBucket {
    TimeBucket { total: 0, errors: 0, warnings: 0 }
}

/// Whether an entry of priority `p` with normalized message `m` counts toward
/// the message statistics: warnings and worse, with a non-empty message.
pub open spec fn counts_message(p: u8, m: Seq<char>) -> bool {
    p <= 4 && m.len() > 0
}

/// Streaming analysis state.
pub struct AnalysisState {
    pub(crate) total_entries: usize,
    pub(crate) entries_by_priority: [usize; 8],
    pub(crate) entries_by_service: KeyedTable<usize>,
    pub(crate) error_messages: KeyedTable<usize>,
    pub(crate) time_series: KeyedTable<TimeBucket>,
    /// aligned with `error_messages`: the minute buckets of each message
    pub(crate) message_trends: Vec<KeyedTable<usize>>,
}

impl AnalysisState {
    pub open(crate) spec fn total(&self) -> nat {
        self.total_entries as nat
    }

    pub open(crate) spec fn by_priority(&self) -> Seq<usize> {
        self.entries_by_priority@
    }

    pub open(crate) spec fn services(&self) -> KeyedTable<usize> {
        self.entries_by_service
    }

    pub open(crate) spec fn messages(&self) -> KeyedTable<usize> {
        self.error_messages
    }

    pub open(crate) spec fn series(&self) -> KeyedTable<TimeBucket> {
        self.time_series
    }

    pub open(crate) spec fn trends(&self) -> Seq<KeyedTable<usize>> {
        self.message_trends@
    }

    /// The count of bucket `b` in the trend of message `m`.
    pub open spec fn trend_count(&self, m: Seq<char>, b: Seq<char>) -> nat {
        if self.messages().has(m) {
            self.trends()[self.messages().pos(m)].count(b)
        } else {
            0
        }
    }

    /// The bucket `b`, empty where unseen.
    pub open spec fn bucket(&self, b: Seq<char>) -> TimeBucket {
        match self.series().get(b) {
            Some(t) => t,
            None => empty_bucket(),
        }
    }

    pub closed spec fn wf(&self) -> bool {
        let t = self.total_entries as nat;
        &&& self.entries_by_service.wf()
        &&& self.error_messages.wf()
        &&& self.time_series.wf()
        &&& self.message_trends@.len() == self.error_messages.keys_view().len()
        &&& forall|i: int|
            0 <= i < self.message_trends@.len() ==> (#[trigger] self.message_trends@[i]).wf()
                && self.message_trends@[i].bounded_by(t)
        &&& self.entries_by_service.bounded_by(t)
        &&& self.error_messages.bounded_by(t)
        &&& forall|i: int|
            0 <= i < self.time_series.values_view().len() ==> (
            #[trigger] self.time_series.values_view()[i]).total <= t
                && self.time_series.values_view()[i].errors <= t
                && self.time_series.values_view()[i].warnings <= t
        &&& forall|i: int| 0 <= i < 8 ==> #[trigger] self.entries_by_priority@[i] <= t
    }

    pub proof fn lemma_views(&self)
        requires
            self.wf(),
        ensures
            self.by_priority().len() == 8,
            self.services().wf(),
            self.messages().wf(),
            self.series().wf(),
            self.trends().len() == self.messages().keys_view().len(),
            forall|i: int| 0 <= i < self.trends().len() ==> (#[trigger] self.trends()[i]).wf(),
    {
    }

    /// Every count is at most the number of entries processed, so each can
    /// take one more entry while that number can.
    pub proof fn lemma_counts_bounded(&self)
        requires
            self.wf(),
        ensures
            forall|i: int| 0 <= i < 8 ==> #[trigger] self.by_priority()[i] <= self.total(),
            self.services().bounded_by(self.total()),
            self.messages().bounded_by(self.total()),
            forall|b: Seq<char>|
                #[trigger] self.bucket(b).total <= self.total() && self.bucket(b).errors
                    <= self.total() && self.bucket(b).warnings <= self.total(),
            forall|m: Seq<char>, b: Seq<char>| #[trigger] self.trend_count(m, b) <= self.total(),
    {
        self.time_series.lemma_wf();
        self.error_messages.lemma_wf();
        assert forall|b: Seq<char>|
            #[trigger] self.bucket(b).total <= self.total() && self.bucket(b).errors
                <= self.total() && self.bucket(b).warnings <= self.total() by {
            if self.series().has(b) {
                let q = choose|q: int| 0 <= q < self.series().keys_view().len() && self.series().keys_view()[q] == b;
                assert(self.series().pos(self.series().keys_view()[q]) == q);
            }
        }
        assert forall|m: Seq<char>, b: Seq<char>| #[trigger] self.trend_count(m, b) <= self.total() by {
            if self.messages().has(m) {
                let q = choose|q: int| 0 <= q < self.messages().keys_view().len() && self.messages().keys_view()[q] == m;
                assert(self.messages().pos(self.messages().keys_view()[q]) == q);
                self.message_trends@[q].lemma_count_bounded(self.total(), b);
            }
        }
    }

    /// An empty state.
    pub fn new() -> (r: AnalysisState)
        ensures
            r.wf(),
            r.total() == 0,
            r.by_priority() == seq![0usize, 0, 0, 0, 0, 0, 0, 0],
            r.services().keys_view().len() == 0,
            r.messages().keys_view().len() == 0,
            r.series().keys_view().len() == 0,
    {
        let r = AnalysisState {
            total_entries: 0,
            entries_by_priority: [0; 8],
            entries_by_service: KeyedTable::new(),
            error_messages: KeyedTable::new(),
            time_series: KeyedTable::new(),
            message_trends: Vec::new(),
        };
        assert(r.entries_by_priority@ =~= seq![0usize, 0, 0, 0, 0, 0, 0, 0]);
        r
    }

    /// The number of entries processed.
    pub fn total_entries(&self) -> (r: usize)
        ensures
            r == self.total(),
    {
        self.total_entries
    }

    /// The number of entries of each priority 0 to 7.
    pub fn entries_by_priority(&self) -> (r: [usize; 8])
        ensures
            r@ == self.by_priority(),
    {
        self.entries_by_priority
    }

    fn bump_bucket(&mut self, key: &str, p: u8)
        requires
            old(self).time_series.wf(),
            old(self).total() >= 1,
            forall|i: int|
                0 <= i < old(self).time_series.values_view().len() ==> (
                #[trigger] old(self).time_series.values_view()[i]).total < old(self).total()
                    && old(self).time_series.values_view()[i].errors < old(self).total()
                    && old(self).time_series.values_view()[i].warnings < old(self).total(),
        ensures
            final(self).series().wf(),
            forall|b: Seq<char>|
                #[trigger] final(self).bucket(b) == (if b == key@ {
                    bumped(old(self).bucket(b), p)
                } else {
                    old(self).bucket(b)
                }),
            forall|b: Seq<char>| #[trigger] final(self).series().has(b) <==> old(self).series().has(b) || b == key@,
            forall|i: int|
                0 <= i < final(self).time_series.values_view().len() ==> (
                #[trigger] final(self).time_series.values_view()[i]).total <= old(self).total()
                    && final(self).time_series.values_view()[i].errors <= old(self).total()
                    && final(self).time_series.values_view()[i].warnings <= old(self).total(),
            final(self).total_entries == old(self).total_entries,
            final(self).entries_by_priority == old(self).entries_by_priority,
            final(self).entries_by_service == old(self).entries_by_service,
            final(self).error_messages == old(self).error_messages,
            final(self).message_trends == old(self).message_trends,
    {
        let ghost old_t = self.time_series;
        let ghost t = (self.total_entries - 1) as nat;
        proof {
            self.time_series.lemma_wf();
        }
        match self.time_series.find(key) {
            Some(i) => {
                let b = *self.time_series.value(i);
                assert(self.time_series.values_view()[i as int].total < self.total());
                assert(self.time_series.values_view()[i as int].errors < self.total());
                assert(self.time_series.values_view()[i as int].warnings < self.total());
                let nb = TimeBucket {
                    total: b.total + 1,
                    errors: if p <= 3 { b.errors + 1 } else { b.errors },
                    warnings: if p == 4 { b.warnings + 1 } else { b.warnings },
                };
                self.time_series.set_value(i, nb);
                proof {
                    KeyedTable::lemma_get_after_set(&old_t, &self.time_series, i as int, nb);
                    assert forall|b: Seq<char>| #[trigger] self.series().has(b) <==> old_t.has(b) || b == key@ by {
                        assert(self.series().keys_view() == old_t.keys_view());
                    }
                    assert forall|j: int| 0 <= j < self.time_series.values_view().len() implies (
                    #[trigger] self.time_series.values_view()[j]).total <= t + 1
                        && self.time_series.values_view()[j].errors <= t + 1
                        && self.time_series.values_view()[j].warnings <= t + 1 by {
                        if j != i {
                            assert(j < old_t.values_view().len());
                            assert(self.time_series.values_view()[j] == old_t.values_view()[j]);
                        }
                    }
                }
            },
            None => {
                let nb = TimeBucket {
                    total: 1,
                    errors: if p <= 3 { 1 } else { 0 },
                    warnings: if p == 4 { 1 } else { 0 },
                };
                self.time_series.push_new(key.to_owned(), nb);
                proof {
                    KeyedTable::lemma_get_after_push(&old_t, &self.time_series, key@, nb);
                    assert forall|b: Seq<char>| #[trigger] self.series().has(b) <==> old_t.has(b) || b == key@ by {
                        assert(self.series().keys_view() == old_t.keys_view().push(key@));
                        if old_t.has(b) {
                            let q = choose|q: int| 0 <= q < old_t.keys_view().len() && old_t.keys_view()[q] == b;
                            assert(self.series().keys_view()[q] == b);
                        }
                        if b == key@ {
                            assert(self.series().keys_view()[old_t.keys_view().len() as int] == b);
                        }
                        if self.series().has(b) && b != key@ {
                            let q = choose|q: int| 0 <= q < self.series().keys_view().len() && self.series().keys_view()[q] == b;
                            assert(q < old_t.keys_view().len());
                            assert(old_t.keys_view()[q] == b);
                        }
                    }
                    assert forall|j: int| 0 <= j < self.time_series.values_view().len() implies (
                    #[trigger] self.time_series.values_view()[j]).total <= t + 1
                        && self.time_series.values_view()[j].errors <= t + 1
                        && self.time_series.values_view()[j].warnings <= t + 1 by {
                        if j < old_t.values_view().len() {
                            assert(self.time_series.values_view()[j] == old_t.values_view()[j]);
                        }
                    }
                }
            },
        }
    }
}

/// One entry of priority 0 to 7 adds one to the total and to its priority
/// slot, and leaves every other slot as it was.
pub proof fn lemma_priority_counted(
    before: AnalysisState,
    after: AnalysisState,
    entry: JournalEntry,
    norm: NormalizeRegex,
)
    requires
        before.wf(),
        before.total() < usize::MAX,
        before.after_entry(after, entry, norm),
        entry.priority_spec() < 8,
    ensures
        after.total() == before.total() + 1,
        after.by_priority()[entry.priority_spec() as int] == before.by_priority()[entry.priority_spec() as int] + 1,
        forall|i: int|
            0 <= i < 8 && i != entry.priority_spec() ==> #[trigger] after.by_priority()[i]
                == before.by_priority()[i],
{
    before.lemma_views();
    before.lemma_counts_bounded();
}

impl AnalysisState {
    /// `next` is this state after one entry `entry`, normalized with `norm`:
    /// one more entry in total and in its priority slot (if 0 to 7), service
    /// and minute bucket; one more in its normalized message and that
    /// message's trend where it counts as a message; nothing else changes.
    pub open spec fn after_entry(
        &self,
        next: AnalysisState,
        entry: JournalEntry,
        norm: NormalizeRegex,
    ) -> bool {
        &&& next.total() == self.total() + 1
        &&& next.by_priority() == (if entry.priority_spec() < 8 {
            self.by_priority().update(
                entry.priority_spec() as int,
                (self.by_priority()[entry.priority_spec() as int] + 1) as usize,
            )
        } else {
            self.by_priority()
        })
        &&& forall|k: Seq<char>|
            #[trigger] next.services().count(k) == self.services().count(k) + (
            if k == entry.service_spec() {
                1int
            } else {
                0
            })
        &&& next.services().keys_view() == (if self.services().has(
            entry.service_spec(),
        ) {
            self.services().keys_view()
        } else {
            self.services().keys_view().push(entry.service_spec())
        })
        &&& forall|b: Seq<char>|
            #[trigger] next.bucket(b) == (if entry.minute_spec() == Some(b) {
                bumped(self.bucket(b), entry.priority_spec())
            } else {
                self.bucket(b)
            })
        &&& forall|b: Seq<char>|
            #[trigger] next.series().has(b) <==> self.series().has(b)
                || entry.minute_spec() == Some(b)
        &&& next.messages().keys_view() == (if counts_message(
            entry.priority_spec(),
            norm.normalized(entry.msg_spec()),
        ) && !self.messages().has(norm.normalized(entry.msg_spec())) {
            self.messages().keys_view().push(norm.normalized(entry.msg_spec()))
        } else {
            self.messages().keys_view()
        })
        &&& forall|m: Seq<char>|
            #[trigger] next.messages().count(m) == self.messages().count(m) + (
            if counts_message(
                entry.priority_spec(),
                norm.normalized(entry.msg_spec()),
            ) && m == norm.normalized(entry.msg_spec()) {
                1int
            } else {
                0
            })
        &&& forall|m: Seq<char>, b: Seq<char>|
            #[trigger] next.trend_count(m, b) == self.trend_count(m, b) + (
            if counts_message(
                entry.priority_spec(),
                norm.normalized(entry.msg_spec()),
            ) && m == norm.normalized(entry.msg_spec()) && entry.minute_spec()
                == Some(b) {
                1int
            } else {
                0
            })
    }

    /// Adds one entry that passed the filter to the statistics.
    pub fn process_entry(&mut self, entry: &JournalEntry, normalize_regex: &NormalizeRegex)
        requires
            old(self).wf(),
            old(self).total() < usize::MAX,
            normalize_regex.wf(),
        ensures
            final(self).wf(),
            old(self).after_entry(*final(self), *entry, *normalize_regex),
    {
        let ghost old_self = *self;
        let ghost t = self.total_entries as nat;
        let p = entry.priority_num();
        let minute = entry.minute_bucket();

        // totals and the priority histogram
        self.total_entries = self.total_entries + 1;
        if p < 8 {
            let c = self.entries_by_priority[p as usize];
            assert(self.entries_by_priority@[p as int] <= t);
            self.entries_by_priority[p as usize] = c + 1;
        }
        assert forall|i: int| 0 <= i < 8 implies #[trigger] self.entries_by_priority@[i] <= t + 1 by {
            assert(old_self.entries_by_priority@[i] <= t);
        }

        // services
        let service = entry.service();
        proof {
            self.entries_by_service.lemma_count_bounded(t, service@);
        }
        self.entries_by_service.bump(service.as_str());

        // time series
        match &minute {
            Some(key) => {
                self.bump_bucket(key.as_str(), p);
            },
            None => {},
        }
        assert forall|b: Seq<char>|
            #[trigger] self.bucket(b) == (if entry.minute_spec() == Some(b) {
                bumped(old_self.bucket(b), entry.priority_spec())
            } else {
                old_self.bucket(b)
            }) by {}
        let ghost after_series = self.time_series;
        let ghost mid = *self;

        // message counts and trends
        if p <= 4 {
            let msg = normalize_regex.normalize(entry.msg());
            if !msg.as_str().is_empty() {
                let ghost before = *self;
                proof {
                    self.error_messages.lemma_wf();
                    self.error_messages.lemma_count_bounded(t, msg@);
                }
                match self.error_messages.find(msg.as_str()) {
                    Some(i) => {
                        self.error_messages.bump(msg.as_str());
                        match &minute {
                            Some(key) => {
                                proof {
                                    assert(self.message_trends@[i as int].wf());
                                    self.message_trends@[i as int].lemma_count_bounded(t, key@);
                                }
                                self.message_trends[i].bump(key.as_str());
                            },
                            None => {},
                        }
                        proof {
                            self.error_messages.lemma_wf();
                            assert forall|m: Seq<char>, b: Seq<char>|
                                #[trigger] self.trend_count(m, b) == before.trend_count(m, b) + (
                                if m == msg@ && entry.minute_spec() == Some(b) {
                                    1int
                                } else {
                                    0
                                }) by {
                                if before.messages().has(m) {
                                    let q = choose|q: int| 0 <= q < before.messages().keys_view().len() && before.messages().keys_view()[q] == m;
                                    assert(before.messages().pos(before.messages().keys_view()[q]) == q);
                                    assert(self.messages().keys_view()[q] == m);
                                    assert(self.messages().pos(self.messages().keys_view()[q]) == q);
                                }
                            }
                        }
                    },
                    None => {
                        self.error_messages.bump(msg.as_str());
                        let mut trend: KeyedTable<usize> = KeyedTable::new();
                        match &minute {
                            Some(key) => {
                                trend.bump(key.as_str());
                            },
                            None => {},
                        }
                        self.message_trends.push(trend);
                        proof {
                            self.error_messages.lemma_wf();
                            let n = before.messages().keys_view().len() as int;
                            assert forall|m: Seq<char>, b: Seq<char>|
                                #[trigger] self.trend_count(m, b) == before.trend_count(m, b) + (
                                if m == msg@ && entry.minute_spec() == Some(b) {
                                    1int
                                } else {
                                    0
                                }) by {
                                if m == msg@ {
                                    assert(self.messages().keys_view()[n] == m);
                                    assert(self.messages().pos(self.messages().keys_view()[n]) == n);
                                } else if before.messages().has(m) {
                                    let q = choose|q: int| 0 <= q < before.messages().keys_view().len() && before.messages().keys_view()[q] == m;
                                    assert(before.messages().pos(before.messages().keys_view()[q]) == q);
                                    assert(self.messages().keys_view()[q] == m);
                                    assert(self.messages().pos(self.messages().keys_view()[q]) == q);
                                } else {
                                    if self.messages().has(m) {
                                        let q = choose|q: int| 0 <= q < self.messages().keys_view().len() && self.messages().keys_view()[q] == m;
                                        if q < n {
                                            assert(before.messages().keys_view()[q] == m);
                                        }
                                    }
                                }
                            }
                        }
                    },
                }
            }
        }
        assert(self.time_series == after_series);
        assert forall|b: Seq<char>|
            #[trigger] self.bucket(b) == (if entry.minute_spec() == Some(b) {
                bumped(old_self.bucket(b), entry.priority_spec())
            } else {
                old_self.bucket(b)
            }) by {
            assert(self.series() == mid.series());
            assert(self.bucket(b) == mid.bucket(b));
        }
    }
}

/// `out` lists every entry of `t`, in increasing key order.
pub open spec fn sorted_listing<V>(t: KeyedTable<V>, out: Seq<(String, V)>) -> bool {
    exists|ps: Seq<int>|
        ps.len() == t.keys_view().len() && sorted_by_key(t.keys_view(), ps) && out.len() == ps.len()
            && forall|i: int|
            0 <= i < ps.len() ==> (#[trigger] out[i]).0@ == t.keys_view()[ps[i]] && out[i].1
                == t.values_view()[ps[i]]
}

/// A table has one listing in increasing key order.
pub proof fn lemma_listing_unique<V>(t: KeyedTable<V>, a: Seq<(String, V)>, b: Seq<(String, V)>)
    requires
        sorted_listing(t, a),
        sorted_listing(t, b),
    ensures
        a.len() == b.len(),
        forall|i: int| 0 <= i < a.len() ==> (#[trigger] a[i]).1 == b[i].1 && a[i].0@ == b[i].0@,
{
    let ps = choose|ps: Seq<int>|
        ps.len() == t.keys_view().len() && sorted_by_key(t.keys_view(), ps) && a.len() == ps.len()
            && forall|i: int|
            0 <= i < ps.len() ==> (#[trigger] a[i]).0@ == t.keys_view()[ps[i]] && a[i].1
                == t.values_view()[ps[i]];
    let qs = choose|qs: Seq<int>|
        qs.len() == t.keys_view().len() && sorted_by_key(t.keys_view(), qs) && b.len() == qs.len()
            && forall|i: int|
            0 <= i < qs.len() ==> (#[trigger] b[i]).0@ == t.keys_view()[qs[i]] && b[i].1
                == t.values_view()[qs[i]];
    crate::order::lemma_sorted_unique(t.keys_view(), ps, qs);
}

/// Every entry of `t`, in increasing key order.
pub fn sorted_entries<V: Copy>(t: &KeyedTable<V>) -> (r: Vec<(String, V)>)
    requires
        t.wf(),
    ensures
        sorted_listing(*t, r@),
{
    proof {
        t.lemma_wf();
    }
    let ps = positions_by_key(t);
    let mut out: Vec<(String, V)> = Vec::new();
    let mut i: usize = 0;
    while i < ps.len()
        invariant
            t.wf(),
            i <= ps@.len(),
            ps@.len() == t.keys_view().len(),
            t.values_view().len() == t.keys_view().len(),
            sorted_by_key(t.keys_view(), usize_seq_to_int(ps@)),
            out@.len() == i,
            forall|j: int|
                0 <= j < i ==> (#[trigger] out@[j]).0@ == t.keys_view()[ps@[j] as int] && out@[j].1
                    == t.values_view()[ps@[j] as int],
        decreases ps.len() - i,
    {
        let p = ps[i];
        assert(usize_seq_to_int(ps@)[i as int] == p as int);
        out.push((t.key(p).clone(), *t.value(p)));
        i = i + 1;
    }
    proof {
        let ips = usize_seq_to_int(ps@);
        assert forall|j: int| 0 <= j < ips.len() implies (#[trigger] out@[j]).0@ == t.keys_view()[ips[j]] && out@[j].1 == t.values_view()[ips[j]] by {
            assert(ips[j] == ps@[j] as int);
        }
    }
    out
}

impl AnalysisState {
    /// The `n` most frequent normalized messages with their counts, most
    /// frequent first, ties in order of first appearance.
    pub fn top_errors(&self, n: usize) -> (r: Vec<(String, usize)>)
        requires
            self.wf(),
        ensures
            exists|ps: Seq<int>|
                top_positions(self.messages().values_view(), n as nat, ps) && entries_at(
                    self.messages().keys_view(),
                    self.messages().values_view(),
                    ps,
                    r@,
                ),
    {
        let r = top_by_count(&self.error_messages, n);
        proof {
            let ps = choose|ps: Seq<int>|
                top_positions(self.error_messages.values_view(), n as nat, ps) && entries_at(
                    self.error_messages.keys_view(),
                    self.error_messages.values_view(),
                    ps,
                    r@,
                );
            assert(top_positions(self.messages().values_view(), n as nat, ps));
        }
        r
    }

    /// The `n` services with the most entries, most first, ties in order of
    /// first appearance.
    pub fn top_services(&self, n: usize) -> (r: Vec<(String, usize)>)
        requires
            self.wf(),
        ensures
            exists|ps: Seq<int>|
                top_positions(self.services().values_view(), n as nat, ps) && entries_at(
                    self.services().keys_view(),
                    self.services().values_view(),
                    ps,
                    r@,
                ),
    {
        let r = top_by_count(&self.entries_by_service, n);
        proof {
            let ps = choose|ps: Seq<int>|
                top_positions(self.entries_by_service.values_view(), n as nat, ps) && entries_at(
                    self.entries_by_service.keys_view(),
                    self.entries_by_service.values_view(),
                    ps,
                    r@,
                );
            assert(top_positions(self.services().values_view(), n as nat, ps));
        }
        r
    }

    /// Every time bucket, in chronological (key) order.
    pub fn sorted_time_series(&self) -> (r: Vec<(String, TimeBucket)>)
        requires
            self.wf(),
        ensures
            sorted_listing(self.series(), r@),
    {
        sorted_entries(&self.time_series)
    }

    /// Every minute key seen, ascending.
    pub fn all_time_buckets(&self) -> (r: Vec<String>)
        requires
            self.wf(),
        ensures
            exists|ps: Seq<int>|
                ps.len() == self.series().keys_view().len() && sorted_by_key(
                    self.series().keys_view(),
                    ps,
                ) && r@.len() == ps.len() && forall|i: int|
                    0 <= i < ps.len() ==> (#[trigger] r@[i])@ == self.series().keys_view()[ps[i]],
    {
        let ps = positions_by_key(&self.time_series);
        let mut out: Vec<String> = Vec::new();
        let mut i: usize = 0;
        while i < ps.len()
            invariant
                self.wf(),
                i <= ps@.len(),
                ps@.len() == self.series().keys_view().len(),
                sorted_by_key(self.series().keys_view(), usize_seq_to_int(ps@)),
                out@.len() == i,
                forall|j: int| 0 <= j < i ==> (#[trigger] out@[j])@ == self.series().keys_view()[ps@[j] as int],
            decreases ps.len() - i,
        {
            let p = ps[i];
            assert(usize_seq_to_int(ps@)[i as int] == p as int);
            out.push(self.time_series.key(p).clone());
            i = i + 1;
        }
        proof {
            let ips = usize_seq_to_int(ps@);
            assert forall|j: int| 0 <= j < ips.len() implies (#[trigger] out@[j])@ == self.series().keys_view()[ips[j]] by {
                assert(ips[j] == ps@[j] as int);
            }
        }
        out
    }

    /// The trend of each of the `n` most frequent messages: its minute buckets
    /// with counts, in chronological order.
    pub fn top_message_trends(&self, n: usize) -> (r: Vec<(String, Vec<(String, usize)>)>)
        requires
            self.wf(),
        ensures
            exists|ps: Seq<int>|
                top_positions(self.messages().values_view(), n as nat, ps) && r@.len() == ps.len()
                    && forall|i: int|
                    0 <= i < ps.len() ==> (#[trigger] r@[i]).0@ == self.messages().keys_view()[ps[i]]
                        && sorted_listing(self.trends()[ps[i]], r@[i].1@),
    {
        proof {
            self.error_messages.lemma_wf();
        }
        let top = self.top_errors(n);
        let ghost ps = choose|ps: Seq<int>|
            top_positions(self.messages().values_view(), n as nat, ps) && entries_at(
                self.messages().keys_view(),
                self.messages().values_view(),
                ps,
                top@,
            );
        let mut out: Vec<(String, Vec<(String, usize)>)> = Vec::new();
        let mut i: usize = 0;
        while i < top.len()
            invariant
                self.wf(),
                i <= top@.len(),
                top_positions(self.messages().values_view(), n as nat, ps),
                entries_at(self.messages().keys_view(), self.messages().values_view(), ps, top@),
                out@.len() == i,
                forall|j: int|
                    0 <= j < i ==> (#[trigger] out@[j]).0@ == self.messages().keys_view()[ps[j]]
                        && sorted_listing(self.trends()[ps[j]], out@[j].1@),
            decreases top.len() - i,
        {
            let msg = &top[i].0;
            let ghost p = ps[i as int];
            proof {
                self.error_messages.lemma_wf();
                assert(self.messages().pos(self.messages().keys_view()[p]) == p);
            }
            match self.error_messages.find(msg.as_str()) {
                Some(k) => {
                    assert(k as int == p);
                    let trend = sorted_entries(&self.message_trends[k]);
                    out.push((msg.clone(), trend));
                },
                None => {
                    assert(self.messages().keys_view()[p] == msg@);
                    assert(false);
                    out.push((msg.clone(), Vec::new()));
                },
            }
            i = i + 1;
        }
        out
    }
}

} // verus!
