//! Live monitoring: counts and alerts for entries as they arrive, and the
//! per-line step of a streaming analysis.
use vstd::prelude::*;
use vstd::string::StringExecFns;
use crate::entry::JournalEntry;
use crate::filter::{admits, FilterCriteria};
use crate::normalize::NormalizeRegex;
use crate::parse::{line_entry_matches, parse_line, LineParser};
use crate::state::AnalysisState;
use crate::text::{chars_of, contains_str, seq_contains, trim_of};

verus! {

/// The alerts an entry raises, in order: a failed SSH password, an
/// out-of-memory event, and an error message at error priority or worse.
pub open spec fn alerts_for(msg: Seq<char>, p: u8, service: Seq<char>) -> Seq<Seq<char>> {
    let a = if seq_contains(msg, "Failed password"@) {
        seq!["SSH auth failure detected"@]
    } else {
        Seq::empty()
    };
    let b = if seq_contains(msg, "Out of memory"@) || seq_contains(msg, "OOM"@) {
        seq!["OOM event detected!"@]
    } else {
        Seq::empty()
    };
    let c = if (seq_contains(msg, "error"@) || seq_contains(msg, "ERROR"@)) && p <= 3 {
        seq!["Error from "@ + service]
    } else {
        Seq::empty()
    };
    a + b + c
}

/// Running counts of a live stream.
pub struct LiveStats {
    pub total: usize,
    pub by_priority: [usize; 8],
    /// alerts not yet shown
    pub alerts: Vec<String>,
}

pub open spec fn strings_view(v: Seq<String>) -> Seq<Seq<char>> {
    v.map_values(|s: String| s@)
}

impl LiveStats {
    pub fn new() -> (r: LiveStats)
        ensures
            r.total == 0,
            r.by_priority@ == seq![0usize, 0, 0, 0, 0, 0, 0, 0],
            r.alerts@.len() == 0,
    {
        let r = LiveStats { total: 0, by_priority: [0; 8], alerts: Vec::new() };
        assert(r.by_priority@ =~= seq![0usize, 0, 0, 0, 0, 0, 0, 0]);
        r
    }

    /// Counts an entry and queues the alerts it raises.
    pub fn record(&mut self, entry: &JournalEntry)
        requires
            old(self).total < usize::MAX,
            forall|i: int| 0 <= i < 8 ==> #[trigger] old(self).by_priority@[i] <= old(self).total,
        ensures
            final(self).total == old(self).total + 1,
            forall|i: int| 0 <= i < 8 ==> #[trigger] final(self).by_priority@[i] <= final(self).total,
            final(self).by_priority@ == (if entry.priority_spec() < 8 {
                old(self).by_priority@.update(
                    entry.priority_spec() as int,
                    (old(self).by_priority@[entry.priority_spec() as int] + 1) as usize,
                )
            } else {
                old(self).by_priority@
            }),
            strings_view(final(self).alerts@) == strings_view(old(self).alerts@) + alerts_for(
                entry.msg_spec(),
                entry.priority_spec(),
                entry.service_spec(),
            ),
    {
        let ghost old_alerts = strings_view(self.alerts@);
        let ghost t = self.total;
        self.total = self.total + 1;
        let p = entry.priority_num();
        if p < 8 {
            let c = self.by_priority[p as usize];
            assert(self.by_priority@[p as int] <= t);
            self.by_priority[p as usize] = c + 1;
        }
        let msg = chars_of(entry.msg());
        let ghost m = entry.msg_spec();
        if contains_str(&msg, "Failed password") {
            self.alerts.push("SSH auth failure detected".to_owned());
        }
        let ghost after_a = strings_view(self.alerts@);
        if contains_str(&msg, "Out of memory") || contains_str(&msg, "OOM") {
            self.alerts.push("OOM event detected!".to_owned());
        }
        let ghost after_b = strings_view(self.alerts@);
        if (contains_str(&msg, "error") || contains_str(&msg, "ERROR")) && p <= 3 {
            let mut s = String::new();
            s.append("Error from ");
            s.append(entry.service().as_str());
            self.alerts.push(s);
        }
        proof {
            let a = if seq_contains(m, "Failed password"@) {
                seq!["SSH auth failure detected"@]
            } else {
                Seq::<Seq<char>>::empty()
            };
            let b = if seq_contains(m, "Out of memory"@) || seq_contains(m, "OOM"@) {
                seq!["OOM event detected!"@]
            } else {
                Seq::<Seq<char>>::empty()
            };
            assert(after_a =~= old_alerts + a);
            assert(after_b =~= old_alerts + a + b);
            assert(strings_view(self.alerts@) =~= old_alerts + alerts_for(m, entry.priority_spec(), entry.service_spec()));
        }
    }
}

/// Feeds one raw line through parsing, filtering and aggregation: a line
/// that parses and passes the filter is counted in `state`; one that does not
/// parse adds to `parse_errors`. Returns whether the line was counted.
pub fn ingest_line(
    state: &mut AnalysisState,
    parser: &LineParser,
    filter: &FilterCriteria,
    normalizer: &NormalizeRegex,
    line: &str,
    parse_errors: &mut usize,
) -> (r: bool)
    requires
        old(state).wf(),
        old(state).total() < usize::MAX,
        parser.wf(),
        normalizer.wf(),
        *old(parse_errors) < usize::MAX,
    ensures
        final(state).wf(),
        r <==> exists|e: JournalEntry|
            trim_of(line@).len() > 0 && line_entry_matches(trim_of(line@), Some(e)) && admits(
                filter@,
                e.priority_spec(),
                e.service_spec(),
                e.msg_spec(),
            ),
        r ==> exists|e: JournalEntry|
            line_entry_matches(trim_of(line@), Some(e)) && old(state).after_entry(
                *final(state),
                e,
                *normalizer,
            ),
        !r ==> *final(state) == *old(state),
        *final(parse_errors) == *old(parse_errors) + (if trim_of(line@).len() > 0 && !exists|
            e: JournalEntry,
        | line_entry_matches(trim_of(line@), Some(e)) {
            1int
        } else {
            0
        }),
{
    match parse_line(parser, line, parse_errors) {
        Some(entry) => {
            if filter.matches(&entry) {
                state.process_entry(&entry, normalizer);
                true
            } else {
                proof {
                    assert forall|e: JournalEntry|
                        !(trim_of(line@).len() > 0 && line_entry_matches(trim_of(line@), Some(e))
                            && admits(filter@, e.priority_spec(), e.service_spec(), e.msg_spec())) by {
                        if trim_of(line@).len() > 0 && line_entry_matches(trim_of(line@), Some(e)) {
                            crate::parse::lemma_line_entry_fields(trim_of(line@), entry, e);
                        }
                    }
                }
                false
            }
        },
        None => {
            proof {
                assert forall|e: JournalEntry|
                    !(trim_of(line@).len() > 0 && line_entry_matches(trim_of(line@), Some(e))) by {
                }
            }
            false
        },
    }
}

} // verus!
