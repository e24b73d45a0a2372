//! The filter engine: a priority ceiling, an allowed set of services, and up
//! to two regular expressions combined by a mode.
use vstd::prelude::*;
use crate::entry::JournalEntry;
use crate::pattern::{regex_matches, regex_valid, Pattern, PatternError};
use crate::record::LogEntry;

verus! {

/// How the primary and secondary patterns combine.
#[derive(Clone, Copy, Debug, PartialEq, Eq, Structural)]
pub enum CombineMode {
    Match,
    And,
    Or,
    Not,
}

/// The pattern decision, given what each configured pattern said (`None`
/// where a pattern is not configured).
pub open spec fn combine_spec(mode: CombineMode, primary: Option<bool>, secondary: Option<bool>) -> bool {
    match mode {
        CombineMode::Match => primary != Some(false),
        CombineMode::And => primary != Some(false) && secondary != Some(false),
        CombineMode::Or => (primary is None && secondary is None) || primary == Some(true)
            || secondary == Some(true),
        CombineMode::Not => primary != Some(true),
    }
}

/// Combines the outcomes of the configured patterns.
pub fn combine_matches(mode: CombineMode, primary: Option<bool>, secondary: Option<bool>) -> (r: bool)
    ensures
        r == combine_spec(mode, primary, secondary),
{
    match mode {
        CombineMode::Match => primary != Some(false),
        CombineMode::And => primary != Some(false) && secondary != Some(false),
        CombineMode::Or => (primary.is_none() && secondary.is_none()) || primary == Some(true)
            || secondary == Some(true),
        CombineMode::Not => primary != Some(true),
    }
}

/// What a configured pattern says of `msg`.
pub open spec fn outcome(p: Option<Seq<char>>, msg: Seq<char>) -> Option<bool> {
    match p {
        Some(src) => Some(regex_matches(src, msg)),
        None => None,
    }
}

pub open spec fn pattern_view(p: Option<Pattern>) -> Option<Seq<char>> {
    match p {
        Some(q) => Some(q@),
        None => None,
    }
}

/// The filter as values: allowed services, ceiling, pattern texts, mode.
pub struct FilterView {
    pub units: Seq<Seq<char>>,
    pub max_priority: u8,
    pub primary: Option<Seq<char>>,
    pub secondary: Option<Seq<char>>,
    pub mode: CombineMode,
}

/// Whether the filter admits an entry of priority `p` from `service` with
/// message `msg`.
pub open spec fn admits(f: FilterView, p: u8, service: Seq<char>, msg: Seq<char>) -> bool {
    &&& p <= f.max_priority
    &&& (f.units.len() == 0 || f.units.contains(service))
    &&& combine_spec(f.mode, outcome(f.primary, msg), outcome(f.secondary, msg))
}

/// The filter that a fresh criteria holds.
pub open spec fn default_filter() -> FilterView {
    FilterView {
        units: Seq::empty(),
        max_priority: 7,
        primary: None,
        secondary: None,
        mode: CombineMode::Match,
    }
}

/// Filter criteria for entries.
#[derive(Debug)]
pub struct FilterCriteria {
    /// the allowed services; empty admits every service
    pub units: Vec<String>,
    pub max_priority: u8,
    pub pattern: Option<Pattern>,
    pub pattern2: Option<Pattern>,
    pub combine_mode: CombineMode,
}

impl View for FilterCriteria {
    type V = FilterView;

    open spec fn view(&self) -> FilterView {
        FilterView {
            units: self.units@.map_values(|s: String| s@),
            max_priority: self.max_priority,
            primary: pattern_view(self.pattern),
            secondary: pattern_view(self.pattern2),
            mode: self.combine_mode,
        }
    }
}

impl Default for FilterCriteria {
    /// Admits everything: no services listed, ceiling 7, no patterns, mode Match.
    fn default() -> (r: FilterCriteria)
        ensures
            r@ == default_filter(),
    {
        let r = FilterCriteria {
            units: Vec::new(),
            max_priority: 7,
            pattern: None,
            pattern2: None,
            combine_mode: CombineMode::Match,
        };
        assert(r@.units =~= Seq::<Seq<char>>::empty());
        r
    }
}

fn service_listed(units: &Vec<String>, service: &str) -> (r: bool)
    ensures
        r == (units@.map_values(|s: String| s@).len() == 0 || units@.map_values(|s: String| s@).contains(service@)),
{
    let ghost uv = units@.map_values(|s: String| s@);
    if units.len() == 0 {
        return true;
    }
    let wanted = service.to_owned();
    let mut i: usize = 0;
    while i < units.len()
        invariant
            wanted@ == service@,
            i <= units@.len(),
            uv == units@.map_values(|s: String| s@),
            forall|j: int| 0 <= j < i ==> uv[j] != service@,
        decreases units.len() - i,
    {
        if units[i] == wanted {
            assert(uv[i as int] == service@);
            return true;
        }
        i = i + 1;
    }
    false
}

impl FilterCriteria {
    /// Criteria from the command line: at most one service, a ceiling, at most
    /// one pattern; refused where the pattern does not compile.
    pub fn new(unit: Option<String>, max_priority: u8, pattern: Option<String>) -> (r: Result<
        FilterCriteria,
        PatternError,
    >)
        ensures
            r.is_err() == (pattern matches Some(p) && !regex_valid(p@)),
            r matches Ok(f) ==> f@.max_priority == max_priority && f@.secondary is None
                && f@.mode == CombineMode::Match && f@.primary == (match pattern {
                Some(p) => Some(p@),
                None => None::<Seq<char>>,
            }) && f@.units == (match unit {
                Some(u) => seq![u@],
                None => Seq::<Seq<char>>::empty(),
            }),
    {
        let compiled = match &pattern {
            Some(p) => Some(Pattern::new(p.as_str())?),
            None => None,
        };
        let mut units: Vec<String> = Vec::new();
        match unit {
            Some(u) => units.push(u),
            None => {},
        }
        let r = FilterCriteria {
            units,
            max_priority,
            pattern: compiled,
            pattern2: None,
            combine_mode: CombineMode::Match,
        };
        assert(r@.units =~= (match unit {
            Some(u) => seq![u@],
            None => Seq::<Seq<char>>::empty(),
        }));
        Ok(r)
    }

    /// Sets the primary pattern; an empty text clears it. An invalid pattern
    /// is refused and the previous one kept.
    pub fn set_pattern(&mut self, text: &str) -> (r: bool)
        ensures
            r == (text@.len() == 0 || regex_valid(text@)),
            r ==> final(self)@ == (FilterView {
                primary: if text@.len() == 0 { None } else { Some(text@) },
                ..old(self)@
            }),
            !r ==> final(self)@ == old(self)@,
    {
        if text.is_empty() {
            self.pattern = None;
            return true;
        }
        match Pattern::new(text) {
            Ok(p) => {
                self.pattern = Some(p);
                true
            },
            Err(_) => false,
        }
    }

    /// Sets the secondary pattern, as `set_pattern` does the primary.
    pub fn set_pattern2(&mut self, text: &str) -> (r: bool)
        ensures
            r == (text@.len() == 0 || regex_valid(text@)),
            r ==> final(self)@ == (FilterView {
                secondary: if text@.len() == 0 { None } else { Some(text@) },
                ..old(self)@
            }),
            !r ==> final(self)@ == old(self)@,
    {
        if text.is_empty() {
            self.pattern2 = None;
            return true;
        }
        match Pattern::new(text) {
            Ok(p) => {
                self.pattern2 = Some(p);
                true
            },
            Err(_) => false,
        }
    }

    /// Whether an entry of priority `priority` from `service` with message
    /// `msg` passes.
    pub fn admits(&self, priority: u8, service: &str, msg: &str) -> (r: bool)
        ensures
            r == admits(self@, priority, service@, msg@),
    {
        if priority > self.max_priority {
            return false;
        }
        if !service_listed(&self.units, service) {
            return false;
        }
        let primary = match &self.pattern {
            Some(p) => Some(p.is_match(msg)),
            None => None,
        };
        let secondary = match &self.pattern2 {
            Some(p) => Some(p.is_match(msg)),
            None => None,
        };
        combine_matches(self.combine_mode, primary, secondary)
    }

    /// Whether a journal record passes.
    pub fn matches(&self, entry: &JournalEntry) -> (r: bool)
        ensures
            r == admits(self@, entry.priority_spec(), entry.service_spec(), entry.msg_spec()),
    {
        let service = entry.service();
        self.admits(entry.priority_num(), service.as_str(), entry.msg())
    }

    /// Whether a log entry passes.
    pub fn matches_entry(&self, entry: &LogEntry) -> (r: bool)
        ensures
            r == admits(self@, entry.priority, entry.service@, entry.message@),
    {
        self.admits(entry.priority, entry.service.as_str(), entry.message.as_str())
    }
}

/// The default criteria admit every entry whose priority is in 0..=7,
/// whatever its service and message.
pub proof fn lemma_default_admits_all(p: u8, service: Seq<char>, msg: Seq<char>)
    requires
        p <= 7,
    ensures
        admits(default_filter(), p, service, msg),
{
}

/// In mode And with both patterns configured, an entry passes only if both
/// patterns match its message: one failing pattern rejects it, however the
/// other fares.
pub proof fn lemma_and_needs_both(f: FilterView, p: u8, service: Seq<char>, msg: Seq<char>)
    requires
        f.mode == CombineMode::And,
        f.primary is Some,
        f.secondary is Some,
    ensures
        admits(f, p, service, msg) ==> regex_matches(f.primary->0, msg) && regex_matches(
            f.secondary->0,
            msg,
        ),
        !regex_matches(f.primary->0, msg) ==> !admits(f, p, service, msg),
        !regex_matches(f.secondary->0, msg) ==> !admits(f, p, service, msg),
{
}

} // verus!
