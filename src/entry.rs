//! The entry model: journal records, their derived fields, and the priority
//! heuristic for text lines that carry no explicit severity.
use vstd::prelude::*;
use crate::text::{
    chars_of, contains_str, lower_of, lowercase, parse_i64, parse_i64_spec, parse_u8,
    parse_u8_spec, seq_contains, signed_decimal_of, signed_decimal_string,
};

verus! {

/// The priority used when a record has none, or one that does not parse.
pub const DEFAULT_PRIORITY: u8 = 6;

/// One journal record, as journalctl writes it in JSON or as recovered from a
/// syslog text line. Every field may be absent.
#[derive(Debug, Clone)]
pub struct JournalEntry {
    pub realtime_timestamp: Option<String>,
    pub hostname: Option<String>,
    pub priority: Option<String>,
    pub syslog_identifier: Option<String>,
    pub pid: Option<String>,
    pub systemd_unit: Option<String>,
    pub message: Option<String>,
    pub transport: Option<String>,
}

/// The message classes of the priority ladder, most severe first.
pub open spec fn critical_words(m: Seq<char>) -> bool {
    seq_contains(m, "panic"@) || seq_contains(m, "fatal"@) || seq_contains(m, "critical"@)
}

pub open spec fn error_words(m: Seq<char>) -> bool {
    seq_contains(m, "error"@) || seq_contains(m, "failed"@) || seq_contains(m, "failure"@)
        || seq_contains(m, "cannot"@) || seq_contains(m, "unable to"@) || seq_contains(
        m,
        "segfault"@,
    ) || seq_contains(m, "exception"@)
}

pub open spec fn warning_words(m: Seq<char>) -> bool {
    seq_contains(m, "warning"@) || seq_contains(m, "warn"@) || seq_contains(m, "timeout"@)
        || seq_contains(m, "timed out"@) || seq_contains(m, "retrying"@) || seq_contains(
        m,
        "deprecated"@,
    ) || seq_contains(m, "denied"@) || seq_contains(m, "refused"@)
}

pub open spec fn notice_words(m: Seq<char>) -> bool {
    seq_contains(m, "started"@) || seq_contains(m, "stopped"@) || seq_contains(m, "connected"@)
        || seq_contains(m, "disconnected"@) || seq_contains(m, "loaded"@) || seq_contains(
        m,
        "finished"@,
    )
}

/// The priority that the ladder gives an already lowercased message: the
/// first class that matches wins.
pub open spec fn priority_tier(m: Seq<char>) -> u8 {
    if critical_words(m) {
        2
    } else if error_words(m) {
        3
    } else if warning_words(m) {
        4
    } else if notice_words(m) {
        5
    } else {
        6
    }
}

/// The priority ladder on a message that is already lowercase.
pub fn infer_priority_lowered(lower: &str) -> (r: u8)
    ensures
        r == priority_tier(lower@),
{
    let m = chars_of(lower);
    if contains_str(&m, "panic") || contains_str(&m, "fatal") || contains_str(&m, "critical") {
        return 2;
    }
    if contains_str(&m, "error") || contains_str(&m, "failed") || contains_str(&m, "failure")
        || contains_str(&m, "cannot") || contains_str(&m, "unable to") || contains_str(
        &m,
        "segfault",
    ) || contains_str(&m, "exception") {
        return 3;
    }
    if contains_str(&m, "warning") || contains_str(&m, "warn") || contains_str(&m, "timeout")
        || contains_str(&m, "timed out") || contains_str(&m, "retrying") || contains_str(
        &m,
        "deprecated",
    ) || contains_str(&m, "denied") || contains_str(&m, "refused") {
        return 4;
    }
    if contains_str(&m, "started") || contains_str(&m, "stopped") || contains_str(&m, "connected")
        || contains_str(&m, "disconnected") || contains_str(&m, "loaded") || contains_str(
        &m,
        "finished",
    ) {
        return 5;
    }
    6
}

/// Infers a syslog priority (0 most severe, 7 least) from message text,
/// case-insensitively.
pub fn infer_priority(msg: &str) -> (r: u8)
    ensures
        r == priority_tier(lower_of(msg@)),
{
    let lower = lowercase(msg);
    infer_priority_lowered(lower.as_str())
}

/// The name of a priority level.
pub open spec fn priority_name_of(p: u8) -> Seq<char> {
    if p == 0 {
        "EMERG"@
    } else if p == 1 {
        "ALERT"@
    } else if p == 2 {
        "CRIT"@
    } else if p == 3 {
        "ERR"@
    } else if p == 4 {
        "WARNING"@
    } else if p == 5 {
        "NOTICE"@
    } else if p == 6 {
        "INFO"@
    } else if p == 7 {
        "DEBUG"@
    } else {
        "UNKNOWN"@
    }
}

/// Truncating division, as Rust's `/` on signed integers.
pub open spec fn trunc_div(a: int, b: int) -> int {
    if a >= 0 {
        a / b
    } else {
        -((-a) / b)
    }
}

/// `a` rounded toward zero to a multiple of `b`.
fn trunc_to_multiple(a: i64, b: i64) -> (r: i64)
    requires
        b > 1,
    ensures
        r == trunc_div(a as int, b as int) * b,
{
    let ai = a as i128;
    let bi = b as i128;
    let m: i128 = if ai >= 0 { ai } else { -ai };
    let qm: i128 = m / bi;
    proof {
        assert(0 <= qm * bi <= m) by (nonlinear_arith)
            requires
                qm == m / bi,
                bi > 1,
                m >= 0,
        {
        }
    }
    let r: i128 = if ai >= 0 { qm * bi } else { -(qm * bi) };
    proof {
        assert((-qm) * bi == -(qm * bi)) by (nonlinear_arith);
    }
    r as i64
}

/// The label, in UTC, that chrono's `DateTime::from_timestamp(secs, 0)`
/// formatted with the strftime pattern `fmt` gives; `None` where `secs` is out of
/// chrono's range.
pub uninterp spec fn utc_formatted(secs: int, fmt: Seq<char>) -> Option<Seq<char>>;

/// Relies on chrono's `DateTime::from_timestamp` and `format`: a label of the
/// instant in UTC. Only the fixed strftime patterns of this module are passed,
/// which chrono always renders.
#[verifier::external_body]
pub(crate) fn utc_format(secs: i64, fmt: &str) -> (r: Option<String>)
    requires
        fmt@ == minute_format() || fmt@ == hour_format() || fmt@ == second_format(),
    ensures
        match (r, utc_formatted(secs as int, fmt@)) {
            (None, None) => true,
            (Some(s), Some(t)) => s@ == t,
            _ => false,
        },
{
    chrono::DateTime::from_timestamp(secs, 0).map(|dt| dt.format(fmt).to_string())
}

/// The label of the bucket starting at `start`, or its decimal seconds where
/// chrono cannot represent it.
pub open spec fn bucket_label(start: int, fmt: Seq<char>) -> Seq<char> {
    match utc_formatted(start, fmt) {
        Some(t) => t,
        None => signed_decimal_of(start),
    }
}

pub open spec fn minute_format() -> Seq<char> {
    "%Y-%m-%d %H:%M"@
}

pub open spec fn hour_format() -> Seq<char> {
    "%Y-%m-%d %H:00"@
}

pub open spec fn second_format() -> Seq<char> {
    "%Y-%m-%d %H:%M:%S"@
}

fn bucket_key(secs: i64, width: i64, fmt: &str) -> (r: String)
    requires
        width > 1,
        fmt@ == minute_format() || fmt@ == hour_format(),
    ensures
        r@ == bucket_label(trunc_div(secs as int, width as int) * width, fmt@),
{
    let start = trunc_to_multiple(secs, width);
    match utc_format(start, fmt) {
        Some(s) => s,
        None => signed_decimal_string(start),
    }
}

impl JournalEntry {
    pub open spec fn priority_spec(&self) -> u8 {
        match self.priority {
            Some(p) => match parse_u8_spec(p@) {
                Some(v) => v,
                None => DEFAULT_PRIORITY,
            },
            None => DEFAULT_PRIORITY,
        }
    }

    pub open spec fn service_spec(&self) -> Seq<char> {
        match self.syslog_identifier {
            Some(s) => s@,
            None => match self.systemd_unit {
                Some(u) => u@,
                None => "unknown"@,
            },
        }
    }

    pub open spec fn msg_spec(&self) -> Seq<char> {
        match self.message {
            Some(m) => m@,
            None => Seq::empty(),
        }
    }

    /// Seconds since the epoch: the realtime timestamp (microseconds) divided
    /// by a million, where it parses.
    pub open spec fn timestamp_spec(&self) -> Option<int> {
        match self.realtime_timestamp {
            Some(t) => match parse_i64_spec(t@) {
                Some(us) => Some(trunc_div(us as int, 1_000_000)),
                None => None,
            },
            None => None,
        }
    }

    /// The minute bucket key of the record, where it has a timestamp.
    pub open spec fn minute_spec(&self) -> Option<Seq<char>> {
        match self.timestamp_spec() {
            Some(s) => Some(bucket_label(trunc_div(s, 60) * 60, minute_format())),
            None => None,
        }
    }

    /// The priority as a number; 6 where it is absent or does not parse.
    pub fn priority_num(&self) -> (r: u8)
        ensures
            r == self.priority_spec(),
    {
        match &self.priority {
            Some(p) => match parse_u8(p.as_str()) {
                Some(v) => v,
                None => DEFAULT_PRIORITY,
            },
            None => DEFAULT_PRIORITY,
        }
    }

    /// The name of the priority level.
    pub fn priority_name(&self) -> (r: &'static str)
        ensures
            r@ == priority_name_of(self.priority_spec()),
    {
        let p = self.priority_num();
        if p == 0 {
            "EMERG"
        } else if p == 1 {
            "ALERT"
        } else if p == 2 {
            "CRIT"
        } else if p == 3 {
            "ERR"
        } else if p == 4 {
            "WARNING"
        } else if p == 5 {
            "NOTICE"
        } else if p == 6 {
            "INFO"
        } else if p == 7 {
            "DEBUG"
        } else {
            "UNKNOWN"
        }
    }

    /// The syslog identifier, else the systemd unit, else `unknown`.
    pub fn service(&self) -> (r: String)
        ensures
            r@ == self.service_spec(),
    {
        match &self.syslog_identifier {
            Some(s) => s.clone(),
            None => match &self.systemd_unit {
                Some(u) => u.clone(),
                None => "unknown".to_owned(),
            },
        }
    }

    /// The message text; empty where absent.
    pub fn msg(&self) -> (r: &str)
        ensures
            r@ == self.msg_spec(),
    {
        match &self.message {
            Some(m) => m.as_str(),
            None => {
                proof {
                    reveal_strlit("");
                }
                ""
            },
        }
    }

    /// The timestamp in whole seconds since the epoch.
    pub fn timestamp_secs(&self) -> (r: Option<i64>)
        ensures
            match r {
                Some(v) => self.timestamp_spec() == Some(v as int),
                None => self.timestamp_spec() is None,
            },
    {
        match &self.realtime_timestamp {
            Some(t) => match parse_i64(t.as_str()) {
                Some(us) => {
                    let s = trunc_to_multiple(us, 1_000_000);
                    Some(s / 1_000_000)
                },
                None => None,
            },
            None => None,
        }
    }

    /// The hour bucket key, `YYYY-MM-DD HH:00`.
    pub fn hour_bucket(&self) -> (r: Option<String>)
        ensures
            match r {
                Some(k) => self.timestamp_spec() matches Some(s) && k@ == bucket_label(
                    trunc_div(s, 3600) * 3600,
                    hour_format(),
                ),
                None => self.timestamp_spec() is None,
            },
    {
        match self.timestamp_secs() {
            Some(secs) => Some(bucket_key(secs, 3600, "%Y-%m-%d %H:00")),
            None => None,
        }
    }

    /// The minute bucket key, `YYYY-MM-DD HH:MM`.
    pub fn minute_bucket(&self) -> (r: Option<String>)
        ensures
            match r {
                Some(k) => self.minute_spec() == Some(k@),
                None => self.minute_spec() is None,
            },
    {
        match self.timestamp_secs() {
            Some(secs) => Some(bucket_key(secs, 60, "%Y-%m-%d %H:%M")),
            None => None,
        }
    }
}

} // verus!
