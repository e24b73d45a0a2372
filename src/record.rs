//! The record handed from producers to the consumer, and the export forms it
//! is saved in and read back from.
use vstd::prelude::*;
use vstd::string::StringExecFns;
use crate::entry::{second_format, JournalEntry, DEFAULT_PRIORITY};
use crate::parse::{group, line_entry_matches, parse_line, LineParser};
use crate::pattern::{opt_view, regex_captures};
use crate::text::{decimal_of, parse_u8, parse_u8_spec, push_decimal, trim, trim_of};

verus! {

/// One entry as the presentation layer keeps it.
#[derive(Debug, Clone)]
pub struct LogEntry {
    pub line_num: usize,
    pub timestamp: String,
    pub priority: u8,
    pub service: String,
    pub message: String,
}

/// Relies on chrono's `DateTime::from_timestamp` and `format` (see
/// `utc_formatted`): the record's time as `YYYY-MM-DD HH:MM:SS` in UTC.
pub open spec fn log_timestamp_of(e: JournalEntry) -> Seq<char> {
    match e.timestamp_spec() {
        Some(s) => match crate::entry::utc_formatted(s, second_format()) {
            Some(t) => t,
            None => Seq::empty(),
        },
        None => Seq::empty(),
    }
}

/// Converts a parsed journal record into a log entry at position `line_num`.
pub fn journal_to_log_entry(line_num: usize, entry: &JournalEntry) -> (r: LogEntry)
    ensures
        r.line_num == line_num,
        r.timestamp@ == log_timestamp_of(*entry),
        r.priority == entry.priority_spec(),
        r.service@ == entry.service_spec(),
        r.message@ == entry.msg_spec(),
{
    let timestamp = match entry.timestamp_secs() {
        Some(secs) => match crate::entry::utc_format(secs, "%Y-%m-%d %H:%M:%S") {
            Some(t) => t,
            None => String::new(),
        },
        None => String::new(),
    };
    LogEntry {
        line_num,
        timestamp,
        priority: entry.priority_num(),
        service: entry.service(),
        message: entry.msg().to_owned(),
    }
}

/// The JSON export record's fields as serde_json reads the line: `timestamp`,
/// `priority` (an unsigned integer), `service`, `message`, each `None` where
/// absent; `None` as a whole where the line is not a JSON object or one of
/// those fields has another type.
pub uninterp spec fn saved_json_fields(line: Seq<char>) -> Option<(Option<Seq<char>>, Option<u64>, Option<Seq<char>>, Option<Seq<char>>)>;

/// Relies on `serde_json::from_str` into a `Value` for the JSON export form.
#[verifier::external_body]
fn read_saved_json(line: &str) -> (r: Option<(Option<String>, Option<u64>, Option<String>, Option<String>)>)
    ensures
        match (r, saved_json_fields(line@)) {
            (None, None) => true,
            (Some(v), Some(s)) => opt_view(v.0) == s.0 && v.1 == s.1 && opt_view(v.2) == s.2
                && opt_view(v.3) == s.3,
            _ => false,
        },
{
    let value: serde_json::Value = serde_json::from_str(line).ok()?;
    let obj = value.as_object()?;
    let text = |k: &str| match obj.get(k) {
        None => Some(None),
        Some(serde_json::Value::String(s)) => Some(Some(s.clone())),
        Some(_) => None,
    };
    let priority = match obj.get("priority") {
        None => None,
        Some(v) => Some(v.as_u64()?),
    };
    Some((text("timestamp")?, priority, text("service")?, text("message")?))
}

/// An absent text field of the export record reads as empty.
pub open spec fn or_empty_text(o: Option<Seq<char>>) -> Seq<char> {
    match o {
        Some(t) => t,
        None => Seq::empty(),
    }
}

fn text_or_empty(o: Option<String>) -> (r: String)
    ensures
        r@ == or_empty_text(opt_view(o)),
{
    match o {
        Some(t) => t,
        None => String::new(),
    }
}

/// The export record is readable: a priority, where present, fits in a `u8`.
pub open spec fn saved_json_ok(f: (Option<Seq<char>>, Option<u64>, Option<Seq<char>>, Option<Seq<char>>)) -> bool {
    match f.1 {
        Some(p) => p <= 255,
        None => true,
    }
}

/// The priority of a readable export record; 0 where absent.
pub open spec fn saved_priority(f: (Option<Seq<char>>, Option<u64>, Option<Seq<char>>, Option<Seq<char>>)) -> u8 {
    match f.1 {
        Some(p) => p as u8,
        None => 0,
    }
}

/// A lowercase hexadecimal digit, for `d < 16`.
pub open spec fn hex_digit(d: nat) -> char {
    if d < 10 {
        ((d + '0' as nat) as u32) as char
    } else {
        ((d - 10 + 'a' as nat) as u32) as char
    }
}

/// How serde_json writes one character inside a string literal: quote and
/// backslash escaped, the short escapes for backspace, form feed, newline,
/// carriage return and tab, `\u00XX` for the other control characters, and
/// every other character as it is.
pub open spec fn json_escape_char(c: char) -> Seq<char> {
    if c == '"' {
        seq!['\\', '"']
    } else if c == '\\' {
        seq!['\\', '\\']
    } else if c == '\u{8}' {
        seq!['\\', 'b']
    } else if c == '\u{c}' {
        seq!['\\', 'f']
    } else if c == '\n' {
        seq!['\\', 'n']
    } else if c == '\r' {
        seq!['\\', 'r']
    } else if c == '\t' {
        seq!['\\', 't']
    } else if (c as u32) < 0x20 {
        seq!['\\', 'u', '0', '0', hex_digit((c as u32 / 16) as nat), hex_digit((c as u32 % 16) as nat)]
    } else {
        seq![c]
    }
}

/// The escaped characters of a string literal.
pub open spec fn json_escape(s: Seq<char>) -> Seq<char>
    decreases s.len(),
{
    if s.len() == 0 {
        Seq::empty()
    } else {
        json_escape(s.drop_last()) + json_escape_char(s.last())
    }
}

/// What `serde_json::to_string` writes for a string: the escaped characters
/// between double quotes.
pub open spec fn json_quoted(s: Seq<char>) -> Seq<char> {
    seq!['"'] + json_escape(s) + seq!['"']
}

/// Relies on `serde_json::to_string` on a `&str`, which cannot fail, and its
/// escape table (`ESCAPE` and `write_char_escape` in serde_json's `ser.rs`).
#[verifier::external_body]
fn json_quote(s: &str) -> (r: String)
    ensures
        r@ == json_quoted(s@),
{
    serde_json::to_string(s).unwrap_or_default()
}

/// The JSON export form of an entry:
/// `{"line":N,"timestamp":"...","priority":P,"service":"...","message":"..."}`.
pub open spec fn json_record_of(e: LogEntry) -> Seq<char> {
    "{\"line\":"@ + decimal_of(e.line_num as nat) + ",\"timestamp\":"@ + json_quoted(e.timestamp@)
        + ",\"priority\":"@ + decimal_of(e.priority as nat) + ",\"service\":"@ + json_quoted(
        e.service@,
    ) + ",\"message\":"@ + json_quoted(e.message@) + "}"@
}

/// The plain-text export form of an entry: `<timestamp> <service>[<priority>]: <message>`.
pub open spec fn plain_record_of(e: LogEntry) -> Seq<char> {
    e.timestamp@ + " "@ + e.service@ + "["@ + decimal_of(e.priority as nat) + "]: "@ + e.message@
}

impl LogEntry {
    /// The JSON export record of this entry.
    pub fn to_json_record(&self) -> (r: String)
        ensures
            r@ == json_record_of(*self),
    {
        let mut s = String::new();
        s.append("{\"line\":");
        push_decimal(&mut s, self.line_num as u64);
        s.append(",\"timestamp\":");
        s.append(json_quote(self.timestamp.as_str()).as_str());
        s.append(",\"priority\":");
        push_decimal(&mut s, self.priority as u64);
        s.append(",\"service\":");
        s.append(json_quote(self.service.as_str()).as_str());
        s.append(",\"message\":");
        s.append(json_quote(self.message.as_str()).as_str());
        s.append("}");
        assert(s@ =~= json_record_of(*self));
        s
    }

    /// The plain-text export record of this entry.
    pub fn to_plain_record(&self) -> (r: String)
        ensures
            r@ == plain_record_of(*self),
    {
        let mut s = String::new();
        s.append(self.timestamp.as_str());
        s.append(" ");
        s.append(self.service.as_str());
        s.append("[");
        push_decimal(&mut s, self.priority as u64);
        s.append("]: ");
        s.append(self.message.as_str());
        assert(s@ =~= plain_record_of(*self));
        s
    }
}

/// What reading a trimmed, non-empty line in an export form yields.
pub open spec fn saved_entry_matches(t: Seq<char>, line_num: usize, r: Option<LogEntry>) -> bool {
    if crate::parse::starts_with_brace(t) && saved_json_fields(t) is Some && saved_json_ok(
        saved_json_fields(t)->0,
    ) {
        let f = saved_json_fields(t)->0;
        r matches Some(e) && e.line_num == line_num && e.timestamp@ == or_empty_text(f.0)
            && e.priority == saved_priority(f) && e.service@ == or_empty_text(f.2) && e.message@
            == or_empty_text(f.3)
    } else {
        match regex_captures(crate::parse::saved_plain_pattern_text(), t) {
            None => r is None,
            Some(c) => if group(c, 1) is None || group(c, 2) is None || group(c, 3) is None
                || group(c, 4) is None {
                r is None
            } else {
                r matches Some(e) && e.line_num == line_num && e.timestamp@ == group(c, 1)->0
                    && e.service@ == group(c, 2)->0 && e.priority == (match parse_u8_spec(
                    group(c, 3)->0,
                ) {
                    Some(v) => v,
                    None => DEFAULT_PRIORITY,
                }) && e.message@ == group(c, 4)->0
            },
        }
    }
}

fn take_group(c: &Vec<Option<String>>, i: usize) -> (r: Option<String>)
    ensures
        opt_view(r) == (if i < c@.len() {
            opt_view(c@[i as int])
        } else {
            None
        }),
{
    if i < c.len() {
        match &c[i] {
            Some(s) => Some(s.clone()),
            None => None,
        }
    } else {
        None
    }
}

/// Reads a line written in one of the export forms, as entry `line_num`.
pub fn parse_saved_line(parser: &LineParser, line: &str, line_num: usize) -> (r: Option<LogEntry>)
    requires
        parser.wf(),
    ensures
        trim_of(line@).len() == 0 ==> r is None,
        trim_of(line@).len() > 0 ==> saved_entry_matches(trim_of(line@), line_num, r),
{
    let t = trim(line);
    if t.is_empty() {
        return None;
    }
    if crate::parse::starts_with_brace_exec(t) {
        match read_saved_json(t) {
            Some(f) => {
                let ok = match f.1 {
                    Some(p) => p <= 255,
                    None => true,
                };
                if ok {
                    let priority: u8 = match f.1 {
                        Some(p) => p as u8,
                        None => 0,
                    };
                    return Some(
                        LogEntry {
                            line_num,
                            timestamp: text_or_empty(f.0),
                            priority,
                            service: text_or_empty(f.2),
                            message: text_or_empty(f.3),
                        },
                    );
                }
            },
            None => {},
        }
    }
    let caps = match parser.saved_plain.captures(t) {
        Some(c) => c,
        None => return None,
    };
    let ghost gc = regex_captures(parser.saved_plain@, t@)->0;
    assert forall|i: int| 0 <= i < 5 implies opt_view(
        if i < caps@.len() {
            caps@[i]
        } else {
            None
        },
    ) == group(gc, i) by {
        if i < caps@.len() {
            assert(opt_view(caps@[i]) == gc[i]);
        }
    }
    let timestamp = match take_group(&caps, 1) {
        Some(s) => s,
        None => return None,
    };
    let service = match take_group(&caps, 2) {
        Some(s) => s,
        None => return None,
    };
    let digits = match take_group(&caps, 3) {
        Some(s) => s,
        None => return None,
    };
    let message = match take_group(&caps, 4) {
        Some(s) => s,
        None => return None,
    };
    let priority = match parse_u8(digits.as_str()) {
        Some(v) => v,
        None => DEFAULT_PRIORITY,
    };
    Some(LogEntry { line_num, timestamp, priority, service, message })
}

/// A record with none of the journal fields: what a JSON object of another
/// shape reads as.
pub open spec fn blank(j: JournalEntry) -> bool {
    j.realtime_timestamp is None && j.hostname is None && j.priority is None
        && j.syslog_identifier is None && j.pid is None && j.systemd_unit is None
        && j.message is None && j.transport is None
}

fn is_blank(j: &JournalEntry) -> (r: bool)
    ensures
        r == blank(*j),
{
    j.realtime_timestamp.is_none() && j.hostname.is_none() && j.priority.is_none()
        && j.syslog_identifier.is_none() && j.pid.is_none() && j.systemd_unit.is_none()
        && j.message.is_none() && j.transport.is_none()
}

/// What the file producer makes of line `line_num`: a journal or syslog
/// record where one with some journal field parses, else an export record.
pub open spec fn read_entry_matches(t: Seq<char>, line_num: usize, r: Option<LogEntry>) -> bool {
    if exists|j: JournalEntry| line_entry_matches(t, Some(j)) && !blank(j) {
        r matches Some(e) && exists|j: JournalEntry|
            line_entry_matches(t, Some(j)) && !blank(j) && e.line_num == line_num && e.priority
                == j.priority_spec() && e.service@ == j.service_spec() && e.message@
                == j.msg_spec() && e.timestamp@ == log_timestamp_of(j)
    } else {
        saved_entry_matches(t, line_num, r)
    }
}

/// Turns one line of a file into an entry, trying the journal forms first and
/// then the export forms; `None` for a blank or unreadable line.
pub fn read_line_entry(parser: &LineParser, line: &str, line_num: usize) -> (r: Option<LogEntry>)
    requires
        parser.wf(),
    ensures
        trim_of(line@).len() == 0 ==> r is None,
        trim_of(line@).len() > 0 ==> read_entry_matches(trim_of(line@), line_num, r),
{
    let mut ignored: usize = 0;
    let parsed = parse_line(parser, line, &mut ignored);
    match parsed {
        Some(j) => {
            if !is_blank(&j) {
                return Some(journal_to_log_entry(line_num, &j));
            }
            proof {
                if trim_of(line@).len() > 0 {
                    assert forall|k: JournalEntry| !(line_entry_matches(trim_of(line@), Some(k)) && !blank(k)) by {
                        if line_entry_matches(trim_of(line@), Some(k)) {
                            lemma_line_entry_blank(trim_of(line@), j, k);
                        }
                    }
                }
            }
        },
        None => {
            proof {
                if trim_of(line@).len() > 0 {
                    assert forall|j: JournalEntry| !line_entry_matches(trim_of(line@), Some(j)) by {
                        lemma_no_entry(trim_of(line@), j);
                    }
                }
            }
        },
    }
    parse_saved_line(parser, line, line_num)
}

/// Two records a line yields are blank together.
proof fn lemma_line_entry_blank(t: Seq<char>, a: JournalEntry, b: JournalEntry)
    requires
        line_entry_matches(t, Some(a)),
        line_entry_matches(t, Some(b)),
    ensures
        blank(a) == blank(b),
{
}

/// A line that yields nothing yields no record.
proof fn lemma_no_entry(t: Seq<char>, b: JournalEntry)
    requires
        line_entry_matches(t, None),
    ensures
        !line_entry_matches(t, Some(b)),
{
}

} // verus!
