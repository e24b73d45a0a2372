//! Turning raw lines into records: syslog text, journalctl JSON, and the two
//! export forms (JSON lines and plain text) that saved logs are written in.
use vstd::prelude::*;
use crate::entry::{infer_priority, priority_tier, JournalEntry};
use crate::pattern::{opt_view, regex_captures, regex_valid, Pattern, PatternError};
use crate::text::{
    decimal_of, decimal_string, lower_of, parse_i64_spec, signed_decimal_of, signed_decimal_string,
    trim, trim_of,
};

verus! {

/// The syslog line grammar: `Mon D HH:MM:SS[.frac] host service[pid]: message`.
pub open spec fn syslog_pattern_text() -> Seq<char> {
    r"^([A-Za-z]{3}\s+\d{1,2}\s+\d{2}:\d{2}:\d{2})(?:\.\d+)?\s+(\S+)\s+([^\[:]+)(?:\[(\d+)\])?:\s*(.*)$"@
}

/// The plain-text export grammar: `YYYY-MM-DD HH:MM:SS service[priority]: message`.
pub open spec fn saved_plain_pattern_text() -> Seq<char> {
    r"^(\d{4}-\d{2}-\d{2}\s+\d{2}:\d{2}:\d{2})\s+(\S+)\[(\d+)\]:\s*(.*)$"@
}

/// The compiled line grammars.
#[derive(Debug)]
pub struct LineParser {
    pub syslog: Pattern,
    pub saved_plain: Pattern,
}

impl LineParser {
    pub open spec fn wf(&self) -> bool {
        self.syslog@ == syslog_pattern_text() && self.saved_plain@ == saved_plain_pattern_text()
    }

    /// Compiles both grammars.
    pub fn new() -> (r: Result<LineParser, PatternError>)
        ensures
            r.is_ok() == (regex_valid(syslog_pattern_text()) && regex_valid(
                saved_plain_pattern_text(),
            )),
            r matches Ok(p) ==> p.wf(),
    {
        let syslog = Pattern::new(
            r"^([A-Za-z]{3}\s+\d{1,2}\s+\d{2}:\d{2}:\d{2})(?:\.\d+)?\s+(\S+)\s+([^\[:]+)(?:\[(\d+)\])?:\s*(.*)$",
        )?;
        let saved_plain = Pattern::new(
            r"^(\d{4}-\d{2}-\d{2}\s+\d{2}:\d{2}:\d{2})\s+(\S+)\[(\d+)\]:\s*(.*)$",
        )?;
        Ok(LineParser { syslog, saved_plain })
    }
}

/// The optional-string group `i` of a capture list.
pub open spec fn group(c: Seq<Option<Seq<char>>>, i: int) -> Option<Seq<char>> {
    if 0 <= i < c.len() {
        c[i]
    } else {
        None
    }
}

pub open spec fn trim_opt(o: Option<Seq<char>>) -> Option<Seq<char>> {
    match o {
        Some(s) => Some(trim_of(s)),
        None => None,
    }
}

pub open spec fn or_empty(o: Option<Seq<char>>) -> Seq<char> {
    match o {
        Some(s) => s,
        None => Seq::empty(),
    }
}

/// What a syslog line yields, given the captures of the syslog grammar on it:
/// every field of the record but its timestamp, which depends on the clock.
pub open spec fn syslog_entry_matches(
    caps: Option<Seq<Option<Seq<char>>>>,
    r: Option<JournalEntry>,
) -> bool {
    match caps {
        None => r is None,
        Some(c) => if group(c, 1) is None {
            r is None
        } else {
            match r {
                None => false,
                Some(e) => {
                    &&& opt_view(e.hostname) == group(c, 2)
                    &&& opt_view(e.syslog_identifier) == trim_opt(group(c, 3))
                    &&& opt_view(e.pid) == group(c, 4)
                    &&& opt_view(e.message) == group(c, 5)
                    &&& opt_view(e.priority) == Some(
                        decimal_of(priority_tier(lower_of(or_empty(group(c, 5)))) as nat),
                    )
                    &&& e.systemd_unit is None
                    &&& e.transport is None
                    &&& exists|secs: Option<i64>| opt_view(e.realtime_timestamp) == realtime_of(secs)
                    &&& (e.realtime_timestamp matches Some(t) ==> parse_i64_spec(t@) matches Some(us)
                        && us % 1_000_000 == 0)
                },
            }
        },
    }
}

/// The realtime timestamp (microseconds, in decimal) of an instant given in
/// whole seconds, where it fits in an `i64`.
pub open spec fn realtime_of(secs: Option<i64>) -> Option<Seq<char>> {
    match secs {
        Some(s) => if i64::MIN <= s * 1_000_000 <= i64::MAX {
            Some(signed_decimal_of(s * 1_000_000))
        } else {
            None
        },
        None => None,
    }
}

/// The realtime timestamp field for an instant in whole seconds.
pub fn realtime_from_seconds(secs: Option<i64>) -> (r: Option<String>)
    ensures
        opt_view(r) == realtime_of(secs),
        r matches Some(t) ==> parse_i64_spec(t@) matches Some(us) && us % 1_000_000 == 0,
{
    match secs {
        Some(s) => match s.checked_mul(1_000_000) {
            Some(us) => {
                proof {
                    crate::text::lemma_signed_decimal_parses(us);
                }
                Some(signed_decimal_string(us))
            },
            None => None,
        },
        None => None,
    }
}

/// Relies on chrono's `Local::now`: the current year in the local time zone.
#[verifier::external_body]
fn current_local_year() -> (r: i32) {
    chrono::Datelike::year(&chrono::Local::now())
}

/// Relies on chrono's `NaiveDateTime::parse_from_str` with `%Y %b %d %H:%M:%S`,
/// read in the local time zone: seconds since the epoch, where the stamp parses
/// and names one instant.
#[verifier::external_body]
fn local_syslog_seconds(year: i32, stamp: &str) -> (r: Option<i64>) {
    let full = format!("{} {}", year, stamp);
    chrono::NaiveDateTime::parse_from_str(&full, "%Y %b %d %H:%M:%S").ok().and_then(
        |dt| dt.and_local_timezone(chrono::Local).single(),
    ).map(|dt| dt.timestamp())
}

fn clone_opt(o: &Option<String>) -> (r: Option<String>)
    ensures
        opt_view(r) == opt_view(*o),
{
    match o {
        Some(s) => Some(s.clone()),
        None => None,
    }
}

fn get_group(c: &Vec<Option<String>>, i: usize) -> (r: Option<String>)
    ensures
        opt_view(r) == (if i < c@.len() {
            opt_view(c@[i as int])
        } else {
            None
        }),
{
    if i < c.len() {
        clone_opt(&c[i])
    } else {
        None
    }
}

/// Builds a record from a syslog text line with the compiled syslog grammar.
pub fn from_syslog_with(p: &Pattern, line: &str) -> (r: Option<JournalEntry>)
    ensures
        syslog_entry_matches(regex_captures(p@, line@), r),
{
    let caps = match p.captures(line) {
        Some(c) => c,
        None => return None,
    };
    let ghost gc = regex_captures(p@, line@)->0;
    assert forall|i: int| 0 <= i < 6 implies opt_view(
        if i < caps@.len() {
            caps@[i]
        } else {
            None
        },
    ) == group(gc, i) by {
        if i < caps@.len() {
            assert(opt_view(caps@[i]) == gc[i]);
        }
    }
    let stamp = match get_group(&caps, 1) {
        Some(s) => s,
        None => return None,
    };
    let hostname = get_group(&caps, 2);
    let service = match get_group(&caps, 3) {
        Some(s) => Some(trim(s.as_str()).to_owned()),
        None => None,
    };
    let pid = get_group(&caps, 4);
    let message = get_group(&caps, 5);
    let priority = match &message {
        Some(m) => infer_priority(m.as_str()),
        None => {
            let empty = "";
            proof {
                reveal_strlit("");
                assert(empty@ =~= Seq::<char>::empty());
            }
            infer_priority(empty)
        },
    };
    let year = current_local_year();
    let secs = local_syslog_seconds(year, stamp.as_str());
    let realtime = realtime_from_seconds(secs);
    Some(
        JournalEntry {
            realtime_timestamp: realtime,
            hostname,
            priority: Some(decimal_string(priority as u64)),
            syslog_identifier: service,
            pid,
            systemd_unit: None,
            message,
            transport: None,
        },
    )
}

impl JournalEntry {
    /// Parses a syslog text line, `Mon D HH:MM:SS[.frac] host service[pid]: message`.
    /// The year is taken to be the current one in the local time zone; the
    /// priority is inferred from the message. The grammar is compiled for this
    /// one call; streams compile it once in a `LineParser` and use
    /// `from_syslog_with` or `parse_line`.
    pub fn from_syslog_line(line: &str) -> (r: Option<JournalEntry>)
        ensures
            regex_valid(syslog_pattern_text()) ==> syslog_entry_matches(
                regex_captures(syslog_pattern_text(), line@),
                r,
            ),
            !regex_valid(syslog_pattern_text()) ==> r is None,
    {
        match Pattern::new(
            r"^([A-Za-z]{3}\s+\d{1,2}\s+\d{2}:\d{2}:\d{2})(?:\.\d+)?\s+(\S+)\s+([^\[:]+)(?:\[(\d+)\])?:\s*(.*)$",
        ) {
            Ok(p) => from_syslog_with(&p, line),
            Err(_) => None,
        }
    }
}

/// The members of the JSON object that `line` holds, as serde_json reads it,
/// in its map's order: each key, with its value where that is a string
/// (`Some(Some(..))`) or null (`Some(None)`), and `None` for a value of another
/// type. `None` as a whole where the line is not a JSON object.
pub uninterp spec fn json_object_entries(line: Seq<char>) -> Option<Seq<(Seq<char>, Option<Option<Seq<char>>>)>>;

pub open spec fn value_view(v: Option<Option<String>>) -> Option<Option<Seq<char>>> {
    match v {
        Some(Some(t)) => Some(Some(t@)),
        Some(None) => Some(None),
        None => None,
    }
}

pub open spec fn member_view(e: (String, Option<Option<String>>)) -> (Seq<char>, Option<Option<Seq<char>>>) {
    (e.0@, value_view(e.1))
}

/// Relies on `serde_json::from_str` into a `Value` and `Value::as_object`:
/// lists the object's members, telling string, null and other values apart.
#[verifier::external_body]
fn read_json_object(line: &str) -> (r: Option<Vec<(String, Option<Option<String>>)>>)
    ensures
        match (r, json_object_entries(line@)) {
            (None, None) => true,
            (Some(v), Some(s)) => v@.map_values(|e: (String, Option<Option<String>>)| member_view(e)) == s,
            _ => false,
        },
{
    let value: serde_json::Value = serde_json::from_str(line).ok()?;
    let obj = value.as_object()?;
    Some(obj.iter().map(|(k, v)| (k.clone(), match v {
        serde_json::Value::Null => Some(None),
        serde_json::Value::String(t) => Some(Some(t.clone())),
        _ => None,
    })).collect())
}

/// The value of the first member named `k`: `None` where there is none.
pub open spec fn member(es: Seq<(Seq<char>, Option<Option<Seq<char>>>)>, k: Seq<char>) -> Option<Option<Option<Seq<char>>>>
    decreases es.len(),
{
    if es.len() == 0 {
        None
    } else if es[0].0 == k {
        Some(es[0].1)
    } else {
        member(es.drop_first(), k)
    }
}

/// The journal field names, in the order of `JournalEntry`'s fields.
pub open spec fn journal_keys() -> Seq<Seq<char>> {
    seq![
        "__REALTIME_TIMESTAMP"@,
        "_HOSTNAME"@,
        "PRIORITY"@,
        "SYSLOG_IDENTIFIER"@,
        "_PID"@,
        "_SYSTEMD_UNIT"@,
        "MESSAGE"@,
        "_TRANSPORT"@,
    ]
}

/// A journal field is readable: absent, null or a string.
pub open spec fn field_ok(m: Option<Option<Option<Seq<char>>>>) -> bool {
    m != Some(None::<Option<Seq<char>>>)
}

/// The value of a readable journal field.
pub open spec fn field_value(m: Option<Option<Option<Seq<char>>>>) -> Option<Seq<char>> {
    match m {
        Some(Some(x)) => x,
        _ => None,
    }
}

/// The eight journal fields of a journalctl JSON line, in journal order:
/// `None` where the line is not a JSON object or one of those fields is
/// neither a string nor null.
pub open spec fn journal_json_fields(line: Seq<char>) -> Option<Seq<Option<Seq<char>>>> {
    match json_object_entries(line) {
        None => None,
        Some(es) => if forall|i: int| 0 <= i < 8 ==> field_ok(member(es, #[trigger] journal_keys()[i])) {
            Some(Seq::new(8, |i: int| field_value(member(es, journal_keys()[i]))))
        } else {
            None
        },
    }
}

/// The first member named `k`.
fn member_exec(es: &Vec<(String, Option<Option<String>>)>, k: &str) -> (r: Option<Option<Option<String>>>)
    ensures
        match (r, member(es@.map_values(|e: (String, Option<Option<String>>)| member_view(e)), k@)) {
            (None, None) => true,
            (Some(x), Some(y)) => value_view(x) == y,
            _ => false,
        },
{
    let ghost all = es@.map_values(|e: (String, Option<Option<String>>)| member_view(e));
    let key = k.to_owned();
    let mut i: usize = 0;
    assert(all.skip(0) =~= all);
    while i < es.len()
        invariant
            i <= es@.len(),
            key@ == k@,
            all == es@.map_values(|e: (String, Option<Option<String>>)| member_view(e)),
            member(all, k@) == member(all.skip(i as int), k@),
        decreases es.len() - i,
    {
        assert(all.skip(i as int).drop_first() =~= all.skip(i + 1));
        assert(all.skip(i as int)[0] == member_view(es@[i as int]));
        if es[i].0 == key {
            let v = match &es[i].1 {
                Some(Some(t)) => Some(Some(t.clone())),
                Some(None) => Some(None),
                None => None,
            };
            return Some(v);
        }
        i = i + 1;
    }
    None
}

/// The value of journal field `k`; `Err` where it has another type.
fn journal_field(es: &Vec<(String, Option<Option<String>>)>, k: &str) -> (r: Result<Option<String>, ()>)
    ensures
        r.is_ok() == field_ok(member(es@.map_values(|e: (String, Option<Option<String>>)| member_view(e)), k@)),
        r matches Ok(v) ==> opt_view(v) == field_value(member(es@.map_values(|e: (String, Option<Option<String>>)| member_view(e)), k@)),
{
    match member_exec(es, k) {
        None => Ok(None),
        Some(Some(v)) => Ok(v),
        Some(None) => Err(()),
    }
}

/// The record whose fields are the eight slots of `s`, in journal order.
pub open spec fn journal_from_fields(s: Seq<Option<Seq<char>>>, e: JournalEntry) -> bool {
    &&& opt_view(e.realtime_timestamp) == s[0]
    &&& opt_view(e.hostname) == s[1]
    &&& opt_view(e.priority) == s[2]
    &&& opt_view(e.syslog_identifier) == s[3]
    &&& opt_view(e.pid) == s[4]
    &&& opt_view(e.systemd_unit) == s[5]
    &&& opt_view(e.message) == s[6]
    &&& opt_view(e.transport) == s[7]
}

/// What a journalctl JSON line yields.
pub open spec fn json_entry_matches(line: Seq<char>, r: Option<JournalEntry>) -> bool {
    match journal_json_fields(line) {
        None => r is None,
        Some(s) => r matches Some(e) && journal_from_fields(s, e),
    }
}

/// Parses one journalctl JSON record.
pub fn from_json_line(line: &str) -> (r: Option<JournalEntry>)
    ensures
        json_entry_matches(line@, r),
{
    let es = match read_json_object(line) {
        Some(es) => es,
        None => return None,
    };
    let ghost all = es@.map_values(|e: (String, Option<Option<String>>)| member_view(e));
    let r0 = journal_field(&es, "__REALTIME_TIMESTAMP");
    let r1 = journal_field(&es, "_HOSTNAME");
    let r2 = journal_field(&es, "PRIORITY");
    let r3 = journal_field(&es, "SYSLOG_IDENTIFIER");
    let r4 = journal_field(&es, "_PID");
    let r5 = journal_field(&es, "_SYSTEMD_UNIT");
    let r6 = journal_field(&es, "MESSAGE");
    let r7 = journal_field(&es, "_TRANSPORT");
    proof {
        let ks = journal_keys();
        assert(ks[0] == "__REALTIME_TIMESTAMP"@ && ks[1] == "_HOSTNAME"@ && ks[2] == "PRIORITY"@
            && ks[3] == "SYSLOG_IDENTIFIER"@ && ks[4] == "_PID"@ && ks[5] == "_SYSTEMD_UNIT"@
            && ks[6] == "MESSAGE"@ && ks[7] == "_TRANSPORT"@);
    }
    match (r0, r1, r2, r3, r4, r5, r6, r7) {
        (Ok(f0), Ok(f1), Ok(f2), Ok(f3), Ok(f4), Ok(f5), Ok(f6), Ok(f7)) => {
            proof {
                assert forall|i: int| 0 <= i < 8 implies field_ok(member(all, #[trigger] journal_keys()[i])) by {
                }
                let fs = Seq::new(8, |i: int| field_value(member(all, journal_keys()[i])));
                assert(fs[0] == opt_view(f0) && fs[1] == opt_view(f1) && fs[2] == opt_view(f2)
                    && fs[3] == opt_view(f3) && fs[4] == opt_view(f4) && fs[5] == opt_view(f5)
                    && fs[6] == opt_view(f6) && fs[7] == opt_view(f7));
            }
            Some(
                JournalEntry {
                    realtime_timestamp: f0,
                    hostname: f1,
                    priority: f2,
                    syslog_identifier: f3,
                    pid: f4,
                    systemd_unit: f5,
                    message: f6,
                    transport: f7,
                },
            )
        },
        _ => {
            proof {
                let ks = journal_keys();
                if r0.is_err() { assert(!field_ok(member(all, ks[0]))); }
                if r1.is_err() { assert(!field_ok(member(all, ks[1]))); }
                if r2.is_err() { assert(!field_ok(member(all, ks[2]))); }
                if r3.is_err() { assert(!field_ok(member(all, ks[3]))); }
                if r4.is_err() { assert(!field_ok(member(all, ks[4]))); }
                if r5.is_err() { assert(!field_ok(member(all, ks[5]))); }
                if r6.is_err() { assert(!field_ok(member(all, ks[6]))); }
                if r7.is_err() { assert(!field_ok(member(all, ks[7]))); }
            }
            None
        },
    }
}

/// The line begins with `{`.
pub open spec fn starts_with_brace(s: Seq<char>) -> bool {
    s.len() > 0 && s[0] == '{'
}

pub(crate) fn starts_with_brace_exec(s: &str) -> (r: bool)
    ensures
        r == starts_with_brace(s@),
{
    let cs = crate::text::chars_of(s);
    cs.len() > 0 && cs[0] == '{'
}

/// What parsing a trimmed, non-empty line yields: the syslog reading where the
/// grammar matches, else the JSON reading of a line that begins with `{`.
pub open spec fn line_entry_matches(t: Seq<char>, r: Option<JournalEntry>) -> bool {
    match regex_captures(syslog_pattern_text(), t) {
        Some(c) if group(c, 1) is Some => syslog_entry_matches(
            regex_captures(syslog_pattern_text(), t),
            r,
        ),
        _ => if starts_with_brace(t) {
            json_entry_matches(t, r)
        } else {
            r is None
        },
    }
}

/// Parses one input line in either accepted form. A blank line yields nothing
/// and is no error; a line that neither form accepts adds one to `parse_errors`.
pub fn parse_line(parser: &LineParser, line: &str, parse_errors: &mut usize) -> (r: Option<
    JournalEntry,
>)
    requires
        parser.wf(),
        *old(parse_errors) < usize::MAX,
    ensures
        trim_of(line@).len() == 0 ==> r is None && *final(parse_errors) == *old(parse_errors),
        trim_of(line@).len() > 0 ==> line_entry_matches(trim_of(line@), r),
        trim_of(line@).len() > 0 ==> *final(parse_errors) == *old(parse_errors) + (if r is None {
            1int
        } else {
            0
        }),
{
    let t = trim(line);
    if t.is_empty() {
        return None;
    }
    let r = from_syslog_with(&parser.syslog, t);
    if r.is_some() {
        return r;
    }
    if starts_with_brace_exec(t) {
        let j = from_json_line(t);
        if j.is_some() {
            return j;
        }
    }
    *parse_errors = *parse_errors + 1;
    None
}

/// What a remote stream's line yields: the JSON reading of a line that begins
/// with `{` where it parses, else the syslog reading.
pub open spec fn remote_entry_matches(t: Seq<char>, r: Option<JournalEntry>) -> bool {
    if starts_with_brace(t) && journal_json_fields(t) is Some {
        json_entry_matches(t, r)
    } else {
        syslog_entry_matches(regex_captures(syslog_pattern_text(), t), r)
    }
}

/// Parses one line of a remote stream, which is mostly journalctl JSON; a
/// line that neither form accepts adds one to `parse_errors`.
pub fn parse_remote_line(parser: &LineParser, line: &str, parse_errors: &mut usize) -> (r: Option<
    JournalEntry,
>)
    requires
        parser.wf(),
        *old(parse_errors) < usize::MAX,
    ensures
        remote_entry_matches(line@, r),
        *final(parse_errors) == *old(parse_errors) + (if r is None {
            1int
        } else {
            0
        }),
{
    if starts_with_brace_exec(line) {
        let j = from_json_line(line);
        if j.is_some() {
            return j;
        }
    }
    let r = from_syslog_with(&parser.syslog, line);
    if r.is_none() {
        *parse_errors = *parse_errors + 1;
    }
    r
}

/// Two records that a line yields agree on every field the filter and the
/// aggregator read.
pub proof fn lemma_line_entry_fields(t: Seq<char>, a: JournalEntry, b: JournalEntry)
    requires
        line_entry_matches(t, Some(a)),
        line_entry_matches(t, Some(b)),
    ensures
        a.priority_spec() == b.priority_spec(),
        a.service_spec() == b.service_spec(),
        a.msg_spec() == b.msg_spec(),
{
    reveal_strlit("unknown");
    if opt_view(a.priority) == opt_view(b.priority) {
        assert(a.priority_spec() == b.priority_spec());
    }
}

} // verus!
