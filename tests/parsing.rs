use jlog::entry::JournalEntry;
use jlog::normalize::NormalizeRegex;
use jlog::parse::{from_json_line, parse_line, LineParser};
use jlog::record::{journal_to_log_entry, parse_saved_line, read_line_entry, LogEntry};
use jlog::text::{decimal_string, parse_i64, parse_u16, parse_u8, signed_decimal_string};

fn empty_entry() -> JournalEntry {
    JournalEntry {
        realtime_timestamp: None,
        hostname: None,
        priority: None,
        syslog_identifier: None,
        pid: None,
        systemd_unit: None,
        message: None,
        transport: None,
    }
}

#[test]
fn syslog_line_parses() {
    let parser = LineParser::new().unwrap();
    let mut errors = 0usize;
    let e = parse_line(&parser, "Jan 10 16:42:10.123456 myhost sshd[1234]: Accepted key for bob", &mut errors).unwrap();
    assert_eq!(e.hostname.as_deref(), Some("myhost"));
    assert_eq!(e.syslog_identifier.as_deref(), Some("sshd"));
    assert_eq!(e.pid.as_deref(), Some("1234"));
    assert_eq!(e.message.as_deref(), Some("Accepted key for bob"));
    assert_eq!(e.priority.as_deref(), Some("6"));
    assert!(e.timestamp_secs().is_some());
    assert_eq!(errors, 0);
    let direct = JournalEntry::from_syslog_line("Feb  3 01:02:03 h cron: job failed").unwrap();
    assert_eq!(direct.service(), "cron");
    assert_eq!(direct.priority_num(), 3);
}

#[test]
fn json_line_parses() {
    let parser = LineParser::new().unwrap();
    let mut errors = 0usize;
    let line = r#"{"__REALTIME_TIMESTAMP":"1700000040123456","PRIORITY":"4","_SYSTEMD_UNIT":"nginx.service","MESSAGE":"slow upstream","_PID":"7"}"#;
    let e = parse_line(&parser, line, &mut errors).unwrap();
    assert_eq!(e.priority_num(), 4);
    assert_eq!(e.service(), "nginx.service");
    assert_eq!(e.msg(), "slow upstream");
    assert_eq!(e.timestamp_secs(), Some(1_700_000_040));
    assert_eq!(e.minute_bucket().as_deref(), Some("2023-11-14 22:14"));
    assert_eq!(e.hour_bucket().as_deref(), Some("2023-11-14 22:00"));
    assert!(from_json_line(r#"{"PRIORITY":3}"#).is_none());
    assert!(from_json_line("[1,2]").is_none());
}

#[test]
fn unparsable_lines_count_errors() {
    let parser = LineParser::new().unwrap();
    let mut errors = 0usize;
    assert!(parse_line(&parser, "   ", &mut errors).is_none());
    assert_eq!(errors, 0);
    assert!(parse_line(&parser, "garbage line", &mut errors).is_none());
    assert!(parse_line(&parser, "{not json", &mut errors).is_none());
    assert_eq!(errors, 2);
}

#[test]
fn entry_defaults() {
    let e = empty_entry();
    assert_eq!(e.priority_num(), 6);
    assert_eq!(e.service(), "unknown");
    assert_eq!(e.msg(), "");
    assert_eq!(e.timestamp_secs(), None);
    assert_eq!(e.minute_bucket(), None);
    assert_eq!(e.priority_name(), "INFO");
    let mut f = empty_entry();
    f.systemd_unit = Some("unit.service".to_string());
    assert_eq!(f.service(), "unit.service");
    f.syslog_identifier = Some("ident".to_string());
    assert_eq!(f.service(), "ident");
    f.priority = Some("x".to_string());
    assert_eq!(f.priority_num(), 6);
    f.priority = Some("2".to_string());
    assert_eq!(f.priority_name(), "CRIT");
    f.realtime_timestamp = Some("-1500000".to_string());
    assert_eq!(f.timestamp_secs(), Some(-1));
    assert_eq!(f.minute_bucket().as_deref(), Some("1970-01-01 00:00"));
}

#[test]
fn numbers_parse_and_print() {
    assert_eq!(parse_u8("255"), Some(255));
    assert_eq!(parse_u8("256"), None);
    assert_eq!(parse_u8("+7"), Some(7));
    assert_eq!(parse_u8("-0"), None);
    assert_eq!(parse_u8(""), None);
    assert_eq!(parse_u16("65535"), Some(65535));
    assert_eq!(parse_u16("65536"), None);
    assert_eq!(parse_i64("-9223372036854775808"), Some(i64::MIN));
    assert_eq!(parse_i64("9223372036854775807"), Some(i64::MAX));
    assert_eq!(parse_i64("9223372036854775808"), None);
    assert_eq!(parse_i64("12a"), None);
    assert_eq!(decimal_string(0), "0");
    assert_eq!(decimal_string(1234567), "1234567");
    assert_eq!(signed_decimal_string(-42), "-42");
    assert_eq!(signed_decimal_string(i64::MIN), "-9223372036854775808");
}

#[test]
fn normalize_groups_ip_variants() {
    let norm = NormalizeRegex::new();
    let a = norm.normalize("conn from 10.0.0.1 refused");
    let b = norm.normalize("conn from 192.168.1.5 refused");
    assert_eq!(a, b);
    assert_eq!(a, "conn from <IP> refused");
}

#[test]
fn normalize_placeholders() {
    let norm = NormalizeRegex::new();
    assert_eq!(
        norm.normalize("session 550e8400-e29b-41d4-a716-446655440000 from 10.1.2.3 port 4022"),
        "session <UUID> from <IP> port <PORT>"
    );
    assert_eq!(norm.normalize("  opened   /var/log/syslog   "), "opened <PATH>");
    assert_eq!(norm.normalize("worker[4242] exited"), "worker[<PID>] exited");
    assert_eq!(norm.normalize("took 250ms"), "took <DUR>");
    assert_eq!(norm.normalize(""), "");
}

#[test]
fn normalize_is_idempotent_on_examples() {
    let norm = NormalizeRegex::new();
    let samples = [
        "conn from 10.0.0.1 refused",
        "Failed password for root from 10.0.0.5 port 22 ssh2",
        "disk /dev/sda1 at 91% (3/5) after 12.5s id 0xdeadbeef",
        "mail to a.b@example.com via https://x.y/z at 2024-01-15T14:30:00.123Z",
        "build 1.2.3 pid=77 request_id=abc 123456 items",
    ];
    for s in samples {
        let once = norm.normalize(s);
        assert_eq!(norm.normalize(&once), once);
    }
}

#[test]
fn saved_records_round_trip() {
    let parser = LineParser::new().unwrap();
    let entries = vec![
        LogEntry { line_num: 1, timestamp: "2026-02-11 10:30:45".to_string(), priority: 3, service: "sshd".to_string(), message: "bad \"quote\" \\ here".to_string() },
        LogEntry { line_num: 2, timestamp: "".to_string(), priority: 6, service: "cron".to_string(), message: "".to_string() },
        LogEntry { line_num: 3, timestamp: "2026-02-11 10:31:00".to_string(), priority: 0, service: "kernel".to_string(), message: "ünïcode ✓".to_string() },
    ];
    for (i, e) in entries.iter().enumerate() {
        let json = e.to_json_record();
        let back = parse_saved_line(&parser, &json, i + 1).unwrap();
        assert_eq!(back.priority, e.priority);
        assert_eq!(back.service, e.service);
        assert_eq!(back.message, e.message);
        assert_eq!(back.timestamp, e.timestamp);
        assert_eq!(back.line_num, i + 1);
        let via_reader = read_line_entry(&parser, &json, 9).unwrap();
        assert_eq!(via_reader.message, e.message);
    }
    let plain = entries[0].to_plain_record();
    assert_eq!(plain, "2026-02-11 10:30:45 sshd[3]: bad \"quote\" \\ here");
    let back = parse_saved_line(&parser, &plain, 4).unwrap();
    assert_eq!((back.priority, back.service.as_str(), back.message.as_str()), (3, "sshd", "bad \"quote\" \\ here"));
    assert_eq!(entries[0].to_json_record(), r#"{"line":1,"timestamp":"2026-02-11 10:30:45","priority":3,"service":"sshd","message":"bad \"quote\" \\ here"}"#);
}

#[test]
fn journal_converts_to_log_entry() {
    let mut e = empty_entry();
    e.realtime_timestamp = Some("1700000040000000".to_string());
    e.priority = Some("4".to_string());
    e.message = Some("m".to_string());
    let l = journal_to_log_entry(5, &e);
    assert_eq!(l.line_num, 5);
    assert_eq!(l.timestamp, "2023-11-14 22:14:00");
    assert_eq!(l.priority, 4);
    assert_eq!(l.service, "unknown");
    let l2 = journal_to_log_entry(1, &empty_entry());
    assert_eq!(l2.timestamp, "");
}

#[test]
fn remote_lines_prefer_json() {
    let parser = LineParser::new().unwrap();
    let mut errors = 0usize;
    let e = jlog::parse::parse_remote_line(&parser, r#"{"MESSAGE":"hi","SYSLOG_IDENTIFIER":"app","PRIORITY":"5"}"#, &mut errors).unwrap();
    assert_eq!(e.service(), "app");
    assert_eq!(e.priority_num(), 5);
    let s = jlog::parse::parse_remote_line(&parser, "Mar  1 00:00:00 h kernel: Out of memory: Killed process", &mut errors).unwrap();
    assert_eq!(s.service(), "kernel");
    assert!(jlog::parse::parse_remote_line(&parser, "{broken", &mut errors).is_none());
    assert_eq!(errors, 1);
    let us: i64 = s.realtime_timestamp.as_deref().unwrap().parse().unwrap();
    assert_eq!(us % 1_000_000, 0);
}
