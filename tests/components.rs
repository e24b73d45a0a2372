use jlog::channel::{percent_tenths, progress_due, should_stop, BackgroundCommand, BackgroundMessage, ConsumerAction, ConsumerStatus, LogStore};
use jlog::entry::JournalEntry;
use jlog::filter::{CombineMode, FilterCriteria};
use jlog::monitor::{ingest_line, LiveStats};
use jlog::normalize::NormalizeRegex;
use jlog::parse::LineParser;
use jlog::patterns::{classify_trend, severity_order, truncate_msg, PatternType, Severity, TrendShape};
use jlog::record::LogEntry;
use jlog::state::AnalysisState;
use jlog::ui::{priority_label, priority_max, AuthMethod, ConnectionDialog, ConnectionError, ConnectionProfile, FilterBar, LogViewer, SaveFormat, SaveSettings, SaveSettingsDialog};

fn log_entry(n: usize, service: &str) -> LogEntry {
    LogEntry { line_num: n, timestamp: String::new(), priority: 6, service: service.to_string(), message: "m".to_string() }
}

fn dialog() -> ConnectionDialog {
    ConnectionDialog {
        open: true,
        host: " example.org ".to_string(),
        port: "2222".to_string(),
        username: " alice".to_string(),
        auth_choice: 2,
        password: String::new(),
        key_path: String::new(),
        command: "journalctl -f".to_string(),
        error: None,
        profiles: vec![ConnectionProfile {
            name: "prod".to_string(),
            host: "prod.host".to_string(),
            port: 22,
            username: "root".to_string(),
            auth_choice: 1,
            key_path: "/k".to_string(),
            command: "journalctl -o json".to_string(),
        }],
        profile_name: String::new(),
    }
}

#[test]
fn classify_trend_thresholds() {
    // active 2 of 10 buckets, peak 5 against an average of 0.6
    assert_eq!(classify_trend(6, &vec![5, 1], 10), TrendShape { spike: true, burst: true, recurring: false, increasing: false });
    // peak 3 exactly three times the average is no spike
    assert!(!classify_trend(3, &vec![3, 0], 3).spike);
    assert_eq!(classify_trend(5, &vec![1, 1, 1, 1, 1], 10), TrendShape { spike: false, burst: false, recurring: true, increasing: false });
    // 3 of 10 buckets is not under 30%
    assert!(!classify_trend(9, &vec![3, 3, 3], 10).burst);
    // 4 of 10 buckets is not over 40%
    assert!(!classify_trend(8, &vec![2, 2, 2, 2], 10).recurring);
    assert!(classify_trend(12, &vec![1, 1, 4, 6], 4).increasing);
    assert!(!classify_trend(6, &vec![1, 1, 2, 2], 4).increasing);
    assert!(!classify_trend(12, &vec![1, 11, 0], 3).increasing);
}

#[test]
fn truncation_and_labels() {
    assert_eq!(truncate_msg("short", 80), "short");
    assert_eq!(truncate_msg("abcdef", 3), "abc...");
    assert_eq!(truncate_msg("ééé", 2), "é...");
    assert_eq!(truncate_msg("ééé", 3), "é...");
    assert_eq!(truncate_msg("ééé", 6), "ééé");
    assert_eq!(truncate_msg("aé", 2), "a...");
    assert_eq!(truncate_msg("abc", 0), "...");
    assert_eq!(PatternType::HighVolume.label(), "High Volume");
    assert_eq!(PatternType::Spike.label(), "Spike");
    assert!(!PatternType::Burst.icon().is_empty());
    assert_eq!(severity_order(Severity::Critical), 0);
    assert_eq!(severity_order(Severity::Info), 2);
}

#[test]
fn critical_high_volume() {
    let norm = NormalizeRegex::new();
    let mut state = AnalysisState::new();
    for i in 0..6 {
        let e = JournalEntry {
            realtime_timestamp: Some(format!("{}", (1_700_000_040 + i) * 1_000_000)),
            hostname: None,
            priority: Some("2".to_string()),
            syslog_identifier: Some("k".to_string()),
            pid: None,
            systemd_unit: None,
            message: Some("oom killer invoked".to_string()),
            transport: None,
        };
        state.process_entry(&e, &norm);
    }
    let patterns = state.get_patterns();
    assert_eq!(patterns.len(), 1);
    assert!(patterns[0].pattern_type == PatternType::HighVolume);
    assert!(patterns[0].severity == Severity::Critical);
    assert_eq!(patterns[0].description, "100.0% of all errors (6 occurrences)");
}

#[test]
fn ingest_counts_matching_lines() {
    let parser = LineParser::new().unwrap();
    let norm = NormalizeRegex::new();
    let mut filter = FilterCriteria::default();
    filter.max_priority = 4;
    let mut state = AnalysisState::new();
    let mut errors = 0usize;
    assert!(ingest_line(&mut state, &parser, &filter, &norm, "Jan 10 10:00:01 h app: disk error", &mut errors));
    assert!(!ingest_line(&mut state, &parser, &filter, &norm, "Jan 10 10:00:02 h app: all fine", &mut errors));
    assert!(!ingest_line(&mut state, &parser, &filter, &norm, "nonsense", &mut errors));
    assert!(!ingest_line(&mut state, &parser, &filter, &norm, "", &mut errors));
    assert_eq!(state.total_entries(), 1);
    assert_eq!(errors, 1);
}

#[test]
fn live_stats_alerts() {
    let mut stats = LiveStats::new();
    let e = JournalEntry {
        realtime_timestamp: None,
        hostname: None,
        priority: Some("3".to_string()),
        syslog_identifier: Some("sshd".to_string()),
        pid: None,
        systemd_unit: None,
        message: Some("Failed password; OOM; error".to_string()),
        transport: None,
    };
    stats.record(&e);
    assert_eq!(stats.total, 1);
    assert_eq!(stats.by_priority[3], 1);
    assert_eq!(stats.alerts, vec!["SSH auth failure detected", "OOM event detected!", "Error from sshd"]);
}

#[test]
fn consumer_applies_messages() {
    let mut status = ConsumerStatus::new();
    let mut store = LogStore::new();
    status.is_loading = true;
    assert!(status.apply(&mut store, BackgroundMessage::Entry(log_entry(1, "b")), true) == ConsumerAction::Nothing);
    status.apply(&mut store, BackgroundMessage::Entry(log_entry(2, "a")), true);
    status.apply(&mut store, BackgroundMessage::Entry(log_entry(3, "b")), true);
    assert_eq!(store.entries().len(), 3);
    assert_eq!(store.service_names(), vec!["a", "b"]);
    status.apply(&mut store, BackgroundMessage::Progress { lines: 50, percent_tenths: 125 }, true);
    assert_eq!(status.total_lines, 50);
    assert_eq!(status.status_message, "Loading: 50 lines (12.5%) - 3 entries");
    status.apply(&mut store, BackgroundMessage::Progress { lines: 60, percent_tenths: 0 }, true);
    assert_eq!(status.status_message, "Streaming: 60 lines - 3 entries");
    status.apply(&mut store, BackgroundMessage::SshConnected, true);
    assert!(status.is_connected);
    assert!(status.apply(&mut store, BackgroundMessage::SshDisconnected, true) == ConsumerAction::AutoSave);
    assert!(!status.is_connected && !status.is_loading);
    assert_eq!(status.status_message, "Disconnected - 3 entries loaded");
    status.apply(&mut store, BackgroundMessage::Error("boom".to_string()), true);
    assert_eq!(status.status_message, "Error: boom");
    assert!(status.apply(&mut store, BackgroundMessage::SshDisconnected, false) == ConsumerAction::Nothing);
    assert_eq!(status.status_message, "Error: boom");
    status.apply(&mut store, BackgroundMessage::Completed { total_lines: 70, entries: 3 }, true);
    assert_eq!(status.status_message, "Loaded 3 entries from 70 lines");
    status.is_loading = true;
    status.channel_closed(&store);
    assert!(!status.is_loading);
    assert_eq!(status.total_lines, 70);
    let mut empty = LogStore::new();
    assert!(status.apply(&mut empty, BackgroundMessage::SshDisconnected, true) == ConsumerAction::Nothing);
}

#[test]
fn producer_decisions() {
    assert!(should_stop(Some(BackgroundCommand::Cancel)));
    assert!(should_stop(Some(BackgroundCommand::Disconnect)));
    assert!(!should_stop(None));
    assert!(progress_due(50_000, 50_000));
    assert!(!progress_due(49_999, 50_000));
    assert_eq!(percent_tenths(1, 8), 125);
    assert_eq!(percent_tenths(5, 0), 0);
    assert_eq!(percent_tenths(8, 8), 1000);
}

#[test]
fn filter_bar_state() {
    let mut bar = FilterBar::default();
    assert!(!bar.is_active());
    bar.priority_choice = 3;
    assert!(bar.is_active());
    bar.pattern_text = "fail".to_string();
    bar.pattern2_text = "(".to_string();
    bar.selected_services = vec!["sshd".to_string()];
    bar.combine_mode = CombineMode::Or;
    let mut f = FilterCriteria::default();
    bar.apply_to_filter(&mut f);
    assert_eq!(f.max_priority, 4);
    assert_eq!(f.units, vec!["sshd".to_string()]);
    assert!(f.combine_mode == CombineMode::Or);
    assert_eq!(f.pattern.as_ref().unwrap().as_str(), "fail");
    assert!(f.pattern2.is_none());
    assert_eq!(priority_max(0), 7);
    assert_eq!(priority_max(5), 2);
    assert_eq!(priority_max(99), 7);
    assert_eq!(priority_label(4), "WARN");
    assert_eq!(priority_label(8), "???");
}

#[test]
fn log_viewer_counts_unseen() {
    let mut v = LogViewer::default();
    v.notify_new_entries(5);
    assert_eq!(v.new_entry_count(), 0);
    v.auto_scroll = false;
    v.set_at_bottom(false);
    v.notify_new_entries(5);
    v.notify_new_entries(usize::MAX);
    assert_eq!(v.new_entry_count(), usize::MAX);
    v.set_at_bottom(true);
    assert_eq!(v.new_entry_count(), 0);
}

#[test]
fn save_settings_dialog_loads() {
    let settings = SaveSettings {
        destination: "/tmp/logs".to_string(),
        filename_template: "{host}_{date}".to_string(),
        format: SaveFormat::PlainText,
        auto_save: false,
        save_filtered_only: true,
    };
    assert_eq!(settings.extension(), "log");
    let mut d = SaveSettingsDialog::from_settings(&SaveSettings { format: SaveFormat::Json, ..settings.clone() });
    d.load_from(&settings);
    assert_eq!(d.destination, "/tmp/logs");
    assert!(d.format == SaveFormat::PlainText);
    assert!(d.save_filtered_only && !d.auto_save);
    let back = d.to_settings();
    assert_eq!(back.filename_template, "{host}_{date}");
}

#[test]
fn connection_dialog_validates() {
    let d = dialog();
    let c = d.validate().unwrap();
    assert_eq!(c.host, "example.org");
    assert_eq!(c.username, "alice");
    assert_eq!(c.port, 2222);
    assert!(matches!(c.auth, AuthMethod::Agent));
    let mut bad = dialog();
    bad.host = "   ".to_string();
    assert_eq!(bad.validate().unwrap_err(), ConnectionError::MissingHost);
    assert_eq!(ConnectionError::MissingHost.message(), "Host is required");
    let mut bad = dialog();
    bad.username = String::new();
    assert_eq!(bad.validate().unwrap_err(), ConnectionError::MissingUsername);
    let mut bad = dialog();
    bad.port = "70000".to_string();
    assert_eq!(bad.validate().unwrap_err(), ConnectionError::InvalidPort);
    let mut bad = dialog();
    bad.auth_choice = 1;
    assert_eq!(bad.validate().unwrap_err(), ConnectionError::MissingKeyFile);
    let mut pw = dialog();
    pw.auth_choice = 0;
    pw.password = "SECRET-REDACTED".to_string();
    assert!(matches!(pw.validate().unwrap().auth, AuthMethod::Password(ref p) if p == "SECRET-REDACTED"));
    let mut d = dialog();
    d.password = "x".to_string();
    d.apply_profile(0);
    assert_eq!(d.host, "prod.host");
    assert_eq!(d.port, "22");
    assert_eq!(d.password, "");
    assert_eq!(d.profile_name, "prod");
    let c = d.validate().unwrap();
    assert!(matches!(c.auth, AuthMethod::KeyFile(ref k) if k == "/k"));
    d.apply_profile(7);
    assert_eq!(d.host, "prod.host");
}

#[test]
fn store_filters_entries() {
    let mut status = ConsumerStatus::new();
    let mut store = LogStore::new();
    for (i, svc) in ["a", "b", "a", "c"].iter().enumerate() {
        let mut e = log_entry(i + 1, svc);
        e.priority = i as u8 + 2;
        status.apply(&mut store, BackgroundMessage::Entry(e), false);
    }
    let mut f = FilterCriteria::default();
    assert_eq!(store.filtered_indices(&f), vec![0, 1, 2, 3]);
    f.units = vec!["a".to_string()];
    assert_eq!(store.filtered_indices(&f), vec![0, 2]);
    f.units.clear();
    f.max_priority = 3;
    assert_eq!(store.filtered_indices(&f), vec![0, 1]);
    let d = jlog::ui::SshConfig::default();
    assert_eq!(d.port, 22);
    assert!(matches!(d.auth, AuthMethod::Agent));
}

#[test]
fn high_volume_skipped_when_display_shown() {
    let norm = NormalizeRegex::new();
    let mut state = AnalysisState::new();
    // background minutes make a burst of one message
    for m in 0..20i64 {
        let e = JournalEntry {
            realtime_timestamp: Some(format!("{}", (1_700_000_040 + 60 * m) * 1_000_000)),
            hostname: None,
            priority: Some("6".to_string()),
            syslog_identifier: Some("bg".to_string()),
            pid: None,
            systemd_unit: None,
            message: Some("tick".to_string()),
            transport: None,
        };
        state.process_entry(&e, &norm);
    }
    for i in 0..6i64 {
        let e = JournalEntry {
            realtime_timestamp: Some(format!("{}", (1_700_000_040 + i) * 1_000_000)),
            hostname: None,
            priority: Some("3".to_string()),
            syslog_identifier: Some("db".to_string()),
            pid: None,
            systemd_unit: None,
            message: Some("pool exhausted".to_string()),
            transport: None,
        };
        state.process_entry(&e, &norm);
    }
    let patterns = state.get_patterns();
    let same: Vec<_> = patterns.iter().filter(|p| p.message == "pool exhausted").collect();
    assert_eq!(same.len(), 1);
    assert!(same[0].pattern_type == PatternType::Burst);
}

#[test]
fn filter_bar_keeps_previous_pattern() {
    let mut f = FilterCriteria::default();
    assert!(f.set_pattern("disk"));
    let mut bar = FilterBar::default();
    bar.pattern_text = "(".to_string();
    bar.apply_to_filter(&mut f);
    assert_eq!(f.pattern.as_ref().unwrap().as_str(), "disk");
    bar.pattern_text = String::new();
    bar.apply_to_filter(&mut f);
    assert!(f.pattern.is_none());
}

#[test]
fn consumer_keeps_connection_flag() {
    let mut status = ConsumerStatus::new();
    let mut store = LogStore::new();
    status.apply(&mut store, BackgroundMessage::SshConnected, false);
    status.apply(&mut store, BackgroundMessage::Progress { lines: 1, percent_tenths: 0 }, false);
    status.apply(&mut store, BackgroundMessage::Error("x".to_string()), false);
    status.apply(&mut store, BackgroundMessage::Completed { total_lines: 1, entries: 0 }, false);
    assert!(status.is_connected);
}

#[test]
fn json_record_escapes_controls() {
    let e = LogEntry { line_num: 7, timestamp: "t".to_string(), priority: 1, service: "s".to_string(), message: "a\tb\u{1}\"".to_string() };
    assert_eq!(e.to_json_record(), "{\"line\":7,\"timestamp\":\"t\",\"priority\":1,\"service\":\"s\",\"message\":\"a\\tb\\u0001\\\"\"}");
    let parser = LineParser::new().unwrap();
    let back = jlog::record::parse_saved_line(&parser, &e.to_json_record(), 1).unwrap();
    assert_eq!(back.message, e.message);
    assert!(jlog::record::parse_saved_line(&parser, r#"{"priority":300,"message":"m"}"#, 1).is_none());
    let d = jlog::record::parse_saved_line(&parser, r#"{"message":"m"}"#, 2).unwrap();
    assert_eq!((d.priority, d.service.as_str(), d.timestamp.as_str()), (0, "", ""));
}

#[test]
fn high_volume_without_timestamps() {
    let norm = NormalizeRegex::new();
    let mut state = AnalysisState::new();
    let mk = |msg: &str| JournalEntry {
        realtime_timestamp: None,
        hostname: None,
        priority: Some("3".to_string()),
        syslog_identifier: Some("app".to_string()),
        pid: None,
        systemd_unit: None,
        message: Some(msg.to_string()),
        transport: None,
    };
    for _ in 0..6 {
        state.process_entry(&mk("cache miss storm"), &norm);
    }
    let words = ["alpha", "bravo", "charlie", "delta", "echo", "foxtrot", "golf", "hotel", "india", "juliet", "kilo", "lima", "mike", "november"];
    for w in words {
        state.process_entry(&mk(&format!("{} failed", w)), &norm);
    }
    assert!(state.sorted_time_series().is_empty());
    let patterns = state.get_patterns();
    assert_eq!(patterns.len(), 1);
    assert!(patterns[0].pattern_type == PatternType::HighVolume);
    assert_eq!(patterns[0].message, "cache miss storm");
    assert_eq!(patterns[0].count, 6);
    assert!(patterns[0].severity == Severity::Warning);
}

#[test]
fn validation_trims_unicode_space() {
    let mut d = dialog();
    d.host = "\u{3000}box\t".to_string();
    assert_eq!(d.validate().unwrap().host, "box");
    d.host = "\u{2028}\u{a0}".to_string();
    assert_eq!(d.validate().unwrap_err(), ConnectionError::MissingHost);
}
