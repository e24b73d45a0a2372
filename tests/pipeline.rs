use jlog::entry::{infer_priority, JournalEntry};
use jlog::filter::{combine_matches, CombineMode, FilterCriteria};
use jlog::normalize::NormalizeRegex;
use jlog::parse::{parse_line, LineParser};
use jlog::patterns::{PatternType, Severity};
use jlog::state::AnalysisState;

fn entry(ts_secs: Option<i64>, priority: u8, service: &str, message: &str) -> JournalEntry {
    JournalEntry {
        realtime_timestamp: ts_secs.map(|s| (s * 1_000_000).to_string()),
        hostname: None,
        priority: Some(priority.to_string()),
        syslog_identifier: Some(service.to_string()),
        pid: None,
        systemd_unit: None,
        message: Some(message.to_string()),
        transport: None,
    }
}

const BASE: i64 = 1_700_000_040; // 2023-11-14 22:14:00 UTC

#[test]
fn process_entry_counts_priority_and_total() {
    let norm = NormalizeRegex::new();
    let mut state = AnalysisState::new();
    for p in 0u8..8 {
        let before = state.entries_by_priority();
        let total = state.total_entries();
        state.process_entry(&entry(Some(BASE), p, "svc", "something happened"), &norm);
        let after = state.entries_by_priority();
        assert_eq!(state.total_entries(), total + 1);
        for i in 0..8 {
            if i == p as usize {
                assert_eq!(after[i], before[i] + 1);
            } else {
                assert_eq!(after[i], before[i]);
            }
        }
    }
}

#[test]
fn out_of_range_priority_counts_total_only() {
    let norm = NormalizeRegex::new();
    let mut state = AnalysisState::new();
    let mut e = entry(None, 0, "svc", "x");
    e.priority = Some("9".to_string());
    state.process_entry(&e, &norm);
    assert_eq!(state.total_entries(), 1);
    assert_eq!(state.entries_by_priority(), [0; 8]);
}

#[test]
fn services_and_messages_are_ranked() {
    let norm = NormalizeRegex::new();
    let mut state = AnalysisState::new();
    for _ in 0..3 {
        state.process_entry(&entry(Some(BASE), 3, "b", "disk failed"), &norm);
    }
    state.process_entry(&entry(Some(BASE), 3, "a", "link down"), &norm);
    state.process_entry(&entry(Some(BASE), 6, "c", "all good"), &norm);
    let services = state.top_services(10);
    assert_eq!(services[0], ("b".to_string(), 3));
    assert_eq!(services[1], ("a".to_string(), 1));
    assert_eq!(services[2], ("c".to_string(), 1));
    assert_eq!(state.top_services(1).len(), 1);
    let errors = state.top_errors(10);
    assert_eq!(errors, vec![("disk failed".to_string(), 3), ("link down".to_string(), 1)]);
    assert_eq!(state.top_errors(0).len(), 0);
}

#[test]
fn time_series_is_chronological() {
    let norm = NormalizeRegex::new();
    let mut state = AnalysisState::new();
    state.process_entry(&entry(Some(BASE + 120), 3, "s", "e"), &norm);
    state.process_entry(&entry(Some(BASE), 4, "s", "w"), &norm);
    state.process_entry(&entry(Some(BASE + 60), 6, "s", "i"), &norm);
    state.process_entry(&entry(None, 3, "s", "no time"), &norm);
    let series = state.sorted_time_series();
    let keys: Vec<&str> = series.iter().map(|(k, _)| k.as_str()).collect();
    assert_eq!(keys, vec!["2023-11-14 22:14", "2023-11-14 22:15", "2023-11-14 22:16"]);
    assert_eq!((series[0].1.total, series[0].1.errors, series[0].1.warnings), (1, 0, 1));
    assert_eq!((series[2].1.total, series[2].1.errors, series[2].1.warnings), (1, 1, 0));
    assert_eq!(state.all_time_buckets(), vec!["2023-11-14 22:14", "2023-11-14 22:15", "2023-11-14 22:16"]);
    assert_eq!(state.total_entries(), 4);
}

#[test]
fn message_trends_follow_buckets() {
    let norm = NormalizeRegex::new();
    let mut state = AnalysisState::new();
    state.process_entry(&entry(Some(BASE + 60), 3, "s", "boom"), &norm);
    state.process_entry(&entry(Some(BASE), 3, "s", "boom"), &norm);
    state.process_entry(&entry(Some(BASE), 3, "s", "boom"), &norm);
    let trends = state.top_message_trends(5);
    assert_eq!(trends.len(), 1);
    assert_eq!(trends[0].0, "boom");
    assert_eq!(
        trends[0].1,
        vec![("2023-11-14 22:14".to_string(), 2), ("2023-11-14 22:15".to_string(), 1)]
    );
}

#[test]
fn spike_detected_once() {
    let norm = NormalizeRegex::new();
    let mut state = AnalysisState::new();
    // ten minutes of background traffic
    for m in 0..10 {
        state.process_entry(&entry(Some(BASE + 60 * m), 6, "bg", "tick"), &norm);
    }
    for s in 0..5 {
        state.process_entry(&entry(Some(BASE + 120 + s), 3, "app", "X crashed"), &norm);
    }
    state.process_entry(&entry(Some(BASE + 420), 3, "app", "X crashed"), &norm);
    let patterns = state.get_patterns();
    let spikes: Vec<_> = patterns
        .iter()
        .filter(|p| p.pattern_type == PatternType::Spike && p.message == "X crashed")
        .collect();
    assert_eq!(spikes.len(), 1);
    assert_eq!(spikes[0].count, 6);
    assert!(spikes[0].severity == Severity::Warning);
}

#[test]
fn high_volume_not_duplicated() {
    let norm = NormalizeRegex::new();
    let mut state = AnalysisState::new();
    for i in 0..6 {
        state.process_entry(&entry(Some(BASE + i), 3, "db", "replica lag too high"), &norm);
    }
    let words = ["alpha", "bravo", "charlie", "delta", "echo", "foxtrot", "golf", "hotel", "india", "juliet", "kilo", "lima", "mike", "november"];
    for (i, w) in words.iter().enumerate() {
        state.process_entry(&entry(Some(BASE + i as i64), 3, "db", &format!("{} failed", w)), &norm);
    }
    let patterns = state.get_patterns();
    let hits: Vec<_> = patterns.iter().filter(|p| p.message == "replica lag too high").collect();
    assert_eq!(hits.len(), 1);
    assert!(hits[0].pattern_type == PatternType::HighVolume);
    assert_eq!(hits[0].count, 6);
    assert!(hits[0].severity == Severity::Warning);
}

#[test]
fn end_to_end_syslog_scenario() {
    let parser = LineParser::new().unwrap();
    let norm = NormalizeRegex::new();
    let filter = FilterCriteria::default();
    let mut state = AnalysisState::new();
    let mut errors = 0usize;
    for i in 0..12 {
        let minute = if i < 6 { "00" } else { "01" };
        let line = format!(
            "Jan 10 10:{}:{:02} host sshd[100]: Failed password for root from 10.0.0.5 port 22",
            minute,
            i % 6 + 1
        );
        let e = parse_line(&parser, &line, &mut errors).unwrap();
        assert_eq!(e.priority_num(), 3);
        assert!(filter.matches(&e));
        state.process_entry(&e, &norm);
    }
    assert_eq!(errors, 0);
    assert_eq!(state.entries_by_priority()[3], 12);
    let top = state.top_errors(10);
    assert_eq!(top.len(), 1);
    assert_eq!(top[0].1, 12);
    let series = state.sorted_time_series();
    assert_eq!(series.len(), 2);
    assert!(series.iter().all(|(_, b)| b.errors == 6 && b.total == 6));
    let patterns = state.get_patterns();
    assert!(patterns.iter().all(|p| p.pattern_type != PatternType::Spike));
    assert!(patterns.iter().any(|p| p.pattern_type == PatternType::HighVolume && p.count == 12));
}

#[test]
fn patterns_sorted_and_bounded() {
    let norm = NormalizeRegex::new();
    let mut state = AnalysisState::new();
    assert!(state.get_patterns().is_empty());
    for m in 0..20i64 {
        for k in 0..(m % 4 + 1) {
            state.process_entry(&entry(Some(BASE + 60 * m + k), 3, "s", &format!("msg{}", m % 13)), &norm);
        }
    }
    let patterns = state.get_patterns();
    assert!(patterns.len() <= 10);
    for w in patterns.windows(2) {
        let rank = |s: Severity| match s {
            Severity::Critical => 0,
            Severity::Warning => 1,
            Severity::Info => 2,
        };
        assert!(rank(w[0].severity) < rank(w[1].severity) || (rank(w[0].severity) == rank(w[1].severity) && w[0].count >= w[1].count));
    }
}

#[test]
fn increasing_rate_detected() {
    let norm = NormalizeRegex::new();
    let mut state = AnalysisState::new();
    let per_minute = [1, 1, 4, 6];
    for (m, n) in per_minute.iter().enumerate() {
        for k in 0..*n {
            state.process_entry(&entry(Some(BASE + 60 * m as i64 + k), 4, "s", "queue growing"), &norm);
        }
    }
    let patterns = state.get_patterns();
    let inc = patterns.iter().find(|p| p.pattern_type == PatternType::Increasing).unwrap();
    assert_eq!(inc.message, "queue growing");
    assert_eq!(inc.description, "Rate increased from 2 to 10 (5x)");
}

#[test]
fn filter_default_admits_everything() {
    let f = FilterCriteria::default();
    for p in 0u8..8 {
        assert!(f.admits(p, "any", "whatever text"));
        assert!(f.admits(p, "", ""));
    }
}

#[test]
fn filter_and_mode_needs_both() {
    let mut f = FilterCriteria::default();
    assert!(f.set_pattern("disk"));
    assert!(f.set_pattern2("full"));
    f.combine_mode = CombineMode::And;
    assert!(f.admits(3, "s", "disk full"));
    assert!(!f.admits(3, "s", "disk disk disk disk ok"));
    assert!(!f.admits(3, "s", "memory full"));
}

#[test]
fn filter_modes_and_services() {
    assert!(combine_matches(CombineMode::Match, None, None));
    assert!(!combine_matches(CombineMode::Match, Some(false), Some(true)));
    assert!(combine_matches(CombineMode::Or, None, None));
    assert!(combine_matches(CombineMode::Or, Some(false), Some(true)));
    assert!(!combine_matches(CombineMode::Or, Some(false), None));
    assert!(combine_matches(CombineMode::Not, Some(false), None));
    assert!(!combine_matches(CombineMode::Not, Some(true), None));
    assert!(combine_matches(CombineMode::Not, None, None));
    assert!(combine_matches(CombineMode::And, Some(true), None));
    let mut f = FilterCriteria::default();
    f.units = vec!["sshd".to_string()];
    assert!(f.admits(6, "sshd", "m"));
    assert!(!f.admits(6, "sshd2", "m"));
    assert!(!f.admits(6, "SSHD", "m"));
    f.max_priority = 3;
    assert!(!f.admits(4, "sshd", "m"));
}

#[test]
fn invalid_pattern_keeps_previous() {
    let mut f = FilterCriteria::default();
    assert!(f.set_pattern("ab+c"));
    assert!(!f.set_pattern("(unclosed"));
    assert_eq!(f.pattern.as_ref().unwrap().as_str(), "ab+c");
    assert!(f.admits(6, "s", "xxabbbc"));
    assert!(f.set_pattern(""));
    assert!(f.pattern.is_none());
    assert!(FilterCriteria::new(None, 7, Some("[".to_string())).is_err());
    let g = FilterCriteria::new(Some("cron".to_string()), 4, Some("job".to_string())).unwrap();
    assert!(g.admits(4, "cron", "job done"));
    assert!(!g.admits(4, "crond", "job done"));
}

#[test]
fn infer_priority_ladder() {
    assert_eq!(infer_priority("Kernel PANIC now"), 2);
    assert_eq!(infer_priority("error and warning"), 3);
    assert_eq!(infer_priority("Unable to open"), 3);
    assert_eq!(infer_priority("connection timed out"), 4);
    assert_eq!(infer_priority("Started nginx"), 5);
    assert_eq!(infer_priority("hello"), 6);
    assert_eq!(infer_priority(""), 6);
}
