use log_analyzer::analyzer::{count_levels, ingest_line, passes_filter, LevelCount};
use log_analyzer::{Args, LogAnalyzer, LogEntry, Timestamp};

fn settings(pattern: Option<&str>, from: Option<&str>, to: Option<&str>) -> LogAnalyzer {
    LogAnalyzer::new(Args {
        path: "test.log".to_string(),
        pattern: pattern.map(|p| p.to_string()),
        from: from.map(|f| f.to_string()),
        to: to.map(|t| t.to_string()),
        threads: 1,
    })
}

fn lines_of(content: &str) -> Vec<String> {
    content.lines().map(|l| l.to_string()).collect()
}

fn sample() -> Vec<LogEntry> {
    let content = "2025-02-11 10:00:00 INFO Service started\n\
                   2025-02-11 10:01:00 ERROR Disk ERROR on sda\n\
                   2025-02-11 10:02:00 WARN error in lower case\n\
                   2025-02-11 10:03:00 ERROR Timeout\n\
                   2025-02-11 10:04:00 INFO ERRORS were reported";
    settings(None, None, None).analyze_lines(&lines_of(content))
}

fn count_of(counts: &[LevelCount], level: &str) -> Option<usize> {
    counts.iter().find(|c| c.level == level).map(|c| c.count)
}

#[test]
fn test_analyze_file() {
    let log_content = "2025-02-11 10:00:00 INFO Test message\n2025-02-11 10:01:00 ERROR Test error";
    let analyzer = settings(None, None, None);
    let entries = analyzer.analyze_lines(&lines_of(log_content));

    assert_eq!(entries.len(), 2);
    assert_eq!(entries[0].level, "INFO");
    assert_eq!(entries[1].level, "ERROR");
}

#[test]
fn ingestion_keeps_parsed_lines_in_order() {
    let content = "2025-02-11 10:00:00 INFO first\n\
                   invalid log entry format\n\
                   2025-02-11 10:15:30\n\
                   2025-02-11 10:02:00 DEBUG third\n\
                   \n\
                   2025-02-11 10:03:00 ERROR fourth";
    let entries = settings(None, None, None).analyze_lines(&lines_of(content));
    let messages: Vec<&str> = entries.iter().map(|e| e.message.as_str()).collect();
    assert_eq!(messages, vec!["first", "third", "fourth"]);
}

#[test]
fn ingestion_of_nothing_is_empty() {
    assert!(settings(None, None, None).analyze_lines(&Vec::new()).is_empty());
}

#[test]
fn invalid_line_is_absent_from_ingestion() {
    let mut entries = Vec::new();
    ingest_line(&mut entries, "invalid log entry format");
    assert!(entries.is_empty());
    ingest_line(&mut entries, "2025-02-11 10:15:30");
    assert!(entries.is_empty());
    ingest_line(&mut entries, "2025-02-11 10:15:30 INFO kept");
    assert_eq!(entries.len(), 1);
    assert_eq!(entries[0].message, "kept");
}

#[test]
fn no_constraints_keep_every_record() {
    let entries = sample();
    let kept = settings(None, None, None).filter_entries(&entries);
    assert_eq!(kept.len(), entries.len());
    for (a, b) in kept.iter().zip(entries.iter()) {
        assert_eq!(a.message, b.message);
        assert_eq!(a.timestamp, b.timestamp);
    }
}

#[test]
fn pattern_keeps_messages_that_contain_it() {
    let kept = settings(Some("ERROR"), None, None).filter_entries(&sample());
    let messages: Vec<&str> = kept.iter().map(|e| e.message.as_str()).collect();
    assert_eq!(messages, vec!["Disk ERROR on sda", "ERRORS were reported"]);
}

#[test]
fn pattern_is_not_matched_against_level() {
    let kept = settings(Some("Timeout"), None, None).filter_entries(&sample());
    assert_eq!(kept.len(), 1);
    assert_eq!(kept[0].level, "ERROR");
    assert!(settings(Some("FATAL"), None, None).filter_entries(&sample()).is_empty());
}

#[test]
fn equal_bounds_keep_that_instant_only() {
    let at = "2025-02-11 10:02:00";
    let kept = settings(None, Some(at), Some(at)).filter_entries(&sample());
    assert_eq!(kept.len(), 1);
    assert_eq!(kept[0].level, "WARN");
}

#[test]
fn range_includes_both_ends() {
    let kept = settings(None, Some("2025-02-11 10:01:00"), Some("2025-02-11 10:03:00")).filter_entries(&sample());
    let levels: Vec<&str> = kept.iter().map(|e| e.level.as_str()).collect();
    assert_eq!(levels, vec!["ERROR", "WARN", "ERROR"]);
}

#[test]
fn lower_bound_alone() {
    let kept = settings(None, Some("2025-02-11 10:03:00"), None).filter_entries(&sample());
    assert_eq!(kept.len(), 2);
}

#[test]
fn upper_bound_alone() {
    let kept = settings(None, None, Some("2025-02-11 10:00:59")).filter_entries(&sample());
    assert_eq!(kept.len(), 1);
    assert_eq!(kept[0].message, "Service started");
}

#[test]
fn unparseable_from_rejects_every_record() {
    assert!(settings(None, Some("yesterday"), None).filter_entries(&sample()).is_empty());
}

#[test]
fn unparseable_bound_with_valid_one_rejects_every_record() {
    assert!(settings(None, Some("2025-02-11 00:00:00"), Some("soon")).filter_entries(&sample()).is_empty());
    assert!(settings(None, None, Some("soon")).filter_entries(&sample()).is_empty());
}

#[test]
fn pattern_and_range_combine() {
    let kept = settings(Some("ERROR"), Some("2025-02-11 10:02:00"), None).filter_entries(&sample());
    assert_eq!(kept.len(), 1);
    assert_eq!(kept[0].message, "ERRORS were reported");
}

#[test]
fn passes_filter_with_bounds_given() {
    let entry = LogEntry::parse("2025-02-11 10:00:00 INFO hello world").unwrap();
    let t = entry.timestamp;
    let later = Timestamp { secs: t.secs + 1, nanos: 0 };
    assert!(passes_filter(&entry, &None, Some(Some(t)), Some(Some(t))));
    assert!(!passes_filter(&entry, &None, Some(Some(later)), None));
    assert!(passes_filter(&entry, &None, None, Some(Some(later))));
    assert!(!passes_filter(&entry, &None, Some(None), None));
    assert!(passes_filter(&entry, &Some("lo wo".to_string()), None, None));
    assert!(!passes_filter(&entry, &Some("Hello".to_string()), None, None));
    assert!(passes_filter(&entry, &Some(String::new()), None, None));
}

#[test]
fn admits_follows_settings() {
    let entry = LogEntry::parse("2025-02-11 10:00:00 INFO hello").unwrap();
    assert!(settings(None, None, None).admits(&entry));
    assert!(settings(Some("ell"), Some("2025-02-11 10:00:00"), None).admits(&entry));
    assert!(!settings(None, Some("2025-02-11 10:00:01"), None).admits(&entry));
}

#[test]
fn level_counts_of_three_levels() {
    let content = "2025-02-11 10:00:00 INFO a\n2025-02-11 10:00:01 ERROR b\n2025-02-11 10:00:02 INFO c";
    let entries = settings(None, None, None).analyze_lines(&lines_of(content));
    let counts = count_levels(&entries);
    assert_eq!(counts.len(), 2);
    assert_eq!(count_of(&counts, "INFO"), Some(2));
    assert_eq!(count_of(&counts, "ERROR"), Some(1));
}

#[test]
fn level_counts_of_nothing() {
    assert!(count_levels(&Vec::new()).is_empty());
}

#[test]
fn level_counts_are_case_sensitive() {
    let content = "2025-02-11 10:00:00 INFO a\n2025-02-11 10:00:01 info b";
    let counts = count_levels(&settings(None, None, None).analyze_lines(&lines_of(content)));
    assert_eq!(count_of(&counts, "INFO"), Some(1));
    assert_eq!(count_of(&counts, "info"), Some(1));
}

#[test]
fn end_to_end_two_records() {
    let content = "2025-02-11 10:00:00 INFO Test message\n2025-02-11 10:01:00 ERROR Test error\n";
    let analyzer = settings(None, None, None);
    let entries = analyzer.analyze_lines(&lines_of(content));
    assert_eq!(entries.len(), 2);
    assert_eq!(entries[0].level, "INFO");
    assert_eq!(entries[1].level, "ERROR");
    let kept = analyzer.filter_entries(&entries);
    assert_eq!(kept.len(), 2);
    let counts = count_levels(&kept);
    assert_eq!(counts.len(), 2);
    assert_eq!(count_of(&counts, "INFO"), Some(1));
    assert_eq!(count_of(&counts, "ERROR"), Some(1));
}
