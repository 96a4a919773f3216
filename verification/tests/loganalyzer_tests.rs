use rtools::loganalyzer::{
    analyze, analyze_entries, analyze_log_file, parse_log, parse_log_line, parse_simple_format,
    parse_standard_format, try_analyze_entries, LogAnalysis, LogEntry, LogLevel,
};
use rtools::timestamp::{parse_timestamp, Timestamp};
use rtools::RtoolsError;

fn at(secs: i64) -> Timestamp {
    Timestamp::new(secs, 0).unwrap()
}

#[test]
fn level_parse_maps_known_tokens() {
    assert_eq!(LogLevel::parse("debug"), LogLevel::Debug);
    assert_eq!(LogLevel::parse("INFO"), LogLevel::Info);
    assert_eq!(LogLevel::parse("Warning"), LogLevel::Warning);
    assert_eq!(LogLevel::parse("warn"), LogLevel::Warning);
    assert_eq!(LogLevel::parse("ERROR"), LogLevel::Error);
    assert_eq!(LogLevel::parse("err"), LogLevel::Error);
    assert_eq!(LogLevel::parse("critical"), LogLevel::Critical);
    assert_eq!(LogLevel::parse("FATAL"), LogLevel::Critical);
}

#[test]
fn level_parse_keeps_unknown_token_unchanged() {
    assert_eq!(LogLevel::parse("Notice"), LogLevel::Unknown("Notice".to_string()));
    assert_eq!(LogLevel::parse(""), LogLevel::Unknown(String::new()));
    assert_eq!(LogLevel::parse(" info"), LogLevel::Unknown(" info".to_string()));
}

#[test]
fn level_from_lowered_uses_the_lowered_text() {
    assert_eq!(LogLevel::from_lowered("fatal", "FaTaL"), LogLevel::Critical);
    assert_eq!(LogLevel::from_lowered("trace", "TRACE"), LogLevel::Unknown("TRACE".to_string()));
}

#[test]
fn severity_ranks() {
    assert_eq!(LogLevel::Debug.severity(), 0);
    assert_eq!(LogLevel::Info.severity(), 1);
    assert_eq!(LogLevel::Warning.severity(), 2);
    assert_eq!(LogLevel::Error.severity(), 3);
    assert_eq!(LogLevel::Critical.severity(), 4);
    assert_eq!(LogLevel::Unknown("x".to_string()).severity(), 0);
}

#[test]
fn timestamp_patterns_in_order() {
    assert_eq!(parse_timestamp("2024-01-15 10:30:00"), Some(at(1705314600)));
    assert_eq!(
        parse_timestamp("2024-01-15 10:30:00.250"),
        Timestamp::new(1705314600, 250_000_000)
    );
    assert_eq!(parse_timestamp("2024-01-15T10:30:00"), Some(at(1705314600)));
    assert_eq!(parse_timestamp("2024-01-15T10:30:00Z"), Some(at(1705314600)));
    assert_eq!(parse_timestamp("1970-01-01 00:00:00"), Some(at(0)));
}

#[test]
fn timestamp_rejects_what_no_pattern_reads() {
    assert_eq!(parse_timestamp(""), None);
    assert_eq!(parse_timestamp("2024-01-15"), None);
    assert_eq!(parse_timestamp("2024-01-15 10:30"), None);
    assert_eq!(parse_timestamp("2024-13-15 10:30:00"), None);
    assert_eq!(parse_timestamp("2024-01-15 10:30:00 trailing"), None);
    assert_eq!(parse_timestamp("15/01/2024 10:30:00"), None);
}

#[test]
fn timestamp_accessors_and_order() {
    let a = Timestamp::new(10, 5).unwrap();
    let b = Timestamp::new(10, 6).unwrap();
    let c = Timestamp::new(11, 0).unwrap();
    assert_eq!(a.secs(), 10);
    assert_eq!(a.nanos(), 5);
    assert!(a.at_or_before(&a));
    assert!(a.at_or_before(&b));
    assert!(!b.at_or_before(&a));
    assert!(b.at_or_before(&c));
    assert!(!c.at_or_before(&a));
    assert_eq!(Timestamp::new(0, 2_000_000_000), None);
    assert_eq!(Timestamp::new(i64::MAX, 0), None);
}

#[test]
fn hour_key_is_date_and_hour() {
    assert_eq!(at(1705314600).hour_key(), "2024-01-15 10");
    assert_eq!(at(0).hour_key(), "1970-01-01 00");
    assert_eq!(at(-1).hour_key(), "1969-12-31 23");
}

#[test]
fn bracketed_line_is_analyzed() {
    let entries = parse_log("[2024-01-15 10:30:00] [INFO] service started\n");
    assert_eq!(entries.len(), 1);
    assert_eq!(entries[0].level, LogLevel::Info);
    assert_eq!(entries[0].timestamp, Some(at(1705314600)));
    assert_eq!(entries[0].message, "service started");
    assert_eq!(entries[0].source, None);
    assert_eq!(entries[0].line_number, None);

    let analysis = analyze("[2024-01-15 10:30:00] [INFO] service started\n");
    assert_eq!(analysis.total_entries, 1);
    assert_eq!(analysis.level_distribution.get(&LogLevel::Info), 1);
    assert_eq!(analysis.level_distribution.get(&LogLevel::Debug), 0);
    assert_eq!(analysis.level_distribution.get(&LogLevel::Warning), 0);
    assert_eq!(analysis.level_distribution.get(&LogLevel::Error), 0);
    assert_eq!(analysis.level_distribution.get(&LogLevel::Critical), 0);
    assert!(analysis.level_distribution.unknown().is_empty());
    assert_eq!(analysis.time_distribution.pairs(), vec![("2024-01-15 10".to_string(), 1)]);
    assert_eq!(analysis.time_range, Some((at(1705314600), at(1705314600))));
    assert!(analysis.error_patterns.is_empty());
    assert_eq!(analysis.top_messages, vec![("service started".to_string(), 1)]);
}

#[test]
fn line_of_words_with_an_error_pattern() {
    let line = "2024-01-15 10:31:00 ERROR NullPointerException thrown\n";
    let entries = parse_log(line);
    assert_eq!(entries.len(), 1);
    assert_eq!(entries[0].level, LogLevel::Error);
    assert_eq!(entries[0].message, "NullPointerException thrown");
    assert_eq!(entries[0].timestamp, Some(at(1705314660)));

    let analysis = analyze(line);
    assert_eq!(analysis.error_patterns.get("NullPointerException"), 1);
    assert_eq!(analysis.error_patterns.get("thrown"), 0);
    assert_eq!(analysis.error_patterns.len(), 1);
    assert_eq!(analysis.level_distribution.get(&LogLevel::Error), 1);
}

#[test]
fn repeated_lines_of_three_words() {
    let content = "random unparseable garbage\nrandom unparseable garbage\n";
    let entries = parse_log(content);
    assert_eq!(entries.len(), 2);
    for entry in entries.iter() {
        assert_eq!(entry.level, LogLevel::Unknown("garbage".to_string()));
        assert_eq!(entry.timestamp, None);
        assert_eq!(entry.message, "");
    }
    let analysis = analyze(content);
    assert_eq!(analysis.total_entries, 2);
    assert_eq!(analysis.level_distribution.get(&LogLevel::Unknown("garbage".to_string())), 2);
    assert_eq!(analysis.top_messages, vec![(String::new(), 2)]);
    assert!(analysis.time_distribution.is_empty());
    assert_eq!(analysis.time_range, None);
}

#[test]
fn repeated_lines_that_no_format_takes() {
    let content = "unparseable garbage\nunparseable garbage\n";
    let entries = parse_log(content);
    assert_eq!(entries.len(), 2);
    for entry in entries.iter() {
        assert_eq!(entry.level, LogLevel::Unknown("unknown".to_string()));
        assert_eq!(entry.timestamp, None);
    }
    let analysis = analyze(content);
    assert_eq!(analysis.total_entries, 2);
    assert_eq!(analysis.level_distribution.get(&LogLevel::Unknown("unknown".to_string())), 2);
    assert_eq!(analysis.top_messages, vec![("unparseable garbage".to_string(), 2)]);
}

#[test]
fn single_bracket_falls_through() {
    let entry = parse_log_line("[only-one-bracket");
    assert_eq!(entry.level, LogLevel::Unknown("unknown".to_string()));
    assert_eq!(entry.timestamp, None);
    assert_eq!(entry.message, "[only-one-bracket");
    assert!(parse_standard_format("[only-one-bracket").is_none());
    assert!(parse_simple_format("[only-one-bracket").is_none());

    let content = "[2024-01-15 10:30:00] [INFO] service started\n[only-one-bracket\n[one] closed\n";
    let analysis = analyze(content);
    assert_eq!(analysis.total_entries, 3);
    assert_eq!(analysis.level_distribution.get(&LogLevel::Info), 1);
    assert_eq!(analysis.level_distribution.get(&LogLevel::Unknown("unknown".to_string())), 2);
    assert_eq!(analysis.time_range, Some((at(1705314600), at(1705314600))));
}

#[test]
fn empty_input_gives_the_zero_analysis() {
    let analysis = analyze("");
    assert_eq!(analysis.total_entries, 0);
    assert!(analysis.level_distribution.pairs().is_empty());
    assert!(analysis.time_distribution.is_empty());
    assert!(analysis.error_patterns.is_empty());
    assert!(analysis.top_messages.is_empty());
    assert_eq!(analysis.time_range, None);

    let fresh = LogAnalysis::new();
    assert_eq!(fresh.total_entries, 0);
    assert!(fresh.top_messages.is_empty());
    assert_eq!(fresh.time_range, None);
}

#[test]
fn empty_lines_give_no_event() {
    let analysis = analyze("\n\nalpha beta\n\r\n\n");
    assert_eq!(analysis.total_entries, 1);
    assert_eq!(analysis.top_messages, vec![("alpha beta".to_string(), 1)]);
    assert_eq!(parse_log("\n\n\n").len(), 0);
    assert_eq!(parse_log("   \n").len(), 1);
}

#[test]
fn bracketed_parts() {
    let e = parse_standard_format("  [2024-01-15T10:30:00Z][warn]disk ] almost ] full  ").unwrap();
    assert_eq!(e.timestamp, Some(at(1705314600)));
    assert_eq!(e.level, LogLevel::Warning);
    assert_eq!(e.message, "disk ] almost ] full");

    let e = parse_standard_format("[[not a time] [[Custom ] ]").unwrap();
    assert_eq!(e.timestamp, None);
    assert_eq!(e.level, LogLevel::Unknown("Custom".to_string()));
    assert_eq!(e.message, "]");

    let e = parse_standard_format("[a][b]").unwrap();
    assert_eq!(e.level, LogLevel::Unknown("b".to_string()));
    assert_eq!(e.message, "");

    assert!(parse_standard_format("no bracket] at] start").is_none());
    assert!(parse_standard_format("[one] only").is_none());
    assert!(parse_standard_format("").is_none());
}

#[test]
fn structural_match_without_time_does_not_fall_through() {
    let entry = parse_log_line("[yesterday] [ERROR] Disk FULL");
    assert_eq!(entry.timestamp, None);
    assert_eq!(entry.level, LogLevel::Error);
    assert_eq!(entry.message, "Disk FULL");

    let entry = parse_log_line("[one] only when");
    assert_eq!(entry.timestamp, None);
    assert_eq!(entry.level, LogLevel::Unknown("when".to_string()));
    assert_eq!(entry.message, "");
}

#[test]
fn whitespace_format_parts() {
    let e = parse_simple_format("  2024-01-15\t10:31:00   info   a   b\tc  ").unwrap();
    assert_eq!(e.timestamp, Some(at(1705314660)));
    assert_eq!(e.level, LogLevel::Info);
    assert_eq!(e.message, "a b c");
    assert!(parse_simple_format("two words").is_none());
    assert!(parse_simple_format("   ").is_none());
    let e = parse_simple_format("a b c").unwrap();
    assert_eq!(e.timestamp, None);
    assert_eq!(e.level, LogLevel::Unknown("c".to_string()));
    assert_eq!(e.message, "");
}

fn entry(timestamp: Option<Timestamp>, level: LogLevel, message: &str) -> LogEntry {
    LogEntry { timestamp, level, message: message.to_string(), source: None, line_number: None }
}

#[test]
fn aggregates_over_given_entries() {
    let entries = vec![
        entry(Some(at(1705314600)), LogLevel::Info, "started"),
        entry(Some(at(1705311000)), LogLevel::Error, "Timeout in DbPool after 30s"),
        entry(None, LogLevel::Critical, "Timeout in DbPool again AND again"),
        entry(Some(at(1705318200 + 59)), LogLevel::Warning, "started"),
        entry(Some(at(1705314601)), LogLevel::Debug, "IGNORED Tokens here"),
        entry(None, LogLevel::Unknown("x".to_string()), "started"),
        entry(None, LogLevel::Unknown("y".to_string()), "other"),
        entry(None, LogLevel::Unknown("x".to_string()), "other"),
    ];
    let analysis = analyze_entries(&entries);
    assert_eq!(analysis.total_entries, 8);
    assert_eq!(analysis.level_distribution.get(&LogLevel::Info), 1);
    assert_eq!(analysis.level_distribution.get(&LogLevel::Error), 1);
    assert_eq!(analysis.level_distribution.get(&LogLevel::Critical), 1);
    assert_eq!(analysis.level_distribution.get(&LogLevel::Warning), 1);
    assert_eq!(analysis.level_distribution.get(&LogLevel::Debug), 1);
    assert_eq!(analysis.level_distribution.get(&LogLevel::Unknown("x".to_string())), 2);
    assert_eq!(analysis.level_distribution.get(&LogLevel::Unknown("y".to_string())), 1);
    assert_eq!(analysis.level_distribution.get(&LogLevel::Unknown("z".to_string())), 0);
    let by_level: usize = analysis.level_distribution.pairs().iter().map(|p| p.1).sum();
    assert_eq!(by_level, analysis.total_entries);

    assert_eq!(
        analysis.time_distribution.pairs(),
        vec![
            ("2024-01-15 10".to_string(), 2),
            ("2024-01-15 09".to_string(), 1),
            ("2024-01-15 11".to_string(), 1),
        ]
    );
    let by_hour: usize = analysis.time_distribution.pairs().iter().map(|p| p.1).sum();
    assert_eq!(by_hour, 4);
    assert!(by_hour < analysis.total_entries);
    assert_eq!(analysis.time_range, Some((at(1705311000), at(1705318259))));

    assert_eq!(
        analysis.error_patterns.pairs(),
        vec![
            ("Timeout".to_string(), 2),
            ("DbPool".to_string(), 2),
        ]
    );
    assert_eq!(analysis.error_patterns.get("IGNORED"), 0);
    assert_eq!(analysis.error_patterns.get("AND"), 0);
    assert_eq!(analysis.error_patterns.get("again"), 0);

    assert_eq!(
        analysis.top_messages,
        vec![
            ("started".to_string(), 3),
            ("other".to_string(), 2),
            ("Timeout in DbPool after 30s".to_string(), 1),
            ("Timeout in DbPool again AND again".to_string(), 1),
            ("IGNORED Tokens here".to_string(), 1),
        ]
    );
}

#[test]
fn error_patterns_are_case_sensitive_and_need_four_characters() {
    let content = "a b ERROR NULLPTR NullPtr nullptr The Then ABC ABCD\n";
    let analysis = analyze(content);
    assert_eq!(analysis.error_patterns.get("NULLPTR"), 1);
    assert_eq!(analysis.error_patterns.get("NullPtr"), 1);
    assert_eq!(analysis.error_patterns.get("nullptr"), 0);
    assert_eq!(analysis.error_patterns.get("The"), 0);
    assert_eq!(analysis.error_patterns.get("Then"), 1);
    assert_eq!(analysis.error_patterns.get("ABC"), 0);
    assert_eq!(analysis.error_patterns.get("ABCD"), 1);
    assert_eq!(analysis.error_patterns.len(), 4);
}

#[test]
fn every_event_with_a_time_is_in_one_hour_bucket() {
    let content = "2024-01-15 10:00:00 INFO a\n2024-01-15 10:59:59 INFO b\n2024-01-15 11:00:00 INFO c\n";
    let analysis = analyze(content);
    assert_eq!(
        analysis.time_distribution.pairs(),
        vec![("2024-01-15 10".to_string(), 2), ("2024-01-15 11".to_string(), 1)]
    );
    let by_hour: usize = analysis.time_distribution.pairs().iter().map(|p| p.1).sum();
    assert_eq!(by_hour, analysis.total_entries);
    let (first, last) = analysis.time_range.unwrap();
    assert!(first.at_or_before(&last));
    assert_eq!(first, at(1705312800));
    assert_eq!(last, at(1705316400));
}

#[test]
fn analysis_is_the_same_on_the_same_text() {
    let content = "[2024-01-15 10:30:00] [INFO] one\nb b b b\n[2024-01-16 10:30:00] [FATAL] Two BIGGER\nb b b b\n\nzz\n";
    let a = analyze(content);
    let b = analyze(content);
    assert_eq!(a.total_entries, b.total_entries);
    assert_eq!(a.level_distribution.pairs(), b.level_distribution.pairs());
    assert_eq!(a.time_distribution.pairs(), b.time_distribution.pairs());
    assert_eq!(a.error_patterns.pairs(), b.error_patterns.pairs());
    assert_eq!(a.top_messages, b.top_messages);
    assert_eq!(a.time_range, b.time_range);
    assert_eq!(a.top_messages[0], ("b".to_string(), 2));
}

#[test]
fn lines_end_with_line_feed_or_carriage_return_and_line_feed() {
    let entries = parse_log("one two\r\nthree\rfour\nlast\r");
    assert_eq!(entries.len(), 3);
    assert_eq!(entries[0].message, "one two");
    assert_eq!(entries[1].message, "three\rfour");
    assert_eq!(entries[2].message, "last\r");
}

#[test]
fn entries_are_folded_like_the_text_they_come_from() {
    let content = "[2024-01-15 10:30:00] [ERROR] Disk FULL on NodeA\nplain text\n2024-01-15 11:00:00 warn Disk nearly full\n";
    let entries = parse_log(content);
    let a = analyze(content);
    let b = try_analyze_entries(&entries).unwrap();
    assert_eq!(a.total_entries, 3);
    assert_eq!(a.total_entries, b.total_entries);
    assert_eq!(a.level_distribution.pairs(), b.level_distribution.pairs());
    assert_eq!(
        a.level_distribution.pairs(),
        vec![
            (LogLevel::Warning, 1),
            (LogLevel::Error, 1),
            (LogLevel::Unknown("unknown".to_string()), 1),
        ]
    );
    assert_eq!(a.time_distribution.pairs(), b.time_distribution.pairs());
    assert_eq!(a.error_patterns.pairs(), b.error_patterns.pairs());
    assert_eq!(
        a.error_patterns.pairs(),
        vec![("Disk".to_string(), 1), ("FULL".to_string(), 1), ("NodeA".to_string(), 1)]
    );
    assert_eq!(a.top_messages, b.top_messages);
    assert_eq!(a.time_range, b.time_range);
    assert_eq!(a.time_range, Some((at(1705314600), at(1705316400))));
}

#[test]
fn log_file_that_was_read_missing_or_unreadable() {
    let content = "[2024-01-15 10:30:00] [INFO] service started\n".to_string();
    let analysis = analyze_log_file("app.log", Some(Ok(content))).ok().unwrap();
    assert_eq!(analysis.total_entries, 1);
    assert_eq!(analysis.level_distribution.get(&LogLevel::Info), 1);

    let empty = analyze_log_file("empty.log", Some(Ok(String::new()))).ok().unwrap();
    assert_eq!(empty.total_entries, 0);
    assert_eq!(empty.time_range, None);

    let missing = analyze_log_file("gone.log", None).err().unwrap();
    assert!(matches!(missing, RtoolsError::FileNotFound(ref p) if p == "gone.log"));
    assert_eq!(missing.message(), "文件不存在: gone.log");

    let unreadable = std::io::Error::new(std::io::ErrorKind::InvalidData, "not text");
    let failed = analyze_log_file("bad.log", Some(Err(unreadable))).err().unwrap();
    assert!(matches!(failed, RtoolsError::IoError(ref e) if e.kind() == std::io::ErrorKind::InvalidData));
}
