use rtools::{analyze_text_file, RtoolsError, TextStats};

#[test]
fn test_text_stats_analyze_text() {
    let mut stats = TextStats::new();
    let test_text = "Hello world! This is a test.";

    stats.analyze_text(test_text);

    assert_eq!(stats.word_count, 6);
    assert_eq!(stats.line_count, 1);
    assert!(stats.char_count > 0);
    assert!(stats.byte_count > 0);
    let avg_word_length = stats.word_bytes as f64 / stats.word_count as f64;
    assert!(avg_word_length > 0.0);

    assert_eq!(stats.word_frequency.get("hello"), 1);
    assert_eq!(stats.word_frequency.get("world"), 1);
}

#[test]
fn test_text_stats_empty_text() {
    let mut stats = TextStats::new();
    stats.analyze_text("");

    assert_eq!(stats.word_count, 0);
    assert_eq!(stats.line_count, 0);
    assert_eq!(stats.char_count, 0);
    assert_eq!(stats.byte_count, 0);
    assert_eq!(stats.word_bytes, 0);
    assert!(stats.word_frequency.is_empty());
}

#[test]
fn test_analyze_text_file() {
    let test_content = "Hello world! This is a test file.\nIt has multiple lines.\n";
    let test_file = "test_text.txt";

    let result = analyze_text_file(test_file, Some(Ok(test_content.to_string())));
    assert!(result.is_ok());

    let stats = result.ok().unwrap();
    assert_eq!(stats.line_count, 2);
    assert_eq!(stats.word_count, 11);
    assert!(stats.char_count > 0);
    assert!(stats.byte_count > 0);
    assert!(stats.word_frequency.contains_key("hello"));
    assert!(stats.word_frequency.contains_key("world"));
    assert_eq!(stats.char_count, 57);
    assert_eq!(stats.byte_count, 57);
    // hello world this is a test file it has multiple lines
    assert_eq!(stats.word_bytes, 5 + 5 + 4 + 2 + 1 + 4 + 4 + 2 + 3 + 8 + 5);
    assert_eq!(
        stats.word_frequency.pairs(),
        vec![
            ("hello".to_string(), 1),
            ("world".to_string(), 1),
            ("this".to_string(), 1),
            ("is".to_string(), 1),
            ("a".to_string(), 1),
            ("test".to_string(), 1),
            ("file".to_string(), 1),
            ("it".to_string(), 1),
            ("has".to_string(), 1),
            ("multiple".to_string(), 1),
            ("lines".to_string(), 1),
        ]
    );
}

#[test]
fn text_stats_words_count_by_letters_whatever_the_case() {
    let mut stats = TextStats::new();
    stats.analyze_text("Tree, tree; TREE! -- t-r-e-e über Über 42 4-2");
    assert_eq!(stats.word_count, 9);
    assert_eq!(stats.word_frequency.get("tree"), 4);
    assert_eq!(stats.word_frequency.get("über"), 2);
    assert_eq!(stats.word_frequency.get("42"), 2);
    assert_eq!(stats.word_frequency.len(), 3);
    // "über" takes five bytes
    assert_eq!(stats.word_bytes, 4 * 4 + 2 * 5 + 2 * 2);
    assert_eq!(stats.char_count, 45);
    assert_eq!(stats.byte_count, 47);
}

#[test]
fn text_stats_counts_words_onto_earlier_ones() {
    let mut stats = TextStats::new();
    stats.analyze_text("one two");
    stats.analyze_text("two three\nfour");
    assert_eq!(stats.word_count, 3);
    assert_eq!(stats.line_count, 2);
    assert_eq!(stats.char_count, 14);
    assert_eq!(stats.word_frequency.get("one"), 1);
    assert_eq!(stats.word_frequency.get("two"), 2);
    assert_eq!(stats.word_frequency.get("three"), 1);
    assert_eq!(stats.word_frequency.get("four"), 1);
}

#[test]
fn text_stats_of_a_text_alone() {
    let stats = TextStats::of("a b\nA");
    assert_eq!(stats.char_count, 5);
    assert_eq!(stats.byte_count, 5);
    assert_eq!(stats.line_count, 2);
    assert_eq!(stats.word_count, 3);
    assert_eq!(stats.word_bytes, 3);
    assert_eq!(stats.word_frequency.pairs(), vec![("a".to_string(), 2), ("b".to_string(), 1)]);
}

#[test]
fn text_file_that_is_missing_or_cannot_be_read() {
    let missing = analyze_text_file("gone.txt", None).err().unwrap();
    assert!(matches!(missing, RtoolsError::FileNotFound(ref p) if p == "gone.txt"));
    let unreadable = std::io::Error::new(std::io::ErrorKind::PermissionDenied, "denied");
    let failed = analyze_text_file("secret.txt", Some(Err(unreadable))).err().unwrap();
    assert!(matches!(failed, RtoolsError::IoError(ref e) if e.kind() == std::io::ErrorKind::PermissionDenied));
}
