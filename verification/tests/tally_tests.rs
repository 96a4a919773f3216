use rtools::tally::Tally;

#[test]
fn tally_counts_in_order_of_first_counting() {
    let mut t = Tally::new();
    assert!(t.is_empty());
    assert_eq!(t.len(), 0);
    assert_eq!(t.get("a"), 0);
    assert!(!t.contains_key("a"));
    for key in ["b", "a", "b", "c", "b", "a"] {
        t.add(key.to_string());
    }
    assert_eq!(t.len(), 3);
    assert!(!t.is_empty());
    assert_eq!(t.get("a"), 2);
    assert_eq!(t.get("b"), 3);
    assert_eq!(t.get("c"), 1);
    assert_eq!(t.get("d"), 0);
    assert!(t.contains_key("c"));
    assert!(!t.contains_key("B"));
    assert_eq!(t.key_at(0), "b");
    assert_eq!(t.count_at(0), 3);
    assert_eq!(t.key_at(2), "c");
    assert_eq!(
        t.pairs(),
        vec![("b".to_string(), 3), ("a".to_string(), 2), ("c".to_string(), 1)]
    );
    let sum: usize = t.pairs().iter().map(|p| p.1).sum();
    assert_eq!(sum, 6);
}

#[test]
fn ranking_is_by_falling_count_and_first_counting() {
    let mut t = Tally::new();
    for key in ["x", "y", "z", "y", "z", "w", "v", "v", "v"] {
        t.add(key.to_string());
    }
    assert_eq!(
        t.ranked(),
        vec![
            ("v".to_string(), 3),
            ("y".to_string(), 2),
            ("z".to_string(), 2),
            ("x".to_string(), 1),
            ("w".to_string(), 1),
        ]
    );
    assert!(Tally::new().ranked().is_empty());
}
