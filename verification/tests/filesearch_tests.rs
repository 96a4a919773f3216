use rtools::dirscan::PathKind;
use rtools::filesearch::{contains_text, matches_criteria, try_search_files, Candidate};
use rtools::{search_files, RtoolsError, SearchCriteria, SearchResult};

fn candidate(path: &str, size: u64) -> Candidate {
    let name = path.rsplit('/').next().unwrap().to_string();
    let extension = name.rsplit_once('.').map(|(_, e)| e.to_string());
    Candidate { path: path.to_string(), name: Some(name), extension, size }
}

fn chars(s: &str) -> Vec<char> {
    s.chars().collect()
}

#[test]
fn criteria_builders_set_one_thing_each() {
    let c = SearchCriteria::new();
    assert_eq!(c.name_pattern, None);
    assert_eq!(c.extension, None);
    assert_eq!(c.min_size, None);
    assert_eq!(c.max_size, None);
    assert_eq!(c.max_depth, None);

    let c = SearchCriteria::new().with_name_pattern("main".to_string());
    assert_eq!(c.name_pattern, Some("main".to_string()));
    assert_eq!(c.extension, None);

    let c = c.with_extension("rs".to_string());
    assert_eq!(c.name_pattern, Some("main".to_string()));
    assert_eq!(c.extension, Some("rs".to_string()));

    let c = c.with_size_range(Some(3), None);
    assert_eq!(c.min_size, Some(3));
    assert_eq!(c.max_size, None);
    let c = c.with_size_range(None, Some(9));
    assert_eq!(c.min_size, None);
    assert_eq!(c.max_size, Some(9));

    let c = c.with_max_depth(2);
    assert_eq!(c.max_depth, Some(2));
    assert_eq!(c.extension, Some("rs".to_string()));

    let d = SearchCriteria::default();
    assert_eq!(d.max_depth, None);
    assert_eq!(d.name_pattern, None);
}

#[test]
fn search_result_starts_empty() {
    let r = SearchResult::new();
    assert!(r.files.is_empty());
    assert_eq!(r.total_count, 0);
    assert_eq!(r.total_size, 0);
    assert_eq!(r.search_time_ms, 0);
}

#[test]
fn text_is_found_anywhere() {
    assert!(contains_text(&chars("main.rs"), &chars("main")));
    assert!(contains_text(&chars("main.rs"), &chars(".rs")));
    assert!(contains_text(&chars("main.rs"), &chars("in.r")));
    assert!(contains_text(&chars("main.rs"), &chars("main.rs")));
    assert!(contains_text(&chars("main.rs"), &chars("")));
    assert!(contains_text(&chars(""), &chars("")));
    assert!(!contains_text(&chars("main.rs"), &chars("main.rs ")));
    assert!(!contains_text(&chars("main.rs"), &chars("mian")));
    assert!(!contains_text(&chars(""), &chars("a")));
    assert!(contains_text(&chars("aab"), &chars("ab")));
    assert!(!contains_text(&chars("aab"), &chars("ba")));
}

#[test]
fn extension_is_compared_whatever_the_case() {
    let c = SearchCriteria::new().with_extension("RS".to_string());
    assert!(matches_criteria(&candidate("src/main.rs", 1), &c));
    assert!(matches_criteria(&candidate("src/MAIN.Rs", 1), &c));
    assert!(!matches_criteria(&candidate("src/main.rsx", 1), &c));
    assert!(!matches_criteria(&candidate("src/Makefile", 1), &c));
}

#[test]
fn name_pattern_is_searched_whatever_the_case() {
    let c = SearchCriteria::new().with_name_pattern("MaIn".to_string());
    assert!(matches_criteria(&candidate("src/main.rs", 1), &c));
    assert!(matches_criteria(&candidate("src/domain_MAIN.txt", 1), &c));
    assert!(!matches_criteria(&candidate("main/lib.rs", 1), &c));
    let nameless = Candidate { path: "..".to_string(), name: None, extension: None, size: 1 };
    assert!(!matches_criteria(&nameless, &c));
    assert!(matches_criteria(&nameless, &SearchCriteria::new()));
}

#[test]
fn size_limits_are_inclusive() {
    let c = SearchCriteria::new().with_size_range(Some(10), Some(20));
    assert!(!matches_criteria(&candidate("a", 9), &c));
    assert!(matches_criteria(&candidate("a", 10), &c));
    assert!(matches_criteria(&candidate("a", 20), &c));
    assert!(!matches_criteria(&candidate("a", 21), &c));
    let c = SearchCriteria::new().with_size_range(None, Some(20));
    assert!(matches_criteria(&candidate("a", 0), &c));
    let c = SearchCriteria::new().with_size_range(Some(10), None);
    assert!(matches_criteria(&candidate("a", u64::MAX), &c));
}

#[test]
fn search_collects_what_meets_the_criteria() {
    let candidates = vec![
        candidate("src/main.rs", 100),
        candidate("src/lib.rs", 50),
        candidate("README.md", 10),
        candidate("tests/main_test.RS", 7),
    ];
    let criteria = SearchCriteria::new().with_extension("rs".to_string());
    let found = search_files("src", PathKind::Directory, &candidates, &criteria, 12).unwrap();
    assert_eq!(found.files, vec!["src/main.rs", "src/lib.rs", "tests/main_test.RS"]);
    assert_eq!(found.total_count, 3);
    assert_eq!(found.total_size, 157);
    assert_eq!(found.search_time_ms, 12);

    let criteria = criteria.with_name_pattern("main".to_string()).with_size_range(Some(8), None);
    let found = search_files("src", PathKind::Directory, &candidates, &criteria, 0).unwrap();
    assert_eq!(found.files, vec!["src/main.rs"]);
    assert_eq!(found.total_count, 1);
    assert_eq!(found.total_size, 100);
}

#[test]
fn search_where_there_is_no_directory() {
    let criteria = SearchCriteria::new();
    let error = search_files("gone", PathKind::Missing, &Vec::new(), &criteria, 0).unwrap_err();
    assert!(matches!(error, RtoolsError::DirectoryNotFound(ref p) if p == "gone"));
    let error = search_files("a.txt", PathKind::File, &Vec::new(), &criteria, 0).unwrap_err();
    assert!(matches!(error, RtoolsError::NotADirectory(ref p) if p == "a.txt"));
}

#[test]
fn search_gives_up_where_the_sizes_do_not_fit() {
    let candidates = vec![
        candidate("a.rs", u64::MAX - 1),
        candidate("b.md", 5),
        candidate("c.rs", 1),
        candidate("d.rs", 1),
    ];
    let all = SearchCriteria::new();
    assert!(try_search_files("d", PathKind::Directory, &candidates, &all, 0).is_none());
    let rust = SearchCriteria::new().with_extension("rs".to_string());
    assert!(try_search_files("d", PathKind::Directory, &candidates, &rust, 0).is_none());
    let small = SearchCriteria::new().with_size_range(None, Some(9));
    let found = try_search_files("d", PathKind::Directory, &candidates, &small, 3).unwrap().unwrap();
    assert_eq!(found.files, vec!["b.md", "c.rs", "d.rs"]);
    assert_eq!(found.total_size, 7);
    let exact = SearchCriteria::new().with_name_pattern("a.rs".to_string());
    let found = try_search_files("d", PathKind::Directory, &candidates, &exact, 3).unwrap().unwrap();
    assert_eq!(found.total_size, u64::MAX - 1);
    assert!(matches!(
        try_search_files("d", PathKind::Missing, &candidates, &all, 0),
        Some(Err(RtoolsError::DirectoryNotFound(_)))
    ));
}
