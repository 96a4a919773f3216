use rtools::dirscan::{descends, FileInfo, PathKind, LIST_LIMIT};
use rtools::{scan_directory, DirectoryStats, RtoolsError};

fn file(name: &str, size: u64, modified: i128) -> FileInfo {
    let extension = name.rsplit_once('.').map(|(_, ext)| ext.to_string());
    FileInfo {
        name: name.to_string(),
        path: format!("root/{}", name),
        size,
        is_dir: false,
        modified,
        extension,
    }
}

fn dir(name: &str) -> FileInfo {
    FileInfo {
        name: name.to_string(),
        path: format!("root/{}", name),
        size: 4096,
        is_dir: true,
        modified: 0,
        extension: None,
    }
}

fn names(files: &Vec<FileInfo>) -> Vec<String> {
    files.iter().map(|f| f.name.clone()).collect()
}

#[test]
fn test_scan_nonexistent_directory() {
    let result = scan_directory("nonexistent_dir", PathKind::Missing, Vec::new());
    assert!(result.is_err());

    let error = result.err().unwrap();
    assert!(error.message().contains("目录不存在"));
    assert!(matches!(error, RtoolsError::DirectoryNotFound(ref p) if p == "nonexistent_dir"));
}

#[test]
fn test_scan_file_as_directory() {
    let result = scan_directory("test_file_for_scan.txt", PathKind::File, Vec::new());
    let error = result.err().unwrap();
    assert!(error.message().contains("路径不是目录"));
    assert_eq!(error.message(), "路径不是目录: test_file_for_scan.txt");
}

#[test]
fn test_scan_directory() {
    let entries = vec![file("file1.txt", 5, 100), dir("subdir"), file("file2.rs", 12, 50)];
    let stats = scan_directory("test_scan_dir", PathKind::Directory, entries).unwrap();
    assert_eq!(stats.total_files, 2);
    assert_eq!(stats.total_dirs, 1);
    assert!(stats.total_size > 0);
    assert_eq!(stats.total_size, 17);
    assert_eq!(stats.extension_stats.get("txt"), 1);
    assert_eq!(stats.extension_stats.get("rs"), 1);
    assert_eq!(stats.extension_stats.get("md"), 0);
    assert_eq!(stats.largest_files.len(), 2);
    assert_eq!(names(&stats.largest_files), vec!["file2.rs", "file1.txt"]);
    assert_eq!(names(&stats.oldest_files), vec!["file2.rs", "file1.txt"]);
}

#[test]
fn scan_of_nothing() {
    let stats = scan_directory("empty", PathKind::Directory, Vec::new()).unwrap();
    assert_eq!(stats.total_files, 0);
    assert_eq!(stats.total_dirs, 0);
    assert_eq!(stats.total_size, 0);
    assert!(stats.extension_stats.is_empty());
    assert!(stats.largest_files.is_empty());
    assert!(stats.oldest_files.is_empty());
}

#[test]
fn directories_are_only_counted() {
    let mut stats = DirectoryStats::new();
    stats.add_file(dir("a"));
    stats.add_file(dir("b.d"));
    assert_eq!(stats.total_dirs, 2);
    assert_eq!(stats.total_files, 0);
    assert_eq!(stats.total_size, 0);
    assert!(stats.extension_stats.is_empty());
    assert!(stats.largest_files.is_empty());
    assert!(stats.oldest_files.is_empty());
}

#[test]
fn largest_files_are_kept_by_falling_size() {
    let mut stats = DirectoryStats::new();
    for (i, size) in [5u64, 9, 1, 9, 7].iter().enumerate() {
        stats.add_file(file(&format!("f{}", i), *size, i as i128));
    }
    assert_eq!(names(&stats.largest_files), vec!["f1", "f3", "f4", "f0", "f2"]);
    assert_eq!(names(&stats.oldest_files), vec!["f0", "f1", "f2", "f3", "f4"]);
}

#[test]
fn the_lists_hold_at_most_ten_files() {
    assert_eq!(LIST_LIMIT, 10);
    let mut stats = DirectoryStats::new();
    // sizes 1..=10, times 10..=1
    for i in 1..=10u64 {
        stats.add_file(file(&format!("f{}", i), i, 11 - i as i128));
    }
    assert_eq!(stats.largest_files.len(), 10);
    assert_eq!(stats.largest_files[0].name, "f10");
    assert_eq!(stats.largest_files[9].name, "f1");
    assert_eq!(stats.oldest_files[0].name, "f10");
    assert_eq!(stats.oldest_files[9].name, "f1");

    // no larger than the smallest, no older than the newest: stays out
    stats.add_file(file("same", 1, 10));
    assert_eq!(stats.largest_files.len(), 10);
    assert_eq!(stats.largest_files[9].name, "f1");
    assert_eq!(stats.oldest_files[9].name, "f1");
    assert!(!names(&stats.largest_files).contains(&"same".to_string()));
    assert!(!names(&stats.oldest_files).contains(&"same".to_string()));

    // larger than the smallest: takes its place, in order
    stats.add_file(file("big", 6, 100));
    assert_eq!(
        names(&stats.largest_files),
        vec!["f10", "f9", "f8", "f7", "f6", "big", "f5", "f4", "f3", "f2"]
    );
    assert_eq!(stats.oldest_files[9].name, "f1");

    // older than the newest: takes its place, in order
    stats.add_file(file("old", 0, 5));
    assert_eq!(
        names(&stats.oldest_files),
        vec!["f10", "f9", "f8", "f7", "f6", "old", "f5", "f4", "f3", "f2"]
    );
    assert_eq!(stats.total_files, 13);
    assert_eq!(stats.total_size, 55 + 1 + 6);
}

#[test]
fn the_first_of_the_smallest_and_the_last_of_the_newest_leave() {
    let mut stats = DirectoryStats::new();
    for i in 0..10u64 {
        stats.add_file(file(&format!("f{}", i), 3, 7));
    }
    stats.add_file(file("big", 4, 6));
    assert_eq!(
        names(&stats.largest_files),
        vec!["big", "f1", "f2", "f3", "f4", "f5", "f6", "f7", "f8", "f9"]
    );
    assert_eq!(
        names(&stats.oldest_files),
        vec!["big", "f0", "f1", "f2", "f3", "f4", "f5", "f6", "f7", "f8"]
    );
}

#[test]
fn update_lists_directly() {
    let mut stats = DirectoryStats::new();
    stats.update_largest_files(&file("a.x", 2, 9));
    stats.update_largest_files(&file("b.x", 3, 8));
    stats.update_oldest_files(&file("c.x", 1, 4));
    assert_eq!(names(&stats.largest_files), vec!["b.x", "a.x"]);
    assert_eq!(names(&stats.oldest_files), vec!["c.x"]);
    assert_eq!(stats.total_files, 0);
    assert!(stats.extension_stats.is_empty());
}

#[test]
fn file_info_clone_keeps_everything() {
    let f = file("a.tar.gz", 77, -3);
    let c = f.clone();
    assert_eq!(c.name, "a.tar.gz");
    assert_eq!(c.path, "root/a.tar.gz");
    assert_eq!(c.size, 77);
    assert!(!c.is_dir);
    assert_eq!(c.modified, -3);
    assert_eq!(c.extension, Some("gz".to_string()));
}

#[test]
fn depth_limit() {
    assert!(descends(0, Some(1)));
    assert!(!descends(1, Some(1)));
    assert!(!descends(2, Some(1)));
    assert!(!descends(0, Some(0)));
    assert!(descends(1000, None));
    assert!(!descends(usize::MAX, None));
}

/// A directory in memory: its files and its directories.
struct Tree {
    files: Vec<&'static str>,
    dirs: Vec<(&'static str, Tree)>,
}

/// Walks a tree as a walk of the file system does: every entry is noted, and
/// a directory is entered where the depth allows.
fn walk(tree: &Tree, found: &mut Vec<FileInfo>, current_depth: usize, max_depth: Option<usize>) {
    for name in tree.files.iter() {
        found.push(file(name, 4, 0));
    }
    for (name, below) in tree.dirs.iter() {
        found.push(dir(name));
        if descends(current_depth, max_depth) {
            walk(below, found, current_depth + 1, max_depth);
        }
    }
}

fn nested() -> Tree {
    let level3 = Tree { files: vec!["file.txt"], dirs: vec![] };
    let level2 = Tree { files: vec!["file.txt"], dirs: vec![("level3", level3)] };
    let level1 = Tree { files: vec!["file.txt"], dirs: vec![("level2", level2)] };
    Tree { files: vec!["file.txt"], dirs: vec![("level1", level1)] }
}

#[test]
fn test_scan_directory_with_depth_limit() {
    let mut entries = Vec::new();
    walk(&nested(), &mut entries, 0, Some(1));
    let result = scan_directory("test_nested_dir", PathKind::Directory, entries);
    assert!(result.is_ok());

    let stats = result.unwrap();
    assert!(stats.total_files >= 2);
    assert_eq!(stats.total_files, 2);
    assert_eq!(stats.total_dirs, 2);

    let mut entries = Vec::new();
    walk(&nested(), &mut entries, 0, None);
    let stats = scan_directory("test_nested_dir", PathKind::Directory, entries).unwrap();
    assert_eq!(stats.total_files, 4);
    assert_eq!(stats.total_dirs, 3);
    assert_eq!(stats.extension_stats.get("txt"), 4);

    let mut entries = Vec::new();
    walk(&nested(), &mut entries, 0, Some(0));
    let stats = scan_directory("test_nested_dir", PathKind::Directory, entries).unwrap();
    assert_eq!(stats.total_files, 1);
    assert_eq!(stats.total_dirs, 1);
}
