use rtools::fileinfo::FileFacts;
use rtools::get_file_info;

#[test]
fn test_get_file_info_nonexistent_file() {
    let result = get_file_info("nonexistent_file.txt", None);
    assert!(result.is_err());

    let error = result.unwrap_err();
    assert!(error.message().contains("文件不存在"));
    assert_eq!(error.message(), "文件不存在: nonexistent_file.txt");
}

#[test]
fn test_get_file_info_existing_file() {
    let facts = FileFacts {
        name: Some("test_file.txt".to_string()),
        extension: Some("txt".to_string()),
        size: 13,
        is_file: true,
        is_dir: false,
        modified_secs: 1705314600,
    };
    let info = get_file_info("dir/test_file.txt", Some(&facts)).unwrap();
    assert!(info.contains("test_file.txt"));
    assert!(info.contains("文件"));
    assert!(info.contains("13 字节"));
    assert_eq!(
        info,
        "文件信息:\n- 名称: test_file.txt\n- 路径: dir/test_file.txt\n- 大小: 13 字节\n- 类型: 文件\n- 扩展名: txt\n- 修改时间: 1705314600"
    );
}

#[test]
fn test_get_file_info_directory() {
    let facts = FileFacts {
        name: Some("test_dir".to_string()),
        extension: None,
        size: 0,
        is_file: false,
        is_dir: true,
        modified_secs: 0,
    };
    let info = get_file_info("test_dir", Some(&facts)).unwrap();
    assert!(info.contains("目录"));
    assert_eq!(
        info,
        "文件信息:\n- 名称: test_dir\n- 路径: test_dir\n- 大小: 0 字节\n- 类型: 目录\n- 扩展名: 无扩展名\n- 修改时间: 0"
    );
}

#[test]
fn file_info_of_something_else_without_name() {
    let facts = FileFacts {
        name: None,
        extension: None,
        size: u64::MAX,
        is_file: false,
        is_dir: false,
        modified_secs: u64::MAX,
    };
    let info = get_file_info("..", Some(&facts)).unwrap();
    assert_eq!(
        info,
        "文件信息:\n- 名称: 未知文件名\n- 路径: ..\n- 大小: 18446744073709551615 字节\n- 类型: 其他\n- 扩展名: 无扩展名\n- 修改时间: 18446744073709551615"
    );
}
