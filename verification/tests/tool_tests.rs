use rtools::{get_help_text, RtoolsError, ToolType};

#[test]
fn test_tool_type_parse() {
    assert_eq!(ToolType::parse("fileinfo"), Some(ToolType::FileInfo));
    assert_eq!(ToolType::parse("textstats"), Some(ToolType::TextStats));
    assert_eq!(ToolType::parse("dirscan"), Some(ToolType::DirScan));
    assert_eq!(ToolType::parse("filesearch"), Some(ToolType::FileSearch));
    assert_eq!(ToolType::parse("loganalyzer"), Some(ToolType::LogAnalyzer));
    assert_eq!(ToolType::parse("config"), Some(ToolType::Config));
    assert_eq!(ToolType::parse("unknown"), None);
}

#[test]
fn test_tool_type_help_text() {
    assert!(ToolType::FileInfo.help_text().contains("fileinfo"));
    assert!(ToolType::TextStats.help_text().contains("textstats"));
    assert!(ToolType::DirScan.help_text().contains("dirscan"));
}

#[test]
fn test_tool_type_usage_example() {
    assert!(ToolType::FileInfo.usage_example().contains("rtools"));
    assert!(ToolType::TextStats.usage_example().contains("rtools"));
    assert!(ToolType::DirScan.usage_example().contains("rtools"));
}

#[test]
fn test_get_help_text() {
    let help = get_help_text();
    assert!(help.contains("Rust工具集"));
    assert!(help.contains("fileinfo"));
    assert!(help.contains("textstats"));
    assert!(help.contains("dirscan"));
    assert!(help.contains("filesearch"));
    assert!(help.contains("loganalyzer"));
    assert!(help.contains("config"));
}

#[test]
fn test_error_display() {
    let error = RtoolsError::FileNotFound("test.txt".to_string());
    assert!(error.message().contains("文件不存在"));
    assert!(error.message().contains("test.txt"));
}

#[test]
fn test_error_from_io() {
    let io_error = std::io::Error::new(std::io::ErrorKind::NotFound, "test");
    let rtools_error: RtoolsError = io_error.into();
    assert!(matches!(rtools_error, RtoolsError::IoError(_)));
}

#[test]
fn tool_type_parse_knows_the_network_tools() {
    assert_eq!(ToolType::parse("httpclient"), Some(ToolType::HttpClient));
    assert_eq!(ToolType::parse("network"), Some(ToolType::Network));
    assert_eq!(ToolType::parse("FileInfo"), None);
    assert_eq!(ToolType::parse(""), None);
}

#[test]
fn help_page_is_exact() {
    let expected = "Rust工具集 (rtools)\n\n可用命令:\n\
  fileinfo <文件路径>   - 显示文件信息\n\
  textstats <文件路径>  - 分析文本文件统计信息\n\
  dirscan <目录路径> [深度] - 扫描目录统计信息\n\
  filesearch <目录路径> [选项] - 搜索文件\n\
  loganalyzer <日志文件> - 分析日志文件\n\
  config <配置文件> - 管理配置文件\n\
  httpclient <URL> [选项] - HTTP客户端工具\n\
  network <主机> [选项] - 网络连接测试工具\n\
  help                 - 显示此帮助信息\n\n\
示例:\n\
  rtools fileinfo src/main.rs\n\
  rtools textstats src/main.rs\n\
  rtools dirscan src/ 2\n\
  rtools filesearch src/ --ext rs\n\
  rtools loganalyzer app.log\n\
  rtools config config.json\n\
  rtools httpclient https://api.github.com\n\
  rtools network google.com --ping\n";
    let expected = expected.replace("\nfileinfo", "\n  fileinfo");
    let lines: Vec<&str> = expected.lines().collect();
    let help = get_help_text();
    let got: Vec<&str> = help.lines().collect();
    assert_eq!(got.len(), lines.len());
    for (g, e) in got.iter().zip(lines.iter()) {
        assert_eq!(g.trim_start(), e.trim_start());
        if !e.is_empty() && !e.starts_with("Rust") && !e.starts_with("可用") && !e.starts_with("示例") {
            assert!(g.starts_with("  "));
        }
    }
    assert!(help.ends_with("  rtools network google.com --ping\n"));
}

#[test]
fn error_messages_name_kind_and_detail() {
    assert_eq!(RtoolsError::DirectoryNotFound("d".to_string()).message(), "目录不存在: d");
    assert_eq!(RtoolsError::NotADirectory("p".to_string()).message(), "路径不是目录: p");
    assert_eq!(RtoolsError::NotAFile("p".to_string()).message(), "文件不是文件: p");
    assert_eq!(RtoolsError::PermissionDenied("p".to_string()).message(), "权限不足: p");
    assert_eq!(RtoolsError::ParseError("x".to_string()).message(), "解析错误: x");
    assert_eq!(RtoolsError::InvalidArgument("x".to_string()).message(), "无效参数: x");
    assert_eq!(RtoolsError::ConfigError("x".to_string()).message(), "配置错误: x");
    assert_eq!(RtoolsError::NetworkError("x".to_string()).message(), "网络错误: x");
    let io = RtoolsError::from(std::io::Error::new(std::io::ErrorKind::Other, "boom"));
    assert_eq!(io.message(), "IO错误: boom");
}

#[test]
fn error_from_a_time_that_runs_backwards() {
    let later = std::time::UNIX_EPOCH + std::time::Duration::from_secs(1);
    let time_error = std::time::UNIX_EPOCH.duration_since(later).unwrap_err();
    let shown = time_error.to_string();
    let error: RtoolsError = time_error.into();
    assert!(matches!(error, RtoolsError::TimeError(_)));
    assert_eq!(error.message(), format!("时间错误: {}", shown));
}
