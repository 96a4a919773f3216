use rtools::cli::{parse_args, Operation, Probing, Refusal, Task};
use rtools::httpclient::TimeLimit;
use rtools::HttpMethod;

fn args(words: &[&str]) -> Vec<String> {
    let mut all = vec!["rtools".to_string()];
    all.extend(words.iter().map(|w| w.to_string()));
    all
}

fn task(words: &[&str]) -> Task {
    match parse_args(&args(words)) {
        Ok(task) => task,
        Err(refusal) => panic!("refused: {:?}", refusal),
    }
}

fn refusal(words: &[&str]) -> Refusal {
    match parse_args(&args(words)) {
        Ok(task) => panic!("taken: {:?}", task),
        Err(refusal) => refusal,
    }
}

fn says(words: &[&str], line: &str) {
    let r = refusal(words);
    assert_eq!(r.lines, vec![line.to_string()], "{:?}", words);
    assert!(!r.usage);
}

#[test]
fn no_command_and_unknown_command_show_the_help_page() {
    let r = parse_args(&vec!["rtools".to_string()]).unwrap_err();
    assert!(r.lines.is_empty());
    assert!(r.usage);
    let r = parse_args(&Vec::new()).unwrap_err();
    assert!(r.lines.is_empty());
    assert!(r.usage);
    let r = refusal(&["frobnicate", "x"]);
    assert_eq!(r.lines, vec!["未知命令: frobnicate".to_string()]);
    assert!(r.usage);
    assert!(matches!(task(&["help"]), Task::Usage));
    assert!(matches!(task(&["help", "more"]), Task::Usage));
}

#[test]
fn tools_of_one_path() {
    assert!(matches!(task(&["fileinfo", "a.txt"]), Task::FileInfo(p) if p == "a.txt"));
    assert!(matches!(task(&["textstats", "a.txt"]), Task::TextStats(p) if p == "a.txt"));
    assert!(matches!(task(&["loganalyzer", "app.log"]), Task::LogAnalyzer(p) if p == "app.log"));
    says(&["fileinfo"], "使用方法: rtools fileinfo <文件路径>");
    says(&["fileinfo", "a", "b"], "使用方法: rtools fileinfo <文件路径>");
    says(&["textstats"], "使用方法: rtools textstats <文件路径>");
    says(&["loganalyzer", "a", "b"], "使用方法: rtools loganalyzer <日志文件>");
}

#[test]
fn dirscan_takes_a_depth() {
    assert!(matches!(task(&["dirscan", "src"]), Task::DirScan(p, None) if p == "src"));
    assert!(matches!(task(&["dirscan", "src", "2"]), Task::DirScan(p, Some(2)) if p == "src"));
    assert!(matches!(task(&["dirscan", "src", "deep"]), Task::DirScan(_, None)));
    assert!(matches!(task(&["dirscan", "src", "-1"]), Task::DirScan(_, None)));
    says(&["dirscan"], "使用方法: rtools dirscan <目录路径> [最大深度]");
    says(&["dirscan", "a", "1", "2"], "使用方法: rtools dirscan <目录路径> [最大深度]");
}

#[test]
fn filesearch_options() {
    match task(&["filesearch", "src", "--name", "main", "-e", "rs", "--size", "10-200", "-d", "3"]) {
        Task::FileSearch(dir, c) => {
            assert_eq!(dir, "src");
            assert_eq!(c.name_pattern, Some("main".to_string()));
            assert_eq!(c.extension, Some("rs".to_string()));
            assert_eq!(c.min_size, Some(10));
            assert_eq!(c.max_size, Some(200));
            assert_eq!(c.max_depth, Some(3));
        }
        other => panic!("{:?}", other),
    }
    match task(&["filesearch", "src"]) {
        Task::FileSearch(_, c) => {
            assert_eq!(c.name_pattern, None);
            assert_eq!(c.extension, None);
            assert_eq!(c.min_size, None);
            assert_eq!(c.max_size, None);
            assert_eq!(c.max_depth, None);
        }
        other => panic!("{:?}", other),
    }
    let range = |text: &str| match task(&["filesearch", "src", "--size", text]) {
        Task::FileSearch(_, c) => (c.min_size, c.max_size),
        other => panic!("{:?}", other),
    };
    assert_eq!(range("100"), (Some(100), Some(100)));
    assert_eq!(range("100-"), (Some(100), None));
    assert_eq!(range("-100"), (None, Some(100)));
    assert_eq!(range("1-2-3"), (Some(1), None));
    assert_eq!(range("big"), (None, None));
    assert_eq!(range("-"), (None, None));
    match task(&["filesearch", "src", "-n", "a", "--name", "b"]) {
        Task::FileSearch(_, c) => assert_eq!(c.name_pattern, Some("b".to_string())),
        other => panic!("{:?}", other),
    }
    says(&["filesearch"], "使用方法: rtools filesearch <目录路径> [选项]");
    says(&["filesearch", "src", "--name"], "错误: --name 需要指定模式");
    says(&["filesearch", "src", "-e"], "错误: --ext 需要指定扩展名");
    says(&["filesearch", "src", "--size"], "错误: --size 需要指定大小范围");
    says(&["filesearch", "src", "--depth"], "错误: --depth 需要指定深度");
    says(&["filesearch", "src", "--depth", "x"], "错误: --depth 需要指定数字");
    says(&["filesearch", "src", "--what"], "未知选项: --what");
    says(&["filesearch", "src", "-e", "rs", "stray"], "未知选项: stray");
}

#[test]
fn config_operations() {
    assert!(matches!(task(&["config", "c.ini"]), Task::ConfigShow(f) if f == "c.ini"));
    assert!(
        matches!(task(&["config", "c.ini", "get", "a.b"]), Task::ConfigGet(f, k) if f == "c.ini" && k == "a.b")
    );
    assert!(matches!(
        task(&["config", "c.ini", "set", "k", "v"]),
        Task::ConfigSet(f, k, v) if f == "c.ini" && k == "k" && v == "v"
    ));
    says(&["config"], "使用方法: rtools config <配置文件> [操作]");
    says(&["config", "c", "get"], "使用方法: config <文件> get <键>");
    says(&["config", "c", "get", "a", "b"], "使用方法: config <文件> get <键>");
    says(&["config", "c", "set", "k"], "使用方法: config <文件> set <键> <值>");
    let r = refusal(&["config", "c", "drop"]);
    assert_eq!(r.lines, vec!["未知操作: drop".to_string(), "可用操作: get, set".to_string()]);
    assert!(!r.usage);
}

#[test]
fn httpclient_options() {
    match task(&["httpclient", "http://x"]) {
        Task::Http(r) => {
            assert_eq!(r.method, HttpMethod::GET);
            assert_eq!(r.url, "http://x");
            assert_eq!(r.body, None);
            assert_eq!(r.timeout, Some(TimeLimit::from_secs(30)));
            assert!(r.follow_redirects);
            assert!(r.headers.is_empty());
        }
        other => panic!("{:?}", other),
    }
    match task(&["httpclient", "http://x", "-m", "post", "--body", "a=1", "-t", "5"]) {
        Task::Http(r) => {
            assert_eq!(r.method, HttpMethod::POST);
            assert_eq!(r.body, Some("a=1".to_string()));
            assert_eq!(r.timeout, Some(TimeLimit { secs: 5, nanos: 0 }));
        }
        other => panic!("{:?}", other),
    }
    says(&["httpclient"], "使用方法: rtools httpclient <URL> [选项]");
    says(&["httpclient", "u", "--method"], "错误: --method 需要指定方法");
    says(&["httpclient", "u", "--method", "fetch"], "错误: 无效的HTTP方法: fetch");
    says(&["httpclient", "u", "-b"], "错误: --body 需要指定内容");
    says(&["httpclient", "u", "--timeout"], "错误: --timeout 需要指定超时时间");
    says(&["httpclient", "u", "--timeout", "soon"], "错误: --timeout 需要指定秒数");
    says(&["httpclient", "u", "--verbose"], "未知选项: --verbose");
}

fn probing(words: &[&str]) -> Probing {
    match task(words) {
        Task::Network(host, probing) => {
            assert_eq!(host, "example.org");
            probing
        }
        other => panic!("{:?}", other),
    }
}

#[test]
fn network_options() {
    let start = Probing {
        operation: Operation::Connect,
        port: 80,
        start_port: 1,
        end_port: 1024,
        ping_count: 4,
    };
    assert_eq!(probing(&["network", "example.org"]), start);
    assert_eq!(
        probing(&["network", "example.org", "--port", "8080"]),
        Probing { port: 8080, ..start }
    );
    assert_eq!(
        probing(&["network", "example.org", "-p", "-c", "9"]),
        Probing { operation: Operation::Ping, ping_count: 9, ..start }
    );
    assert_eq!(
        probing(&["network", "example.org", "--scan", "20", "25"]),
        Probing { operation: Operation::Scan, start_port: 20, end_port: 25, ..start }
    );
    assert_eq!(
        probing(&["network", "example.org", "--ping", "--dns"]),
        Probing { operation: Operation::Dns, ..start }
    );
    assert_eq!(
        probing(&["network", "example.org", "--dns", "--scan", "9", "3", "--port", "65535"]),
        Probing { operation: Operation::Scan, start_port: 9, end_port: 3, port: 65535, ..start }
    );
    says(&["network"], "使用方法: rtools network <主机> [选项]");
    says(&["network", "h", "--port"], "错误: --port 需要指定端口");
    says(&["network", "h", "--port", "65536"], "错误: --port 需要指定端口号");
    says(&["network", "h", "--scan", "1"], "错误: --scan 需要指定端口范围");
    says(&["network", "h", "--scan", "1", "x"], "错误: --scan 需要指定起始和结束端口");
    says(&["network", "h", "--count"], "错误: --count 需要指定次数");
    says(&["network", "h", "--count", "many"], "错误: --count 需要指定数字");
    says(&["network", "h", "--tcp"], "未知选项: --tcp");
}
