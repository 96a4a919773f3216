//! What a command line asks of the toolkit: the task that its words name, or
//! the reason why they name none.

use crate::filesearch::{Criteria, SearchCriteria};
use crate::httpclient::{method_named, HttpMethod, HttpRequest, Request, TimeLimit};
use crate::number::{parse_within, parsed_number};
use crate::text::{
    chars_of, copy_range, find_char, position_of, spells, string_from_chars, unicode_uppercased,
};
use crate::tool::{tool_named, ToolType};
use vstd::prelude::*;
use vstd::string::StringExecFns;

verus! {

/// What a network probe is to do.
#[derive(Debug, Clone, Copy, PartialEq, Eq, Structural)]
pub enum Operation {
    Connect,
    Ping,
    Scan,
    Dns,
}

/// The settings of a network probe.
#[derive(Debug, Clone, Copy, PartialEq, Eq, Structural)]
pub struct Probing {
    pub operation: Operation,
    pub port: u16,
    pub start_port: u16,
    pub end_port: u16,
    pub ping_count: usize,
}

/// A task for the toolkit.
#[derive(Debug)]
pub enum Task {
    /// Show the help page.
    Usage,
    FileInfo(String),
    TextStats(String),
    /// Scan a directory, to a depth where one is given.
    DirScan(String, Option<usize>),
    FileSearch(String, SearchCriteria),
    LogAnalyzer(String),
    /// Show a configuration file.
    ConfigShow(String),
    /// Show the value under a key of a configuration file.
    ConfigGet(String, String),
    /// Set the value under a key of a configuration file.
    ConfigSet(String, String, String),
    Http(HttpRequest),
    /// Probe a host.
    Network(String, Probing),
}

/// The model of a [`Task`].
pub enum Asked {
    Usage,
    FileInfo(Seq<char>),
    TextStats(Seq<char>),
    DirScan(Seq<char>, Option<usize>),
    FileSearch(Seq<char>, Criteria),
    LogAnalyzer(Seq<char>),
    ConfigShow(Seq<char>),
    ConfigGet(Seq<char>, Seq<char>),
    ConfigSet(Seq<char>, Seq<char>, Seq<char>),
    Http(Request),
    Network(Seq<char>, Probing),
}

impl View for Task {
    type V = Asked;

    open spec fn view(&self) -> Asked {
        match self {
            Task::Usage => Asked::Usage,
            Task::FileInfo(path) => Asked::FileInfo(path@),
            Task::TextStats(path) => Asked::TextStats(path@),
            Task::DirScan(path, depth) => Asked::DirScan(path@, *depth),
            Task::FileSearch(dir, criteria) => Asked::FileSearch(dir@, criteria@),
            Task::LogAnalyzer(path) => Asked::LogAnalyzer(path@),
            Task::ConfigShow(file) => Asked::ConfigShow(file@),
            Task::ConfigGet(file, key) => Asked::ConfigGet(file@, key@),
            Task::ConfigSet(file, key, value) => Asked::ConfigSet(file@, key@, value@),
            Task::Http(request) => Asked::Http(request@),
            Task::Network(host, probing) => Asked::Network(host@, *probing),
        }
    }
}

/// Why a command line names no task: what to say, and whether to show the
/// help page as well.
#[derive(Debug)]
pub struct Refusal {
    pub lines: Vec<String>,
    pub usage: bool,
}

/// The model of a [`Refusal`].
pub struct Refused {
    pub lines: Seq<Seq<char>>,
    pub usage: bool,
}

impl View for Refusal {
    type V = Refused;

    open spec fn view(&self) -> Refused {
        Refused { lines: self.lines@.map_values(|l: String| l@), usage: self.usage }
    }
}

/// The model of what came of a command line.
pub open spec fn outcome(result: Result<Task, Refusal>) -> Result<Asked, Refused> {
    match result {
        Ok(task) => Ok(task@),
        Err(refusal) => Err(refusal@),
    }
}

/// The refusal that says `line`.
pub open spec fn refused(line: Seq<char>) -> Refused {
    Refused { lines: seq![line], usage: false }
}

/// The texts of the words of a command line.
pub open spec fn words_of(args: Seq<String>) -> Seq<Seq<char>> {
    args.map_values(|a: String| a@)
}

/// The number that `text` writes, if it is one of at most `limit`.
pub open spec fn number_within(text: Seq<char>, limit: nat) -> Option<nat> {
    parsed_number(text, limit)
}

/// The limits of size that `text` states: of `min-max` the two numbers, as
/// far as they are numbers; of a single number, that number twice.
pub open spec fn size_range(text: Seq<char>) -> (Option<u64>, Option<u64>) {
    let dash = find_char(text, '-', 0);
    if dash < text.len() {
        (
            as_u64(number_within(text.subrange(0, dash), u64::MAX as nat)),
            as_u64(number_within(text.subrange(dash + 1, text.len() as int), u64::MAX as nat)),
        )
    } else {
        (
            as_u64(number_within(text, u64::MAX as nat)),
            as_u64(number_within(text, u64::MAX as nat)),
        )
    }
}

/// A number as a `u64`.
pub open spec fn as_u64(n: Option<nat>) -> Option<u64> {
    match n {
        Some(n) => Some(n as u64),
        None => None,
    }
}

/// The criteria that the options from word `i` on add to `criteria`, or what
/// is wrong with them.
pub open spec fn search_options(words: Seq<Seq<char>>, i: int, criteria: Criteria) -> Result<
    Criteria,
    Seq<char>,
>
    decreases words.len() - i,
{
    if i < 0 || i >= words.len() {
        Ok(criteria)
    } else if words[i] == "--name"@ || words[i] == "-n"@ {
        if i + 1 < words.len() {
            search_options(words, i + 2, Criteria { name_pattern: Some(words[i + 1]), ..criteria })
        } else {
            Err("错误: --name 需要指定模式"@)
        }
    } else if words[i] == "--ext"@ || words[i] == "-e"@ {
        if i + 1 < words.len() {
            search_options(words, i + 2, Criteria { extension: Some(words[i + 1]), ..criteria })
        } else {
            Err("错误: --ext 需要指定扩展名"@)
        }
    } else if words[i] == "--size"@ {
        if i + 1 < words.len() {
            search_options(
                words,
                i + 2,
                Criteria {
                    min_size: size_range(words[i + 1]).0,
                    max_size: size_range(words[i + 1]).1,
                    ..criteria
                },
            )
        } else {
            Err("错误: --size 需要指定大小范围"@)
        }
    } else if words[i] == "--depth"@ || words[i] == "-d"@ {
        if i + 1 < words.len() {
            match number_within(words[i + 1], usize::MAX as nat) {
                Some(depth) => search_options(
                    words,
                    i + 2,
                    Criteria { max_depth: Some(depth as usize), ..criteria },
                ),
                None => Err("错误: --depth 需要指定数字"@),
            }
        } else {
            Err("错误: --depth 需要指定深度"@)
        }
    } else {
        Err("未知选项: "@ + words[i])
    }
}

/// The settings of an HTTP request that options state.
pub struct HttpPlan {
    pub method: HttpMethod,
    pub body: Option<Seq<char>>,
    pub timeout_secs: u64,
}

/// The settings that the options from word `i` on make of `plan`, or what is
/// wrong with them.
pub open spec fn http_options(words: Seq<Seq<char>>, i: int, plan: HttpPlan) -> Result<
    HttpPlan,
    Seq<char>,
>
    decreases words.len() - i,
{
    if i < 0 || i >= words.len() {
        Ok(plan)
    } else if words[i] == "--method"@ || words[i] == "-m"@ {
        if i + 1 < words.len() {
            match method_named(unicode_uppercased(words[i + 1])) {
                Some(method) => http_options(words, i + 2, HttpPlan { method, ..plan }),
                None => Err("错误: 无效的HTTP方法: "@ + words[i + 1]),
            }
        } else {
            Err("错误: --method 需要指定方法"@)
        }
    } else if words[i] == "--body"@ || words[i] == "-b"@ {
        if i + 1 < words.len() {
            http_options(words, i + 2, HttpPlan { body: Some(words[i + 1]), ..plan })
        } else {
            Err("错误: --body 需要指定内容"@)
        }
    } else if words[i] == "--timeout"@ || words[i] == "-t"@ {
        if i + 1 < words.len() {
            match number_within(words[i + 1], u64::MAX as nat) {
                Some(secs) => http_options(
                    words,
                    i + 2,
                    HttpPlan { timeout_secs: secs as u64, ..plan },
                ),
                None => Err("错误: --timeout 需要指定秒数"@),
            }
        } else {
            Err("错误: --timeout 需要指定超时时间"@)
        }
    } else {
        Err("未知选项: "@ + words[i])
    }
}

/// The request to `url` with the settings of `plan`.
pub open spec fn planned_request(url: Seq<char>, plan: HttpPlan) -> Request {
    Request {
        method: plan.method,
        url,
        headers: Seq::empty(),
        body: plan.body,
        timeout: Some(TimeLimit { secs: plan.timeout_secs, nanos: 0 }),
        follow_redirects: true,
    }
}

/// The settings of a probe before any option: a connection to port 80; a
/// scan covers the ports 1 to 1024, a series of probes has 4.
pub open spec fn default_probing() -> Probing {
    Probing {
        operation: Operation::Connect,
        port: 80,
        start_port: 1,
        end_port: 1024,
        ping_count: 4,
    }
}

/// The settings that the options from word `i` on make of `probing`, or what
/// is wrong with them.
pub open spec fn network_options(words: Seq<Seq<char>>, i: int, probing: Probing) -> Result<
    Probing,
    Seq<char>,
>
    decreases words.len() - i,
{
    if i < 0 || i >= words.len() {
        Ok(probing)
    } else if words[i] == "--ping"@ || words[i] == "-p"@ {
        network_options(words, i + 1, Probing { operation: Operation::Ping, ..probing })
    } else if words[i] == "--port"@ {
        if i + 1 < words.len() {
            match number_within(words[i + 1], u16::MAX as nat) {
                Some(port) => network_options(
                    words,
                    i + 2,
                    Probing { port: port as u16, ..probing },
                ),
                None => Err("错误: --port 需要指定端口号"@),
            }
        } else {
            Err("错误: --port 需要指定端口"@)
        }
    } else if words[i] == "--scan"@ {
        if i + 2 < words.len() {
            match (
                number_within(words[i + 1], u16::MAX as nat),
                number_within(words[i + 2], u16::MAX as nat),
            ) {
                (Some(start), Some(end)) => network_options(
                    words,
                    i + 3,
                    Probing {
                        operation: Operation::Scan,
                        start_port: start as u16,
                        end_port: end as u16,
                        ..probing
                    },
                ),
                _ => Err("错误: --scan 需要指定起始和结束端口"@),
            }
        } else {
            Err("错误: --scan 需要指定端口范围"@)
        }
    } else if words[i] == "--dns"@ {
        network_options(words, i + 1, Probing { operation: Operation::Dns, ..probing })
    } else if words[i] == "--count"@ || words[i] == "-c"@ {
        if i + 1 < words.len() {
            match number_within(words[i + 1], usize::MAX as nat) {
                Some(count) => network_options(
                    words,
                    i + 2,
                    Probing { ping_count: count as usize, ..probing },
                ),
                None => Err("错误: --count 需要指定数字"@),
            }
        } else {
            Err("错误: --count 需要指定次数"@)
        }
    } else {
        Err("未知选项: "@ + words[i])
    }
}

/// What the words behind `config` ask: to show the file, or to get or set a
/// value in it.
pub open spec fn config_task(words: Seq<Seq<char>>) -> Result<Asked, Refused> {
    if words.len() == 3 {
        Ok(Asked::ConfigShow(words[2]))
    } else if words[3] == "get"@ {
        if words.len() == 5 {
            Ok(Asked::ConfigGet(words[2], words[4]))
        } else {
            Err(refused("使用方法: config <文件> get <键>"@))
        }
    } else if words[3] == "set"@ {
        if words.len() == 6 {
            Ok(Asked::ConfigSet(words[2], words[4], words[5]))
        } else {
            Err(refused("使用方法: config <文件> set <键> <值>"@))
        }
    } else {
        Err(Refused { lines: seq!["未知操作: "@ + words[3], "可用操作: get, set"@], usage: false })
    }
}

/// How a tool is called: the line that is shown where it is called otherwise.
pub open spec fn calling(program: Seq<char>, tool: ToolType) -> Seq<char> {
    "使用方法: "@ + program + match tool {
        ToolType::FileInfo => " fileinfo <文件路径>"@,
        ToolType::TextStats => " textstats <文件路径>"@,
        ToolType::DirScan => " dirscan <目录路径> [最大深度]"@,
        ToolType::FileSearch => " filesearch <目录路径> [选项]"@,
        ToolType::LogAnalyzer => " loganalyzer <日志文件>"@,
        ToolType::Config => " config <配置文件> [操作]"@,
        ToolType::HttpClient => " httpclient <URL> [选项]"@,
        ToolType::Network => " network <主机> [选项]"@,
    }
}

/// Whether a tool takes `n` words, the program and the tool counted.
pub open spec fn takes(tool: ToolType, n: int) -> bool {
    match tool {
        ToolType::FileInfo => n == 3,
        ToolType::TextStats => n == 3,
        ToolType::DirScan => 3 <= n <= 4,
        ToolType::FileSearch => n >= 3,
        ToolType::LogAnalyzer => n == 3,
        ToolType::Config => n >= 3,
        ToolType::HttpClient => n >= 3,
        ToolType::Network => n >= 3,
    }
}

/// The task that the words ask of `tool`. The first word is the program, the
/// second the tool, the third what the tool works on; options follow.
pub open spec fn tool_task(words: Seq<Seq<char>>, tool: ToolType) -> Result<Asked, Refused> {
    if !takes(tool, words.len() as int) {
        Err(refused(calling(words[0], tool)))
    } else {
        match tool {
            ToolType::FileInfo => Ok(Asked::FileInfo(words[2])),
            ToolType::TextStats => Ok(Asked::TextStats(words[2])),
            ToolType::DirScan => Ok(
                Asked::DirScan(
                    words[2],
                    if words.len() == 4 {
                        match number_within(words[3], usize::MAX as nat) {
                            Some(depth) => Some(depth as usize),
                            None => None,
                        }
                    } else {
                        None
                    },
                ),
            ),
            ToolType::FileSearch => match search_options(words, 3, no_criteria()) {
                Ok(criteria) => Ok(Asked::FileSearch(words[2], criteria)),
                Err(line) => Err(refused(line)),
            },
            ToolType::LogAnalyzer => Ok(Asked::LogAnalyzer(words[2])),
            ToolType::Config => config_task(words),
            ToolType::HttpClient => match http_options(
                words,
                3,
                HttpPlan { method: HttpMethod::GET, body: None, timeout_secs: 30 },
            ) {
                Ok(plan) => Ok(Asked::Http(planned_request(words[2], plan))),
                Err(line) => Err(refused(line)),
            },
            ToolType::Network => match network_options(words, 3, default_probing()) {
                Ok(probing) => Ok(Asked::Network(words[2], probing)),
                Err(line) => Err(refused(line)),
            },
        }
    }
}

/// The criteria that every file meets.
pub open spec fn no_criteria() -> Criteria {
    Criteria {
        name_pattern: None,
        extension: None,
        min_size: None,
        max_size: None,
        max_depth: None,
    }
}

/// What a command line asks. Without a command it asks nothing, and the help
/// page is due; `help` asks for the help page; the name of a tool asks that
/// tool; any other command is unknown.
pub open spec fn asked(words: Seq<Seq<char>>) -> Result<Asked, Refused> {
    if words.len() < 2 {
        Err(Refused { lines: Seq::empty(), usage: true })
    } else if words[1] == "help"@ {
        Ok(Asked::Usage)
    } else {
        match tool_named(words[1]) {
            Some(tool) => tool_task(words, tool),
            None => Err(Refused { lines: seq!["未知命令: "@ + words[1]], usage: true }),
        }
    }
}

/// Whether word `i` is `text`.
fn word_is(args: &Vec<String>, i: usize, text: &str) -> (b: bool)
    requires
        i < args.len(),
    ensures
        b == (words_of(args@)[i as int] == text@),
{
    spells(&chars_of(args[i].as_str()), text)
}

/// `start` followed by `rest`.
fn text_then(start: &str, rest: &str) -> (text: String)
    ensures
        text@ == start@ + rest@,
{
    let mut text = String::from_str(start);
    text.append(rest);
    text
}

/// The refusal that says `line`.
fn refuse<T>(line: String) -> (result: Result<T, Refusal>)
    ensures
        result matches Err(refusal) && refusal@ == refused(line@),
{
    let mut lines: Vec<String> = Vec::new();
    lines.push(line);
    let refusal = Refusal { lines, usage: false };
    assert(refusal@.lines == seq![line@]);
    Err(refusal)
}

/// The number that word `i` writes, if it is one of at most `limit`.
fn number_at(args: &Vec<String>, i: usize, limit: u64) -> (number: Option<u64>)
    requires
        i < args.len(),
    ensures
        match number {
            Some(n) => number_within(words_of(args@)[i as int], limit as nat) == Some(n as nat),
            None => number_within(words_of(args@)[i as int], limit as nat) is None,
        },
{
    parse_within(&chars_of(args[i].as_str()), limit)
}

/// The limits of size that `text` states.
fn read_size_range(text: &str) -> (range: (Option<u64>, Option<u64>))
    ensures
        range == size_range(text@),
{
    let chars = chars_of(text);
    let dash: usize = position_of(&chars, '-', 0);
    if dash < chars.len() {
        let min = parse_within(&copy_range(&chars, 0, dash), u64::MAX);
        let max = parse_within(&copy_range(&chars, dash + 1, chars.len()), u64::MAX);
        (min, max)
    } else {
        let size = parse_within(&chars, u64::MAX);
        (size, size)
    }
}

/// Reads the options of a search.
fn read_search_options(args: &Vec<String>) -> (result: Result<SearchCriteria, String>)
    requires
        args.len() >= 3,
    ensures
        match result {
            Ok(criteria) => search_options(words_of(args@), 3, no_criteria()) == Ok::<
                Criteria,
                Seq<char>,
            >(criteria@),
            Err(line) => search_options(words_of(args@), 3, no_criteria()) == Err::<
                Criteria,
                Seq<char>,
            >(line@),
        },
{
    let ghost words = words_of(args@);
    let mut criteria = SearchCriteria::new();
    let mut i: usize = 3;
    while i < args.len()
        invariant
            3 <= i <= args.len() + 1,
            words == words_of(args@),
            search_options(words, i as int, criteria@) == search_options(words, 3, no_criteria()),
        decreases args.len() + 1 - i,
    {
        if word_is(args, i, "--name") || word_is(args, i, "-n") {
            if i + 1 < args.len() {
                criteria = criteria.with_name_pattern(args[i + 1].clone());
                i += 2;
            } else {
                return Err(String::from_str("错误: --name 需要指定模式"));
            }
        } else if word_is(args, i, "--ext") || word_is(args, i, "-e") {
            if i + 1 < args.len() {
                criteria = criteria.with_extension(args[i + 1].clone());
                i += 2;
            } else {
                return Err(String::from_str("错误: --ext 需要指定扩展名"));
            }
        } else if word_is(args, i, "--size") {
            if i + 1 < args.len() {
                let range = read_size_range(args[i + 1].as_str());
                criteria = criteria.with_size_range(range.0, range.1);
                i += 2;
            } else {
                return Err(String::from_str("错误: --size 需要指定大小范围"));
            }
        } else if word_is(args, i, "--depth") || word_is(args, i, "-d") {
            if i + 1 < args.len() {
                match number_at(args, i + 1, usize::MAX as u64) {
                    Some(depth) => {
                        criteria = criteria.with_max_depth(depth as usize);
                        i += 2;
                    },
                    None => {
                        return Err(String::from_str("错误: --depth 需要指定数字"));
                    },
                }
            } else {
                return Err(String::from_str("错误: --depth 需要指定深度"));
            }
        } else {
            return Err(text_then("未知选项: ", args[i].as_str()));
        }
    }
    Ok(criteria)
}

/// Reads the options of an HTTP request to word 2.
fn read_http_options(args: &Vec<String>) -> (result: Result<HttpRequest, String>)
    requires
        args.len() >= 3,
    ensures
        match result {
            Ok(request) => http_options(
                words_of(args@),
                3,
                HttpPlan { method: HttpMethod::GET, body: None, timeout_secs: 30 },
            ) matches Ok(plan) && request@ == planned_request(words_of(args@)[2], plan),
            Err(line) => http_options(
                words_of(args@),
                3,
                HttpPlan { method: HttpMethod::GET, body: None, timeout_secs: 30 },
            ) == Err::<HttpPlan, Seq<char>>(line@),
        },
{
    let ghost words = words_of(args@);
    let ghost start = HttpPlan { method: HttpMethod::GET, body: None, timeout_secs: 30 };
    let mut method = HttpMethod::GET;
    let mut body: Option<String> = None;
    let mut timeout_secs: u64 = 30;
    let mut i: usize = 3;
    while i < args.len()
        invariant
            3 <= i <= args.len() + 1,
            words == words_of(args@),
            start == (HttpPlan { method: HttpMethod::GET, body: None, timeout_secs: 30 }),
            http_options(
                words,
                i as int,
                HttpPlan {
                    method,
                    body: match body {
                        Some(text) => Some(text@),
                        None => None,
                    },
                    timeout_secs,
                },
            ) == http_options(words, 3, start),
        decreases args.len() + 1 - i,
    {
        if word_is(args, i, "--method") || word_is(args, i, "-m") {
            if i + 1 < args.len() {
                match HttpMethod::parse(args[i + 1].as_str()) {
                    Some(m) => {
                        method = m;
                        i += 2;
                    },
                    None => {
                        return Err(text_then("错误: 无效的HTTP方法: ", args[i + 1].as_str()));
                    },
                }
            } else {
                return Err(String::from_str("错误: --method 需要指定方法"));
            }
        } else if word_is(args, i, "--body") || word_is(args, i, "-b") {
            if i + 1 < args.len() {
                body = Some(args[i + 1].clone());
                i += 2;
            } else {
                return Err(String::from_str("错误: --body 需要指定内容"));
            }
        } else if word_is(args, i, "--timeout") || word_is(args, i, "-t") {
            if i + 1 < args.len() {
                match number_at(args, i + 1, u64::MAX) {
                    Some(secs) => {
                        timeout_secs = secs;
                        i += 2;
                    },
                    None => {
                        return Err(String::from_str("错误: --timeout 需要指定秒数"));
                    },
                }
            } else {
                return Err(String::from_str("错误: --timeout 需要指定超时时间"));
            }
        } else {
            return Err(text_then("未知选项: ", args[i].as_str()));
        }
    }
    let request = HttpRequest::new(method, args[2].clone()).with_timeout(
        TimeLimit::from_secs(timeout_secs),
    );
    match body {
        Some(text) => Ok(request.with_body(text)),
        None => Ok(request),
    }
}

/// Reads the options of a network probe.
fn read_network_options(args: &Vec<String>) -> (result: Result<Probing, String>)
    requires
        args.len() >= 3,
    ensures
        match result {
            Ok(probing) => network_options(words_of(args@), 3, default_probing()) == Ok::<
                Probing,
                Seq<char>,
            >(probing),
            Err(line) => network_options(words_of(args@), 3, default_probing()) == Err::<
                Probing,
                Seq<char>,
            >(line@),
        },
{
    let ghost words = words_of(args@);
    let mut probing = Probing {
        operation: Operation::Connect,
        port: 80,
        start_port: 1,
        end_port: 1024,
        ping_count: 4,
    };
    let mut i: usize = 3;
    while i < args.len()
        invariant
            3 <= i <= args.len() + 2,
            words == words_of(args@),
            network_options(words, i as int, probing) == network_options(
                words,
                3,
                default_probing(),
            ),
        decreases args.len() + 2 - i,
    {
        if word_is(args, i, "--ping") || word_is(args, i, "-p") {
            probing.operation = Operation::Ping;
            i += 1;
        } else if word_is(args, i, "--port") {
            if i + 1 < args.len() {
                match number_at(args, i + 1, u16::MAX as u64) {
                    Some(port) => {
                        probing.port = port as u16;
                        i += 2;
                    },
                    None => {
                        return Err(String::from_str("错误: --port 需要指定端口号"));
                    },
                }
            } else {
                return Err(String::from_str("错误: --port 需要指定端口"));
            }
        } else if word_is(args, i, "--scan") {
            if args.len() - i > 2 {
                let start = number_at(args, i + 1, u16::MAX as u64);
                let end = number_at(args, i + 2, u16::MAX as u64);
                match (start, end) {
                    (Some(start), Some(end)) => {
                        probing.operation = Operation::Scan;
                        probing.start_port = start as u16;
                        probing.end_port = end as u16;
                        i += 3;
                    },
                    _ => {
                        return Err(String::from_str("错误: --scan 需要指定起始和结束端口"));
                    },
                }
            } else {
                return Err(String::from_str("错误: --scan 需要指定端口范围"));
            }
        } else if word_is(args, i, "--dns") {
            probing.operation = Operation::Dns;
            i += 1;
        } else if word_is(args, i, "--count") || word_is(args, i, "-c") {
            if i + 1 < args.len() {
                match number_at(args, i + 1, usize::MAX as u64) {
                    Some(count) => {
                        probing.ping_count = count as usize;
                        i += 2;
                    },
                    None => {
                        return Err(String::from_str("错误: --count 需要指定数字"));
                    },
                }
            } else {
                return Err(String::from_str("错误: --count 需要指定次数"));
            }
        } else {
            return Err(text_then("未知选项: ", args[i].as_str()));
        }
    }
    Ok(probing)
}

/// What the words behind `config` ask.
fn read_config_task(args: &Vec<String>) -> (result: Result<Task, Refusal>)
    requires
        args.len() >= 3,
    ensures
        outcome(result) == config_task(words_of(args@)),
{
    if args.len() == 3 {
        return Ok(Task::ConfigShow(args[2].clone()));
    }
    if word_is(args, 3, "get") {
        if args.len() == 5 {
            Ok(Task::ConfigGet(args[2].clone(), args[4].clone()))
        } else {
            refuse(String::from_str("使用方法: config <文件> get <键>"))
        }
    } else if word_is(args, 3, "set") {
        if args.len() == 6 {
            Ok(Task::ConfigSet(args[2].clone(), args[4].clone(), args[5].clone()))
        } else {
            refuse(String::from_str("使用方法: config <文件> set <键> <值>"))
        }
    } else {
        let mut lines: Vec<String> = Vec::new();
        lines.push(text_then("未知操作: ", args[3].as_str()));
        lines.push(String::from_str("可用操作: get, set"));
        let refusal = Refusal { lines, usage: false };
        assert(refusal@.lines == seq![
            "未知操作: "@ + words_of(args@)[3],
            "可用操作: get, set"@,
        ]);
        Err(refusal)
    }
}

/// The line that says how `tool` is called.
fn calling_line(program: &str, tool: ToolType) -> (line: String)
    ensures
        line@ == calling(program@, tool),
{
    let mut line = text_then("使用方法: ", program);
    line.append(
        match tool {
            ToolType::FileInfo => " fileinfo <文件路径>",
            ToolType::TextStats => " textstats <文件路径>",
            ToolType::DirScan => " dirscan <目录路径> [最大深度]",
            ToolType::FileSearch => " filesearch <目录路径> [选项]",
            ToolType::LogAnalyzer => " loganalyzer <日志文件>",
            ToolType::Config => " config <配置文件> [操作]",
            ToolType::HttpClient => " httpclient <URL> [选项]",
            ToolType::Network => " network <主机> [选项]",
        },
    );
    line
}

/// Whether `tool` takes `n` words.
fn takes_words(tool: ToolType, n: usize) -> (b: bool)
    ensures
        b == takes(tool, n as int),
{
    match tool {
        ToolType::FileInfo => n == 3,
        ToolType::TextStats => n == 3,
        ToolType::DirScan => 3 <= n && n <= 4,
        ToolType::FileSearch => n >= 3,
        ToolType::LogAnalyzer => n == 3,
        ToolType::Config => n >= 3,
        ToolType::HttpClient => n >= 3,
        ToolType::Network => n >= 3,
    }
}

/// The task that the words ask of `tool`.
fn read_tool_task(args: &Vec<String>, tool: ToolType) -> (result: Result<Task, Refusal>)
    requires
        args.len() >= 2,
    ensures
        outcome(result) == tool_task(words_of(args@), tool),
{
    if !takes_words(tool, args.len()) {
        return refuse(calling_line(args[0].as_str(), tool));
    }
    match tool {
        ToolType::FileInfo => Ok(Task::FileInfo(args[2].clone())),
        ToolType::TextStats => Ok(Task::TextStats(args[2].clone())),
        ToolType::DirScan => {
            let depth: Option<usize> = if args.len() == 4 {
                match number_at(args, 3, usize::MAX as u64) {
                    Some(depth) => Some(depth as usize),
                    None => None,
                }
            } else {
                None
            };
            Ok(Task::DirScan(args[2].clone(), depth))
        },
        ToolType::FileSearch => match read_search_options(args) {
            Ok(criteria) => Ok(Task::FileSearch(args[2].clone(), criteria)),
            Err(line) => refuse(line),
        },
        ToolType::LogAnalyzer => Ok(Task::LogAnalyzer(args[2].clone())),
        ToolType::Config => read_config_task(args),
        ToolType::HttpClient => match read_http_options(args) {
            Ok(request) => Ok(Task::Http(request)),
            Err(line) => refuse(line),
        },
        ToolType::Network => match read_network_options(args) {
            Ok(probing) => Ok(Task::Network(args[2].clone(), probing)),
            Err(line) => refuse(line),
        },
    }
}

/// What a command line asks. The first word is the program, the second the
/// command.
pub fn parse_args(args: &Vec<String>) -> (result: Result<Task, Refusal>)
    ensures
        outcome(result) == asked(words_of(args@)),
{
    if args.len() < 2 {
        let refusal = Refusal { lines: Vec::new(), usage: true };
        assert(refusal@.lines == Seq::<Seq<char>>::empty());
        return Err(refusal);
    }
    if word_is(args, 1, "help") {
        return Ok(Task::Usage);
    }
    match ToolType::parse(args[1].as_str()) {
        Some(tool) => read_tool_task(args, tool),
        None => {
            let mut lines: Vec<String> = Vec::new();
            lines.push(text_then("未知命令: ", args[1].as_str()));
            let refusal = Refusal { lines, usage: true };
            assert(refusal@.lines == seq!["未知命令: "@ + words_of(args@)[1]]);
            Err(refusal)
        },
    }
}

} // verus!
