//! The tools of the toolkit, by name, with their help texts.

use crate::text::{chars_of, spells};
use vstd::prelude::*;
use vstd::string::StringExecFns;

verus! {

/// One of the tools.
#[derive(Debug, Clone, Copy, PartialEq, Eq, Structural)]
pub enum ToolType {
    FileInfo,
    TextStats,
    DirScan,
    FileSearch,
    LogAnalyzer,
    Config,
    HttpClient,
    Network,
}

/// The tool that the command `name` calls.
pub open spec fn tool_named(name: Seq<char>) -> Option<ToolType> {
    if name == "fileinfo"@ {
        Some(ToolType::FileInfo)
    } else if name == "textstats"@ {
        Some(ToolType::TextStats)
    } else if name == "dirscan"@ {
        Some(ToolType::DirScan)
    } else if name == "filesearch"@ {
        Some(ToolType::FileSearch)
    } else if name == "loganalyzer"@ {
        Some(ToolType::LogAnalyzer)
    } else if name == "config"@ {
        Some(ToolType::Config)
    } else if name == "httpclient"@ {
        Some(ToolType::HttpClient)
    } else if name == "network"@ {
        Some(ToolType::Network)
    } else {
        None
    }
}

/// All tools, in the order of the help page.
pub open spec fn all_tools() -> Seq<ToolType> {
    seq![
        ToolType::FileInfo,
        ToolType::TextStats,
        ToolType::DirScan,
        ToolType::FileSearch,
        ToolType::LogAnalyzer,
        ToolType::Config,
        ToolType::HttpClient,
        ToolType::Network,
    ]
}

impl ToolType {
    /// The line of the help page for this tool.
    pub open spec fn spec_help_text(&self) -> Seq<char> {
        match self {
            ToolType::FileInfo => "fileinfo <文件路径>   - 显示文件信息"@,
            ToolType::TextStats => "textstats <文件路径>  - 分析文本文件统计信息"@,
            ToolType::DirScan => "dirscan <目录路径> [深度] - 扫描目录统计信息"@,
            ToolType::FileSearch => "filesearch <目录路径> [选项] - 搜索文件"@,
            ToolType::LogAnalyzer => "loganalyzer <日志文件> - 分析日志文件"@,
            ToolType::Config => "config <配置文件> - 管理配置文件"@,
            ToolType::HttpClient => "httpclient <URL> [选项] - HTTP客户端工具"@,
            ToolType::Network => "network <主机> [选项] - 网络连接测试工具"@,
        }
    }

    /// An example of a call of this tool.
    pub open spec fn spec_usage_example(&self) -> Seq<char> {
        match self {
            ToolType::FileInfo => "rtools fileinfo src/main.rs"@,
            ToolType::TextStats => "rtools textstats src/main.rs"@,
            ToolType::DirScan => "rtools dirscan src/ 2"@,
            ToolType::FileSearch => "rtools filesearch src/ --ext rs"@,
            ToolType::LogAnalyzer => "rtools loganalyzer app.log"@,
            ToolType::Config => "rtools config config.json"@,
            ToolType::HttpClient => "rtools httpclient https://api.github.com"@,
            ToolType::Network => "rtools network google.com --ping"@,
        }
    }

    /// The tool that the command `s` calls, if it calls one.
    pub fn parse(s: &str) -> (tool: Option<ToolType>)
        ensures
            tool == tool_named(s@),
    {
        let name = chars_of(s);
        if spells(&name, "fileinfo") {
            Some(ToolType::FileInfo)
        } else if spells(&name, "textstats") {
            Some(ToolType::TextStats)
        } else if spells(&name, "dirscan") {
            Some(ToolType::DirScan)
        } else if spells(&name, "filesearch") {
            Some(ToolType::FileSearch)
        } else if spells(&name, "loganalyzer") {
            Some(ToolType::LogAnalyzer)
        } else if spells(&name, "config") {
            Some(ToolType::Config)
        } else if spells(&name, "httpclient") {
            Some(ToolType::HttpClient)
        } else if spells(&name, "network") {
            Some(ToolType::Network)
        } else {
            None
        }
    }

    /// The line of the help page for this tool.
    pub fn help_text(&self) -> (text: &'static str)
        ensures
            text@ == self.spec_help_text(),
    {
        match self {
            ToolType::FileInfo => "fileinfo <文件路径>   - 显示文件信息",
            ToolType::TextStats => "textstats <文件路径>  - 分析文本文件统计信息",
            ToolType::DirScan => "dirscan <目录路径> [深度] - 扫描目录统计信息",
            ToolType::FileSearch => "filesearch <目录路径> [选项] - 搜索文件",
            ToolType::LogAnalyzer => "loganalyzer <日志文件> - 分析日志文件",
            ToolType::Config => "config <配置文件> - 管理配置文件",
            ToolType::HttpClient => "httpclient <URL> [选项] - HTTP客户端工具",
            ToolType::Network => "network <主机> [选项] - 网络连接测试工具",
        }
    }

    /// An example of a call of this tool.
    pub fn usage_example(&self) -> (text: &'static str)
        ensures
            text@ == self.spec_usage_example(),
    {
        match self {
            ToolType::FileInfo => "rtools fileinfo src/main.rs",
            ToolType::TextStats => "rtools textstats src/main.rs",
            ToolType::DirScan => "rtools dirscan src/ 2",
            ToolType::FileSearch => "rtools filesearch src/ --ext rs",
            ToolType::LogAnalyzer => "rtools loganalyzer app.log",
            ToolType::Config => "rtools config config.json",
            ToolType::HttpClient => "rtools httpclient https://api.github.com",
            ToolType::Network => "rtools network google.com --ping",
        }
    }
}

/// The help lines of `tools`: for each, two spaces, its help text and a line
/// feed.
pub open spec fn help_lines(tools: Seq<ToolType>) -> Seq<char>
    decreases tools.len(),
{
    if tools.len() == 0 {
        Seq::empty()
    } else {
        help_lines(tools.drop_last()) + "  "@ + tools.last().spec_help_text() + "\n"@
    }
}

/// The example lines of `tools`: for each, two spaces, its example and a line
/// feed.
pub open spec fn usage_lines(tools: Seq<ToolType>) -> Seq<char>
    decreases tools.len(),
{
    if tools.len() == 0 {
        Seq::empty()
    } else {
        usage_lines(tools.drop_last()) + "  "@ + tools.last().spec_usage_example() + "\n"@
    }
}

/// The help page: a heading, the help line of each tool and of `help`, and an
/// example for each tool.
pub open spec fn help_page() -> Seq<char> {
    "Rust工具集 (rtools)\n\n可用命令:\n"@ + help_lines(all_tools())
        + "  help                 - 显示此帮助信息\n\n"@ + "示例:\n"@ + usage_lines(all_tools())
}

/// All tools, in the order of the help page.
fn tools() -> (list: Vec<ToolType>)
    ensures
        list@ == all_tools(),
{
    let mut list: Vec<ToolType> = Vec::new();
    list.push(ToolType::FileInfo);
    list.push(ToolType::TextStats);
    list.push(ToolType::DirScan);
    list.push(ToolType::FileSearch);
    list.push(ToolType::LogAnalyzer);
    list.push(ToolType::Config);
    list.push(ToolType::HttpClient);
    list.push(ToolType::Network);
    assert(list@ =~= all_tools());
    list
}

/// The help page of the toolkit.
pub fn get_help_text() -> (help: String)
    ensures
        help@ == help_page(),
{
    let list = tools();
    let mut help = String::from_str("Rust工具集 (rtools)\n\n可用命令:\n");
    let ghost head = help@;
    let mut i: usize = 0;
    while i < list.len()
        invariant
            i <= list.len(),
            help@ == head + help_lines(list@.take(i as int)),
        decreases list.len() - i,
    {
        proof {
            assert(list@.take(i + 1).drop_last() == list@.take(i as int));
            assert(list@.take(i + 1).last() == list@[i as int]);
        }
        let ghost before = help@;
        help.append("  ");
        help.append(list[i].help_text());
        help.append("\n");
        assert(help@ == before + "  "@ + list@[i as int].spec_help_text() + "\n"@);
        assert(help@ == head + help_lines(list@.take(i + 1)));
        i += 1;
    }
    assert(list@.take(i as int) == list@);
    help.append("  help                 - 显示此帮助信息\n\n");
    help.append("示例:\n");
    let ghost middle = help@;
    let mut j: usize = 0;
    while j < list.len()
        invariant
            j <= list.len(),
            help@ == middle + usage_lines(list@.take(j as int)),
        decreases list.len() - j,
    {
        proof {
            assert(list@.take(j + 1).drop_last() == list@.take(j as int));
            assert(list@.take(j + 1).last() == list@[j as int]);
        }
        let ghost before = help@;
        help.append("  ");
        help.append(list[j].usage_example());
        help.append("\n");
        assert(help@ == before + "  "@ + list@[j as int].spec_usage_example() + "\n"@);
        assert(help@ == middle + usage_lines(list@.take(j + 1)));
        j += 1;
    }
    assert(list@.take(j as int) == list@);
    help
}

} // verus!
