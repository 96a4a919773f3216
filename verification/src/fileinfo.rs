//! The description of one file: its name, path, size, kind, extension and
//! time of change, as text.
//!
//! Looking the file up is left to the caller, who hands over what was found.

use crate::error::{RtoolsError, RtoolsResult};
use crate::number::{decimal, decimal_text};
use crate::text::string_from_chars;
use vstd::prelude::*;
use vstd::string::StringExecFns;

verus! {

/// What was found out about a file.
#[derive(Debug)]
pub struct FileFacts {
    /// The name, where the path has one that is text.
    pub name: Option<String>,
    /// The extension, where the path has one that is text.
    pub extension: Option<String>,
    pub size: u64,
    pub is_file: bool,
    pub is_dir: bool,
    /// The time of the last change, in seconds since 1970-01-01 00:00:00 UTC.
    pub modified_secs: u64,
}

/// The model of [`FileFacts`].
pub struct Facts {
    pub name: Option<Seq<char>>,
    pub extension: Option<Seq<char>>,
    pub size: u64,
    pub is_file: bool,
    pub is_dir: bool,
    pub modified_secs: u64,
}

impl View for FileFacts {
    type V = Facts;

    open spec fn view(&self) -> Facts {
        Facts {
            name: match self.name {
                Some(text) => Some(text@),
                None => None,
            },
            extension: match self.extension {
                Some(text) => Some(text@),
                None => None,
            },
            size: self.size,
            is_file: self.is_file,
            is_dir: self.is_dir,
            modified_secs: self.modified_secs,
        }
    }
}

/// The word for the kind of an entry.
pub open spec fn kind_word(facts: Facts) -> Seq<char> {
    if facts.is_file {
        "文件"@
    } else if facts.is_dir {
        "目录"@
    } else {
        "其他"@
    }
}

/// The description of a file: six lines under a heading. A file without a
/// name or an extension that is text is described as having none.
pub open spec fn description(path: Seq<char>, facts: Facts) -> Seq<char> {
    "文件信息:\n- 名称: "@ + (match facts.name {
        Some(name) => name,
        None => "未知文件名"@,
    }) + "\n- 路径: "@ + path + "\n- 大小: "@ + decimal_text(facts.size as nat) + " 字节\n- 类型: "@
        + kind_word(facts) + "\n- 扩展名: "@ + (match facts.extension {
        Some(ext) => ext,
        None => "无扩展名"@,
    }) + "\n- 修改时间: "@ + decimal_text(facts.modified_secs as nat)
}

/// The description of the file at `path`. `facts` holds what was found there;
/// where nothing stands at the path, there are none, and the result is an
/// error that names the path.
pub fn get_file_info(path: &str, facts: Option<&FileFacts>) -> (result: RtoolsResult<String>)
    ensures
        match result {
            Ok(info) => facts matches Some(f) && info@ == description(path@, f@),
            Err(RtoolsError::FileNotFound(missing)) => facts is None && missing@ == path@,
            Err(_) => false,
        },
{
    let found = match facts {
        Some(found) => found,
        None => {
            return Err(RtoolsError::FileNotFound(path.to_owned()));
        },
    };
    let mut info = String::from_str("文件信息:\n- 名称: ");
    match &found.name {
        Some(name) => info.append(name.as_str()),
        None => info.append("未知文件名"),
    }
    info.append("\n- 路径: ");
    info.append(path);
    info.append("\n- 大小: ");
    info.append(string_from_chars(&decimal(found.size as u128)).as_str());
    info.append(" 字节\n- 类型: ");
    if found.is_file {
        info.append("文件");
    } else if found.is_dir {
        info.append("目录");
    } else {
        info.append("其他");
    }
    info.append("\n- 扩展名: ");
    match &found.extension {
        Some(ext) => info.append(ext.as_str()),
        None => info.append("无扩展名"),
    }
    info.append("\n- 修改时间: ");
    info.append(string_from_chars(&decimal(found.modified_secs as u128)).as_str());
    Ok(info)
}

} // verus!
