//! The errors of the toolkit, with their messages.

use vstd::prelude::*;
use vstd::string::StringExecFns;

verus! {

/// Trusted: the type `std::io::Error`. A value of it is carried through;
/// nothing is known of what it holds.
#[verifier::external_type_specification]
#[verifier::external_body]
pub struct ExIoError(std::io::Error);

/// Trusted: the type `std::time::SystemTimeError`. A value of it is carried
/// through; nothing is known of what it holds.
#[verifier::external_type_specification]
#[verifier::external_body]
pub struct ExSystemTimeError(std::time::SystemTimeError);

/// Trusted: the text that `std::io::Error` shows for itself (`to_string`).
/// Nothing is claimed of the text.
#[verifier::external_body]
fn io_error_text(e: &std::io::Error) -> String {
    e.to_string()
}

/// Trusted: the text that `std::time::SystemTimeError` shows for itself
/// (`to_string`). Nothing is claimed of the text.
#[verifier::external_body]
fn time_error_text(e: &std::time::SystemTimeError) -> String {
    e.to_string()
}

/// What can go wrong in a tool.
#[derive(Debug)]
pub enum RtoolsError {
    FileNotFound(String),
    DirectoryNotFound(String),
    NotADirectory(String),
    NotAFile(String),
    PermissionDenied(String),
    IoError(std::io::Error),
    TimeError(std::time::SystemTimeError),
    ParseError(String),
    InvalidArgument(String),
    ConfigError(String),
    NetworkError(String),
}

/// The result of a tool.
pub type RtoolsResult<T> = Result<T, RtoolsError>;

impl RtoolsError {
    /// What the message of this error starts with: its kind.
    pub open spec fn prefix(&self) -> Seq<char> {
        match self {
            RtoolsError::FileNotFound(_) => "文件不存在: "@,
            RtoolsError::DirectoryNotFound(_) => "目录不存在: "@,
            RtoolsError::NotADirectory(_) => "路径不是目录: "@,
            RtoolsError::NotAFile(_) => "文件不是文件: "@,
            RtoolsError::PermissionDenied(_) => "权限不足: "@,
            RtoolsError::IoError(_) => "IO错误: "@,
            RtoolsError::TimeError(_) => "时间错误: "@,
            RtoolsError::ParseError(_) => "解析错误: "@,
            RtoolsError::InvalidArgument(_) => "无效参数: "@,
            RtoolsError::ConfigError(_) => "配置错误: "@,
            RtoolsError::NetworkError(_) => "网络错误: "@,
        }
    }

    /// The detail that this error carries as text, where it carries one.
    pub open spec fn detail(&self) -> Option<Seq<char>> {
        match self {
            RtoolsError::FileNotFound(d) => Some(d@),
            RtoolsError::DirectoryNotFound(d) => Some(d@),
            RtoolsError::NotADirectory(d) => Some(d@),
            RtoolsError::NotAFile(d) => Some(d@),
            RtoolsError::PermissionDenied(d) => Some(d@),
            RtoolsError::IoError(_) => None,
            RtoolsError::TimeError(_) => None,
            RtoolsError::ParseError(d) => Some(d@),
            RtoolsError::InvalidArgument(d) => Some(d@),
            RtoolsError::ConfigError(d) => Some(d@),
            RtoolsError::NetworkError(d) => Some(d@),
        }
    }

    /// `prefix` followed by `detail`.
    fn compose(prefix: &str, detail: &str) -> (text: String)
        ensures
            text@ == prefix@ + detail@,
    {
        let mut text = String::from_str(prefix);
        text.append(detail);
        text
    }

    /// The message of this error: its kind, then its detail. Of an error that
    /// wraps one of the standard library, the detail is what that error shows.
    pub fn message(&self) -> (text: String)
        ensures
            match self.detail() {
                Some(d) => text@ == self.prefix() + d,
                None => text@.len() >= self.prefix().len() && text@.subrange(
                    0,
                    self.prefix().len() as int,
                ) == self.prefix(),
            },
    {
        match self {
            RtoolsError::FileNotFound(d) => Self::compose("文件不存在: ", d.as_str()),
            RtoolsError::DirectoryNotFound(d) => Self::compose("目录不存在: ", d.as_str()),
            RtoolsError::NotADirectory(d) => Self::compose("路径不是目录: ", d.as_str()),
            RtoolsError::NotAFile(d) => Self::compose("文件不是文件: ", d.as_str()),
            RtoolsError::PermissionDenied(d) => Self::compose("权限不足: ", d.as_str()),
            RtoolsError::IoError(e) => {
                let shown = io_error_text(e);
                let text = Self::compose("IO错误: ", shown.as_str());
                assert(text@.subrange(0, "IO错误: "@.len() as int) == "IO错误: "@);
                text
            },
            RtoolsError::TimeError(e) => {
                let shown = time_error_text(e);
                let text = Self::compose("时间错误: ", shown.as_str());
                assert(text@.subrange(0, "时间错误: "@.len() as int) == "时间错误: "@);
                text
            },
            RtoolsError::ParseError(d) => Self::compose("解析错误: ", d.as_str()),
            RtoolsError::InvalidArgument(d) => Self::compose("无效参数: ", d.as_str()),
            RtoolsError::ConfigError(d) => Self::compose("配置错误: ", d.as_str()),
            RtoolsError::NetworkError(d) => Self::compose("网络错误: ", d.as_str()),
        }
    }
}

impl From<std::io::Error> for RtoolsError {
    fn from(e: std::io::Error) -> (err: RtoolsError) {
        RtoolsError::IoError(e)
    }
}

impl vstd::std_specs::convert::FromSpecImpl<std::io::Error> for RtoolsError {
    open spec fn obeys_from_spec() -> bool {
        true
    }

    open spec fn from_spec(e: std::io::Error) -> RtoolsError {
        RtoolsError::IoError(e)
    }
}

impl From<std::time::SystemTimeError> for RtoolsError {
    fn from(e: std::time::SystemTimeError) -> (err: RtoolsError) {
        RtoolsError::TimeError(e)
    }
}

impl vstd::std_specs::convert::FromSpecImpl<std::time::SystemTimeError> for RtoolsError {
    open spec fn obeys_from_spec() -> bool {
        true
    }

    open spec fn from_spec(e: std::time::SystemTimeError) -> RtoolsError {
        RtoolsError::TimeError(e)
    }
}

} // verus!
