//! A toolkit for files, text and logs. Its core is the analysis of log text:
//! see [`loganalyzer`].
//!
//! The library works on values in memory. Reading files, walking directories
//! and talking to the network are left to the caller, who hands over what was
//! read and gets back what it amounts to.

pub mod cli;
pub mod config;
pub mod dirscan;
pub mod error;
pub mod fields;
pub mod fileinfo;
pub mod filesearch;
pub mod httpclient;
pub mod loganalyzer;
pub mod network;
pub mod number;
pub mod tally;
pub mod text;
pub mod textstats;
pub mod theorems;
pub mod timestamp;
pub mod tool;

pub use dirscan::{scan_directory, DirectoryStats};
pub use error::{RtoolsError, RtoolsResult};
pub use fileinfo::get_file_info;
pub use filesearch::{search_files, SearchCriteria, SearchResult};
pub use httpclient::{HttpMethod, HttpRequest, HttpResponse};
pub use loganalyzer::{analyze, analyze_log_file, LogAnalysis};
pub use network::{ConnectivityResult, DnsResult, PortScanResult};
pub use textstats::{analyze_file as analyze_text_file, TextStats};
pub use tool::{get_help_text, ToolType};
