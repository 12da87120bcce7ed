//! The library's error type and the text each error reads as.

use vstd::prelude::*;
use crate::text::{contains_seq, decimal, decimal_exec, push_chars, push_str, str_contains, string_from_chars};

verus! {

/// Errors reported by the server's tools.
#[derive(Debug, Clone)]
pub enum RobloxMcpError {
    ConfigError(String),
    InvalidPath(String),
    PathTraversal(String),
    SecurityViolation(String),
    FileSystemError { operation: String, path: String, source: String },
    ToolNotInstalled { tool: String, install_hint: String },
    ToolExecutionError { tool: String, message: String },
    WatcherError(String),
}

/// An error as plain values: its variant and its texts.
pub enum ErrorModel {
    ConfigError(Seq<char>),
    InvalidPath(Seq<char>),
    PathTraversal(Seq<char>),
    SecurityViolation(Seq<char>),
    FileSystemError { operation: Seq<char>, path: Seq<char>, source: Seq<char> },
    ToolNotInstalled { tool: Seq<char>, install_hint: Seq<char> },
    ToolExecutionError { tool: Seq<char>, message: Seq<char> },
    WatcherError(Seq<char>),
}

impl View for RobloxMcpError {
    type V = ErrorModel;

    open spec fn view(&self) -> ErrorModel {
        match *self {
            RobloxMcpError::ConfigError(m) => ErrorModel::ConfigError(m@),
            RobloxMcpError::InvalidPath(m) => ErrorModel::InvalidPath(m@),
            RobloxMcpError::PathTraversal(m) => ErrorModel::PathTraversal(m@),
            RobloxMcpError::SecurityViolation(m) => ErrorModel::SecurityViolation(m@),
            RobloxMcpError::FileSystemError { operation, path, source } => ErrorModel::FileSystemError {
                operation: operation@,
                path: path@,
                source: source@,
            },
            RobloxMcpError::ToolNotInstalled { tool, install_hint } => ErrorModel::ToolNotInstalled {
                tool: tool@,
                install_hint: install_hint@,
            },
            RobloxMcpError::ToolExecutionError { tool, message } => ErrorModel::ToolExecutionError {
                tool: tool@,
                message: message@,
            },
            RobloxMcpError::WatcherError(m) => ErrorModel::WatcherError(m@),
        }
    }
}

/// The text an error reads as.
pub open spec fn error_text(e: RobloxMcpError) -> Seq<char> {
    match e {
        RobloxMcpError::ConfigError(m) => "Configuration error: "@ + m@,
        RobloxMcpError::InvalidPath(m) => "Invalid path: "@ + m@,
        RobloxMcpError::PathTraversal(m) => "Path traversal detected: "@ + m@,
        RobloxMcpError::SecurityViolation(m) => "Security violation: "@ + m@,
        RobloxMcpError::FileSystemError { operation, path, source } => "File system error during "@
            + operation@ + " on "@ + path@ + ": "@ + source@,
        RobloxMcpError::ToolNotInstalled { tool, install_hint } => "Tool not installed: "@ + tool@
            + ". "@ + install_hint@,
        RobloxMcpError::ToolExecutionError { tool, message } => "Tool execution failed ("@ + tool@
            + "): "@ + message@,
        RobloxMcpError::WatcherError(m) => "File watcher error: "@ + m@,
    }
}

impl RobloxMcpError {
    /// The error's text (what `Display` would print).
    pub fn message(&self) -> (s: String)
        ensures
            s@ == error_text(*self),
    {
        let mut v: Vec<char> = Vec::new();
        match self {
            RobloxMcpError::ConfigError(m) => {
                push_str(&mut v, "Configuration error: ");
                push_str(&mut v, m.as_str());
            },
            RobloxMcpError::InvalidPath(m) => {
                push_str(&mut v, "Invalid path: ");
                push_str(&mut v, m.as_str());
            },
            RobloxMcpError::PathTraversal(m) => {
                push_str(&mut v, "Path traversal detected: ");
                push_str(&mut v, m.as_str());
            },
            RobloxMcpError::SecurityViolation(m) => {
                push_str(&mut v, "Security violation: ");
                push_str(&mut v, m.as_str());
            },
            RobloxMcpError::FileSystemError { operation, path, source } => {
                push_str(&mut v, "File system error during ");
                push_str(&mut v, operation.as_str());
                push_str(&mut v, " on ");
                push_str(&mut v, path.as_str());
                push_str(&mut v, ": ");
                push_str(&mut v, source.as_str());
            },
            RobloxMcpError::ToolNotInstalled { tool, install_hint } => {
                push_str(&mut v, "Tool not installed: ");
                push_str(&mut v, tool.as_str());
                push_str(&mut v, ". ");
                push_str(&mut v, install_hint.as_str());
            },
            RobloxMcpError::ToolExecutionError { tool, message } => {
                push_str(&mut v, "Tool execution failed (");
                push_str(&mut v, tool.as_str());
                push_str(&mut v, "): ");
                push_str(&mut v, message.as_str());
            },
            RobloxMcpError::WatcherError(m) => {
                push_str(&mut v, "File watcher error: ");
                push_str(&mut v, m.as_str());
            },
        }
        string_from_chars(&v)
    }
}

/// Whether an error reports a timeout (its text mentions "timed out").
pub open spec fn is_timeout_error(e: RobloxMcpError) -> bool {
    contains_seq(error_text(e), "timed out"@)
}

/// How a runner reports a failure to launch its tool: a timeout is passed on,
/// any other failure is read as the tool not being installed.

pub fn map_launch_error(e: RobloxMcpError, tool: &str, hint: &str) -> (r: RobloxMcpError)
    ensures
        is_timeout_error(e) ==> r == e,
        !is_timeout_error(e) ==> (r matches RobloxMcpError::ToolNotInstalled { tool: t, install_hint: h }
            && t@ == tool@ && h@ == hint@),
{
    let text = e.message();
    if str_contains(text.as_str(), "timed out") {
        e
    } else {
        RobloxMcpError::ToolNotInstalled {
            tool: String::from_str(tool),
            install_hint: String::from_str(hint),
        }
    }
}

/// The error `execute_with_timeout` reports when the tool outlives its time limit.
pub fn timeout_error(tool: &str, secs: u64) -> (r: RobloxMcpError)
    ensures
        r matches RobloxMcpError::ToolExecutionError { tool: t, message: m } && t@ == tool@
            && m@ == "Tool execution timed out after "@ + decimal(secs as nat)
            + " seconds. The tool may be hanging or processing very large input."@,
{
    let mut v: Vec<char> = Vec::new();
    push_str(&mut v, "Tool execution timed out after ");
    let d = decimal_exec(secs as u128);
    push_chars(&mut v, &d);
    push_str(&mut v, " seconds. The tool may be hanging or processing very large input.");
    RobloxMcpError::ToolExecutionError { tool: String::from_str(tool), message: string_from_chars(&v) }
}

/// The error `execute_with_timeout` reports when the tool cannot be started.
pub fn launch_error(tool: &str, cause: &str) -> (r: RobloxMcpError)
    ensures
        r matches RobloxMcpError::ToolExecutionError { tool: t, message: m } && t@ == tool@
            && m@ == "Failed to execute: "@ + cause@,
{
    let mut v: Vec<char> = Vec::new();
    push_str(&mut v, "Failed to execute: ");
    push_str(&mut v, cause);
    RobloxMcpError::ToolExecutionError { tool: String::from_str(tool), message: string_from_chars(&v) }
}

} // verus!
