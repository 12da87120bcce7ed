//! Server startup messages.
use vstd::prelude::*;
use crate::text::{push_str, string_from_chars};

verus! {

#[verifier::external_type_specification]
#[verifier::external_body]
pub struct ExIoError(std::io::Error);

/// The text of an I/O error (`Display` of `std::io::Error`); it depends on
/// the platform's messages, so nothing is stated of it.
#[verifier::external_body]
fn io_error_text(e: &std::io::Error) -> (s: String) {
    e.to_string()
}

/// The message for a failed bind of the HTTP bridge to `bind_addr`, given
/// the error's text.
pub open spec fn bind_error_text(bind_addr: Seq<char>, error: Seq<char>) -> Seq<char> {
    "Failed to bind HTTP bridge to "@ + bind_addr + ": "@ + error
        + ". Studio plugin communication will be unavailable. Ensure the port is not in use, or set ROBLOX_MCP_PORT to a different port."@
}

/// The message for a failed bind, from the error's text.
pub fn bind_error_message(bind_addr: &str, error: &str) -> (s: String)
    ensures
        s@ == bind_error_text(bind_addr@, error@),
{
    let mut v: Vec<char> = Vec::new();
    push_str(&mut v, "Failed to bind HTTP bridge to ");
    push_str(&mut v, bind_addr);
    push_str(&mut v, ": ");
    push_str(&mut v, error);
    push_str(
        &mut v,
        ". Studio plugin communication will be unavailable. Ensure the port is not in use, or set ROBLOX_MCP_PORT to a different port.",
    );
    string_from_chars(&v)
}

/// Format an error message for bind failures.
pub fn format_bind_error(bind_addr: &str, error: &std::io::Error) -> (s: String)
    ensures
        exists|t: Seq<char>| s@ == bind_error_text(bind_addr@, t),
{
    let text = io_error_text(error);
    bind_error_message(bind_addr, text.as_str())
}

/// The lines logged when the server starts, for a project root displayed as
/// `project_root`.
pub fn startup_messages(project_root: &str) -> (r: Vec<String>)
    ensures
        r@.len() == 2,
        r@[0]@ == "Roblox Studio MCP Server starting..."@,
        r@[1]@ == "Project root: "@ + project_root@,
{
    let mut out: Vec<String> = Vec::new();
    out.push(String::from_str("Roblox Studio MCP Server starting..."));
    let mut v: Vec<char> = Vec::new();
    push_str(&mut v, "Project root: ");
    push_str(&mut v, project_root);
    out.push(string_from_chars(&v));
    out
}

} // verus!
