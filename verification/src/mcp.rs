//! A Model Context Protocol server run as a child process: what its output
//! lines become, and what its failures say. Running the child and reading
//! its pipes is the host's work.
use vstd::prelude::*;
use crate::text::{push_str, string_of, trim, trim_str};

verus! {

/// A server that could not be started.
pub fn spawn_failed(name: &str, e: &str) -> (r: String)
    ensures
        r@ == "Failed to spawn MCP server '"@ + name@ + "': "@ + e@,
{
    let mut b: Vec<char> = Vec::new();
    push_str(&mut b, "Failed to spawn MCP server '");
    push_str(&mut b, name);
    push_str(&mut b, "': ");
    push_str(&mut b, e);
    string_of(b.as_slice())
}

/// A pipe of the server that could not be opened (`stdin`, `stdout` or
/// `stderr`).
pub fn pipe_failed(pipe: &str) -> (r: String)
    ensures
        r@ == "Failed to open MCP "@ + pipe@,
{
    let mut b: Vec<char> = Vec::new();
    push_str(&mut b, "Failed to open MCP ");
    push_str(&mut b, pipe);
    string_of(b.as_slice())
}

/// A line the server wrote to its standard output: the message it carries,
/// trimmed; none for a blank line.
pub fn response_message(line: &str) -> (r: Option<String>)
    ensures
        trim(line@).len() == 0 ==> r is None,
        trim(line@).len() > 0 ==> (r matches Some(m) && m@ == trim(line@)),
{
    let m = trim_str(line);
    if m.unicode_len() == 0 {
        None
    } else {
        Some(m)
    }
}

/// A line the server wrote to its standard error, as the host reports it.
pub fn error_line(name: &str, line: &str) -> (r: String)
    ensures
        r@ == "[MCP ERROR - "@ + name@ + "] "@ + trim(line@),
{
    let mut b: Vec<char> = Vec::new();
    push_str(&mut b, "[MCP ERROR - ");
    push_str(&mut b, name);
    push_str(&mut b, "] ");
    let t = trim_str(line);
    push_str(&mut b, t.as_str());
    string_of(b.as_slice())
}

/// The step at which sending a message failed.
pub enum SendStep {
    Write,
    Flush,
}

/// A message that could not be sent to the server.
pub fn send_failed(step: SendStep, e: &str) -> (r: String)
    ensures
        match step {
            SendStep::Write => r@ == "Failed to write to MCP stdin: "@ + e@,
            SendStep::Flush => r@ == "Failed to flush MCP stdin: "@ + e@,
        },
{
    let mut b: Vec<char> = Vec::new();
    match step {
        SendStep::Write => push_str(&mut b, "Failed to write to MCP stdin: "),
        SendStep::Flush => push_str(&mut b, "Failed to flush MCP stdin: "),
    }
    push_str(&mut b, e);
    string_of(b.as_slice())
}

} // verus!
