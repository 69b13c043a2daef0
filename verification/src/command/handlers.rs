//! What the built-in commands answer, given what the session holds, and
//! how a line typed at the prompt is told apart: a shell command, a
//! built-in command, a template command, or a task.
use vstd::prelude::*;
use crate::command::registry::{CommandParser, CommandResult, ParsedCommand, parse_spec, split_slash, split_slash_spec};
use crate::orchestrator::TokenUsage;
use crate::text::{chars_of, decimal, decimal_text, owned, push_str, slice_chars, string_of, trim, trim_str};

verus! {

/// `Session ID`, the graph's size and tip, and the token counts.
pub open spec fn status_spec(session_id: Seq<char>, prompt: nat, completion: nat, total_nodes: nat, current: Option<Seq<char>>) -> Seq<char> {
    "Session ID: "@ + session_id + "\n"@ + "Total DAG Nodes: "@ + decimal(total_nodes) + "\nCurrent DAG Node: "@
        + match current {
        Some(c) => c,
        None => "None"@,
    } + "\n"@ + "Token Usage: Prompt: "@ + decimal(prompt) + ", Completion: "@ + decimal(completion)
        + ", Total: "@ + decimal(prompt + completion)
}

/// The status report of a session.
pub fn status_text(session_id: &str, usage: &TokenUsage, total_nodes: usize, current: Option<&str>) -> (r: String)
    requires
        usage.prompt_tokens + usage.completion_tokens <= u32::MAX,
    ensures
        r@ == status_spec(
            session_id@,
            usage.prompt_tokens as nat,
            usage.completion_tokens as nat,
            total_nodes as nat,
            match current {
                Some(c) => Some(c@),
                None => None,
            },
        ),
{
    let prompt = usage.prompt_tokens;
    let completion = usage.completion_tokens;
    let total = prompt + completion;
    let mut b: Vec<char> = Vec::new();
    push_str(&mut b, "Session ID: ");
    push_str(&mut b, session_id);
    push_str(&mut b, "\n");
    push_str(&mut b, "Total DAG Nodes: ");
    let n = decimal_text(total_nodes as u128);
    push_str(&mut b, n.as_str());
    push_str(&mut b, "\nCurrent DAG Node: ");
    match current {
        Some(c) => push_str(&mut b, c),
        None => push_str(&mut b, "None"),
    }
    push_str(&mut b, "\n");
    push_str(&mut b, "Token Usage: Prompt: ");
    let p = decimal_text(prompt as u128);
    push_str(&mut b, p.as_str());
    push_str(&mut b, ", Completion: ");
    let c = decimal_text(completion as u128);
    push_str(&mut b, c.as_str());
    push_str(&mut b, ", Total: ");
    let t = decimal_text(total as u128);
    push_str(&mut b, t.as_str());
    string_of(b.as_slice())
}

/// `/session`: the session's ID.
pub fn session_text(session_id: &str) -> (r: String)
    ensures
        r@ == "Current session: "@ + session_id@,
{
    let mut b: Vec<char> = Vec::new();
    push_str(&mut b, "Current session: ");
    push_str(&mut b, session_id);
    string_of(b.as_slice())
}

/// The escape sequence that clears the terminal and homes the cursor.
pub fn clear_screen() -> (r: String)
    ensures
        r@ == "\x1b[2J\x1b[1;1H"@,
{
    owned("\x1b[2J\x1b[1;1H")
}

/// `/rollback <node_id>`: the node to roll back to, or, without one, the
/// usage to print.
pub fn rollback_request(args: &str) -> (r: Result<String, CommandResult>)
    ensures
        trim(args@).len() > 0 ==> (r matches Ok(id) && id@ == trim(args@)),
        trim(args@).len() == 0 ==> (r matches Err(CommandResult::StatusInfo(m)) && m@
            == "\x1b[1;31mUsage: /rollback <node_id>\x1b[0m"@),
{
    let id = trim_str(args);
    if id.unicode_len() == 0 {
        Err(CommandResult::StatusInfo(owned("\x1b[1;31mUsage: /rollback <node_id>\x1b[0m")))
    } else {
        Ok(id)
    }
}

/// What rolling back to `node_id` reports: a line for standard output on
/// success, else one for standard error.
pub fn rollback_report(node_id: &str, outcome: &Result<(), String>) -> (r: Result<String, String>)
    ensures
        match outcome {
            Ok(()) => r matches Ok(m) && m@ == "Session successfully rolled back to node: "@ + node_id@,
            Err(e) => r matches Err(m) && m@ == "Failed to rollback: "@ + e@,
        },
{
    let mut b: Vec<char> = Vec::new();
    match outcome {
        Ok(()) => {
            push_str(&mut b, "Session successfully rolled back to node: ");
            push_str(&mut b, node_id);
            Ok(string_of(b.as_slice()))
        },
        Err(e) => {
            push_str(&mut b, "Failed to rollback: ");
            push_str(&mut b, e.as_str());
            Err(string_of(b.as_slice()))
        },
    }
}

/// `/reload`: what reloading the configuration answers.
pub fn reload_result(outcome: &Result<(), String>) -> (r: CommandResult)
    ensures
        match outcome {
            Ok(()) => r matches CommandResult::StatusInfo(m) && m@
                == "\x1b[32mConfiguration reloaded successfully!\x1b[0m"@,
            Err(e) => r matches CommandResult::StatusInfo(m) && m@ == "\x1b[1;31mFailed to reload configuration: "@
                + e@ + "\x1b[0m"@,
        },
{
    match outcome {
        Ok(()) => CommandResult::StatusInfo(owned("\x1b[32mConfiguration reloaded successfully!\x1b[0m")),
        Err(e) => {
            let mut b: Vec<char> = Vec::new();
            push_str(&mut b, "\x1b[1;31mFailed to reload configuration: ");
            push_str(&mut b, e.as_str());
            push_str(&mut b, "\x1b[0m");
            CommandResult::StatusInfo(string_of(b.as_slice()))
        },
    }
}

/// Starting a new session: what it answers, naming the new session.
pub fn reset_result(outcome: &Result<String, String>) -> (r: CommandResult)
    ensures
        match outcome {
            Ok(id) => r matches CommandResult::StatusInfo(m) && m@
                == "\x1b[32mSession reset successfully. Started new session: \x1b[1;36m"@ + id@ + "\x1b[0m"@,
            Err(e) => r matches CommandResult::StatusInfo(m) && m@ == "\x1b[1;31mFailed to reset session: "@ + e@
                + "\x1b[0m"@,
        },
{
    let mut b: Vec<char> = Vec::new();
    match outcome {
        Ok(id) => {
            push_str(&mut b, "\x1b[32mSession reset successfully. Started new session: \x1b[1;36m");
            push_str(&mut b, id.as_str());
            push_str(&mut b, "\x1b[0m");
        },
        Err(e) => {
            push_str(&mut b, "\x1b[1;31mFailed to reset session: ");
            push_str(&mut b, e.as_str());
            push_str(&mut b, "\x1b[0m");
        },
    }
    CommandResult::StatusInfo(string_of(b.as_slice()))
}

/// How a shell command ended: with an exit code, killed by a signal, or
/// not started (with the error's text).
pub enum ShellOutcome {
    Exited(i32),
    Signalled,
    NotStarted(String),
}

/// `i` in decimal, with a `-` when negative.
pub open spec fn int_text(i: int) -> Seq<char> {
    if i < 0 {
        "-"@ + decimal((-i) as nat)
    } else {
        decimal(i as nat)
    }
}

/// The program and arguments that run `cmd` in the host's shell.
pub fn shell_invocation(cmd: &str) -> (r: (String, Vec<String>))
    ensures
        r.0@ == "sh"@,
        crate::order::views(r.1@) == seq!["-c"@, cmd@],
{
    let mut args: Vec<String> = Vec::new();
    args.push(owned("-c"));
    args.push(owned(cmd));
    assert(crate::order::views(args@) =~= seq!["-c"@, cmd@]);
    (owned("sh"), args)
}

/// What a shell command's end reports on standard error: nothing for a
/// success (exit code 0).
pub fn shell_report(outcome: &ShellOutcome) -> (r: Option<String>)
    ensures
        match outcome {
            ShellOutcome::Exited(c) => if *c == 0 {
                r is None
            } else {
                r matches Some(m) && m@ == "Command exited with status code: "@ + int_text(*c as int)
            },
            ShellOutcome::Signalled => r matches Some(m) && m@ == "Command terminated by signal"@,
            ShellOutcome::NotStarted(e) => r matches Some(m) && m@ == "Failed to execute command: "@ + e@,
        },
{
    let mut b: Vec<char> = Vec::new();
    match outcome {
        ShellOutcome::Exited(c) => {
            if *c == 0 {
                return None;
            }
            push_str(&mut b, "Command exited with status code: ");
            if *c < 0 {
                push_str(&mut b, "-");
                let m = (0i64 - (*c as i64)) as u128;
                let t = decimal_text(m);
                push_str(&mut b, t.as_str());
            } else {
                let t = decimal_text(*c as u128);
                push_str(&mut b, t.as_str());
            }
        },
        ShellOutcome::Signalled => {
            push_str(&mut b, "Command terminated by signal");
        },
        ShellOutcome::NotStarted(e) => {
            push_str(&mut b, "Failed to execute command: ");
            push_str(&mut b, e.as_str());
        },
    }
    Some(string_of(b.as_slice()))
}

/// What a line typed at the prompt is.
pub enum Input {
    /// Blank: nothing to do.
    Blank,
    /// `!` and a shell command (none when only blanks follow the `!`).
    Shell(Option<String>),
    /// A built-in command.
    Command(ParsedCommand),
    /// `/name args` with no built-in `name`: a template command if one is
    /// named so, else `task` as it stands.
    Template { name: String, args: String, task: String },
    /// A task for the agent.
    Task(String),
}

/// How a prompt line is told apart, in this order: blank; `!` and a shell
/// command; a built-in command; `/name args`; a task. All of it after the
/// line is trimmed.
pub fn classify_input(line: &str) -> (r: Input)
    ensures
        ({
            let t = trim(line@);
            if t.len() == 0 {
                r is Blank
            } else if t[0] == '!' {
                r matches Input::Shell(c) && (if trim(t.drop_first()).len() == 0 {
                    c is None
                } else {
                    c matches Some(s) && s@ == trim(t.drop_first())
                })
            } else if parse_spec(t) is Some {
                r matches Input::Command(c) && parse_spec(t) == Some((c.name@, c.args@))
            } else if split_slash_spec(t) is Some {
                r matches Input::Template { name, args, task } && split_slash_spec(t) == Some((name@, args@))
                    && task@ == t
            } else {
                r matches Input::Task(s) && s@ == t
            }
        }),
{
    let t = trim_str(line);
    let cs = chars_of(t.as_str());
    if cs.len() == 0 {
        return Input::Blank;
    }
    if cs[0] == '!' {
        let rest = slice_chars(cs.as_slice(), 1, cs.len());
        assert(rest@ =~= cs@.drop_first());
        let r = string_of(rest.as_slice());
        let cmd = trim_str(r.as_str());
        if cmd.unicode_len() == 0 {
            return Input::Shell(None);
        }
        return Input::Shell(Some(cmd));
    }
    if let Some(c) = CommandParser::parse(t.as_str()) {
        return Input::Command(c);
    }
    match split_slash(t.as_str()) {
        Some((name, args)) => Input::Template { name, args, task: t },
        None => Input::Task(t),
    }
}

} // verus!
