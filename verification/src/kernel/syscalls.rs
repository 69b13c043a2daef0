//! What the kernel's calls answer a module: `proc-spawn`, `wait`,
//! `net-open`, and the checks made when a module is loaded or handles a
//! message. Starting processes, asking the human and opening connections
//! are the host's work.
use vstd::prelude::*;
use crate::kernel::stream::{KernelError, PENDING, err};
use crate::order::views;
use crate::process::{wait_error, wait_step};
use crate::text::{join, join_strings, owned, push_str, string_of, trim, trim_str};

verus! {

/// `wait` returned before the process exited: call again.
pub const WAIT_PENDING: u32 = PENDING;

/// Why a module's call cannot go on before anything is started: the kernel
/// is going away, or the request is empty.
pub fn spawn_check(kernel_alive: bool, argv: &Vec<String>) -> (r: Result<(), KernelError>)
    ensures
        !kernel_alive ==> (r matches Err(e) && e.code == 503 && e.message@ == "kernel is shutting down"@),
        kernel_alive && argv@.len() == 0 ==> (r matches Err(e) && e.code == 400 && e.message@
            == "proc-spawn requires at least a program name"@),
        kernel_alive && argv@.len() > 0 ==> r is Ok,
{
    if !kernel_alive {
        return Err(err(503, owned("kernel is shutting down")));
    }
    if argv.len() == 0 {
        return Err(err(400, owned("proc-spawn requires at least a program name")));
    }
    Ok(())
}

/// The question put to the human before a module starts a process.
pub fn approval_prompt(module: &str, argv: &Vec<String>) -> (r: String)
    ensures
        r@ == "Spawn process from module '"@ + module@ + "': "@ + join(views(argv@), " "@),
{
    let mut b: Vec<char> = Vec::new();
    push_str(&mut b, "Spawn process from module '");
    push_str(&mut b, module);
    push_str(&mut b, "': ");
    let j = join_strings(argv, " ");
    push_str(&mut b, j.as_str());
    string_of(b.as_slice())
}

/// What the human's answer means: go on, a refusal (worded as the
/// extension host words it), or a failure to ask.
pub fn approval_outcome(answer: &Result<bool, String>) -> (r: Result<(), KernelError>)
    ensures
        match answer {
            Ok(true) => r is Ok,
            Ok(false) => r matches Err(e) && e.code == 403 && e.message@
                == "User rejected execution of tool spawn_bash_process"@,
            Err(x) => r matches Err(e) && e.code == 500 && e.message@ == "approval failed: "@ + x@,
        },
{
    match answer {
        Ok(true) => Ok(()),
        Ok(false) => Err(err(403, owned("User rejected execution of tool spawn_bash_process"))),
        Err(x) => {
            let mut b: Vec<char> = Vec::new();
            push_str(&mut b, "approval failed: ");
            push_str(&mut b, x.as_str());
            Err(err(500, string_of(b.as_slice())))
        },
    }
}

/// A process that could not be started.
pub fn spawn_failed(e: &str) -> (r: KernelError)
    ensures
        r.code == 500,
        r.message@ == "proc-spawn failed: "@ + e@,
{
    let mut b: Vec<char> = Vec::new();
    push_str(&mut b, "proc-spawn failed: ");
    push_str(&mut b, e);
    err(500, string_of(b.as_slice()))
}

/// What `wait` answers: the exit code (`-1` for one beyond `i32`), or
/// "still running" with the reason.
pub fn wait_answer(outcome: &Result<u32, String>) -> (r: Result<i32, KernelError>)
    ensures
        match outcome {
            Ok(c) => r matches Ok(x) && (if *c <= i32::MAX { x == *c as i32 } else { x == -1 }),
            Err(m) => r matches Err(e) && e.code == WAIT_PENDING && e.message@ == m@,
        },
{
    match outcome {
        Ok(c) => if *c <= 2147483647u32 {
            Ok(*c as i32)
        } else {
            Ok(-1)
        },
        Err(m) => Err(err(WAIT_PENDING, m.clone())),
    }
}

/// How long one `wait` of a module looks at its process, in milliseconds:
/// less than a handler's deadline, so that the answer comes before the
/// module would be stopped as a runaway.
pub const WAIT_SLICE_MS: u128 = 25000;

/// One look at the process that a module's `wait` is about: `polled` is
/// what asking the process gave (its exit code, not yet, or why asking
/// failed), `idle_ms` how long it has been silent and `elapsed_ms` how long
/// this `wait` has run. The answer for the module, or `None` to sleep and
/// look again. When the slice runs out the answer is `WAIT_PENDING`, "call
/// again": the process goes on running, and nothing here stops it.
pub fn wait_slice_step(polled: &Result<Option<u32>, String>, idle_ms: u128, elapsed_ms: u128) -> (r: Option<
    Result<i32, KernelError>,
>)
    ensures
        match polled {
            Ok(Some(c)) => r matches Some(Ok(x)) && (if *c <= i32::MAX { x == *c as i32 } else { x == -1 }),
            Err(m) => r matches Some(Err(e)) && e.code == WAIT_PENDING && e.message@ == "try_wait error: "@
                + m@,
            Ok(None) => if idle_ms > WAIT_SLICE_MS {
                r matches Some(Err(e)) && e.code == WAIT_PENDING && e.message@
                    == "Process execution timed out due to inactivity"@
            } else if elapsed_ms > 2 * WAIT_SLICE_MS {
                r matches Some(Err(e)) && e.code == WAIT_PENDING && e.message@
                    == "Process execution exceeded maximum timeout limit"@
            } else {
                r is None
            },
        },
{
    match polled {
        Ok(Some(c)) => Some(wait_answer(&Ok(*c))),
        Err(m) => {
            let mut b: Vec<char> = Vec::new();
            push_str(&mut b, "try_wait error: ");
            push_str(&mut b, m.as_str());
            Some(Err(err(WAIT_PENDING, string_of(b.as_slice()))))
        },
        Ok(None) => {
            let step = wait_step(false, idle_ms, elapsed_ms, WAIT_SLICE_MS);
            match wait_error(&step) {
                Some(m) => Some(Err(err(WAIT_PENDING, m))),
                None => None,
            }
        },
    }
}

/// Why `net-open` cannot go on: the kernel is going away, or no URL.
pub fn net_open_check(kernel_alive: bool, url: &str) -> (r: Result<(), KernelError>)
    ensures
        !kernel_alive ==> (r matches Err(e) && e.code == 503 && e.message@ == "kernel is shutting down"@),
        kernel_alive && trim(url@).len() == 0 ==> (r matches Err(e) && e.code == 400 && e.message@
            == "net-open requires a URL"@),
        kernel_alive && trim(url@).len() > 0 ==> r is Ok,
{
    if !kernel_alive {
        return Err(err(503, owned("kernel is shutting down")));
    }
    let t = trim_str(url);
    if t.unicode_len() == 0 {
        return Err(err(400, owned("net-open requires a URL")));
    }
    Ok(())
}

/// A module must call itself what it was configured as, or routing and
/// diagnostics would disagree about its name.
pub fn check_declared_name(configured: &str, declared: &str) -> (r: Result<(), String>)
    ensures
        configured@ == declared@ ==> r is Ok,
        configured@ != declared@ ==> (r matches Err(m) && m@ == "module configured as '"@ + configured@
            + "' declares itself '"@ + declared@ + "'"@),
{
    if crate::text::str_eq(configured, declared) {
        return Ok(());
    }
    let mut b: Vec<char> = Vec::new();
    push_str(&mut b, "module configured as '");
    push_str(&mut b, configured);
    push_str(&mut b, "' declares itself '");
    push_str(&mut b, declared);
    push_str(&mut b, "'");
    Err(string_of(b.as_slice()))
}

/// What a module that trapped while handling `method` answers: a timeout
/// is named as such, any other trap carries its error's text.
pub fn trap_message(module: &str, method: &str, interrupted: bool, error: &str) -> (r: String)
    ensures
        interrupted ==> r@ == "module '"@ + module@ + "' exceeded its time budget handling '"@ + method@
            + "' and was interrupted"@,
        !interrupted ==> r@ == "module '"@ + module@ + "' trapped handling '"@ + method@ + "': "@ + error@,
{
    let mut b: Vec<char> = Vec::new();
    push_str(&mut b, "module '");
    push_str(&mut b, module);
    if interrupted {
        push_str(&mut b, "' exceeded its time budget handling '");
        push_str(&mut b, method);
        push_str(&mut b, "' and was interrupted");
    } else {
        push_str(&mut b, "' trapped handling '");
        push_str(&mut b, method);
        push_str(&mut b, "': ");
        push_str(&mut b, error);
    }
    string_of(b.as_slice())
}

} // verus!
