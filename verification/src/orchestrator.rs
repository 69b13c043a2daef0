//! The orchestrator's own decisions: the sandbox's allow-lists, session
//! ids, token accounting, the autopilot's verification step, and what the
//! host reports of a freshly loaded tool provider.
use vstd::prelude::*;
use crate::config::{Config, ExtensionConfig};
use crate::json::{Json, JsonV, lemma_view_array};
use crate::jsonc::{json_parse, parse_json};
use crate::order::views;
use crate::text::{decimal, decimal_text, owned, push_str, str_eq, string_of};

verus! {

pub struct TokenUsage {
    pub prompt_tokens: u32,
    pub completion_tokens: u32,
}

impl Default for TokenUsage {
    fn default() -> (r: TokenUsage)
        ensures
            r.prompt_tokens == 0,
            r.completion_tokens == 0,
    {
        TokenUsage { prompt_tokens: 0, completion_tokens: 0 }
    }
}

/// A fresh session id: the seconds since the epoch, which also orders the
/// sessions on disk.
pub fn new_session_id(epoch_secs: u64) -> (r: String)
    ensures
        r@ == decimal(epoch_secs as nat),
{
    decimal_text(epoch_secs as u128)
}

/// The union of every extension's filesystem allow-lists: the read lists of
/// the extensions that have permissions, one after another, and the same
/// for the write lists.
pub open spec fn read_union(exts: Seq<ExtensionConfig>) -> Seq<Seq<char>>
    decreases exts.len(),
{
    if exts.len() == 0 {
        Seq::empty()
    } else {
        read_union(exts.drop_last()) + match exts.last().permissions {
            Some(p) => views(p.fs_read_allow@),
            None => Seq::empty(),
        }
    }
}

pub open spec fn write_union(exts: Seq<ExtensionConfig>) -> Seq<Seq<char>>
    decreases exts.len(),
{
    if exts.len() == 0 {
        Seq::empty()
    } else {
        write_union(exts.drop_last()) + match exts.last().permissions {
            Some(p) => views(p.fs_write_allow@),
            None => Seq::empty(),
        }
    }
}

fn append_copies(out: &mut Vec<String>, v: &Vec<String>)
    ensures
        views(final(out)@) == views(old(out)@) + views(v@),
{
    let ghost o = views(out@);
    let mut i: usize = 0;
    while i < v.len()
        invariant
            i <= v@.len(),
            views(out@) == o + views(v@).subrange(0, i as int),
        decreases v.len() - i,
    {
        let ghost before = views(out@);
        out.push(v[i].clone());
        assert(views(out@) =~= before.push(v@[i as int]@));
        assert(views(v@).subrange(0, i + 1) =~= views(v@).subrange(0, i as int).push(v@[i as int]@));
        i = i + 1;
    }
    assert(views(v@).subrange(0, v@.len() as int) =~= views(v@));
}

/// The union of every extension's filesystem allow-lists, read and write.
pub fn fs_allow_lists(extensions: &[ExtensionConfig]) -> (r: (Vec<String>, Vec<String>))
    ensures
        views(r.0@) == read_union(extensions@),
        views(r.1@) == write_union(extensions@),
{
    let mut read: Vec<String> = Vec::new();
    let mut write: Vec<String> = Vec::new();
    let mut i: usize = 0;
    assert(extensions@.subrange(0, 0) =~= Seq::<ExtensionConfig>::empty());
    assert(views(read@) =~= Seq::<Seq<char>>::empty());
    assert(views(write@) =~= Seq::<Seq<char>>::empty());
    while i < extensions.len()
        invariant
            i <= extensions@.len(),
            views(read@) == read_union(extensions@.subrange(0, i as int)),
            views(write@) == write_union(extensions@.subrange(0, i as int)),
        decreases extensions.len() - i,
    {
        let ghost t = extensions@.subrange(0, i + 1);
        assert(t.drop_last() =~= extensions@.subrange(0, i as int));
        assert(t.last() == extensions@[i as int]);
        match &extensions[i].permissions {
            Some(p) => {
                append_copies(&mut read, &p.fs_read_allow);
                append_copies(&mut write, &p.fs_write_allow);
            },
            None => {
                assert(views(read@) =~= views(read@) + Seq::<Seq<char>>::empty());
                assert(views(write@) =~= views(write@) + Seq::<Seq<char>>::empty());
            },
        }
        i = i + 1;
    }
    assert(extensions@.subrange(0, extensions@.len() as int) =~= extensions@);
    (read, write)
}


/// Settings shared by every runtime, read once.
pub struct RuntimeSettings {
    pub hitl_enabled: bool,
    pub llm_stream_heartbeat_ms: u64,
}

impl RuntimeSettings {
    pub fn read(config: &Config) -> (r: RuntimeSettings)
        ensures
            r.hitl_enabled == config.core.hitl_enabled,
            r.llm_stream_heartbeat_ms == config.default_timeout.llm_stream_heartbeat_ms,
    {
        RuntimeSettings {
            hitl_enabled: config.core.hitl_enabled,
            llm_stream_heartbeat_ms: config.default_timeout.llm_stream_heartbeat_ms,
        }
    }
}

/// The autopilot's state for one task, resolved once before the retries:
/// the workspace, whether it is a git repository, the commit to roll back
/// to, and the verification command.
pub struct Autopilot {
    pub workspace: String,
    pub has_git: bool,
    pub initial_sha: Option<String>,
    pub verification_command: Option<String>,
}

/// What the autopilot does after a task once its verification command ran.
pub struct VerifyOutcome {
    /// The lines to print, in order.
    pub lines: Vec<String>,
    /// Commit a checkpoint.
    pub checkpoint: bool,
    /// Roll the codebase back to this commit.
    pub rollback_to: Option<String>,
    /// The task's result.
    pub result: Result<(), String>,
}

impl Autopilot {
    /// The autopilot of a task, given what the git setup found.
    pub fn new(config: &Config, has_git: bool, initial_sha: Option<String>) -> (r: Autopilot)
        ensures
            r.workspace@ == config.core.workspace@,
            r.has_git == has_git,
            r.initial_sha == initial_sha,
            crate::config::opt_str(r.verification_command) == crate::config::opt_str(config.core.verification_command),
    {
        Autopilot {
            workspace: config.core.workspace.clone(),
            has_git,
            initial_sha,
            verification_command: match &config.core.verification_command {
                Some(c) => Some(c.clone()),
                None => None,
            },
        }
    }

    /// The line announcing the verification command, when there is one; a
    /// task with none verifies trivially.
    pub fn announce(&self) -> (r: Option<String>)
        ensures
            match self.verification_command {
                Some(c) => r matches Some(l) && l@ == "Running autopilot verification: "@ + c@,
                None => r is None,
            },
    {
        match &self.verification_command {
            Some(c) => {
                let mut b: Vec<char> = Vec::new();
                push_str(&mut b, "Running autopilot verification: ");
                push_str(&mut b, c.as_str());
                Some(string_of(b.as_slice()))
            },
            None => None,
        }
    }

    /// What follows a verification run that `passed` or not: a pass
    /// checkpoints (in a git repository); a failure rolls back to the
    /// initial commit when there is one, and fails the task.
    pub fn after_verification(&self, passed: bool) -> (r: VerifyOutcome)
        ensures
            passed ==> (r.result is Ok && r.checkpoint == self.has_git && r.rollback_to is None && r.lines@.len() == 1
                && r.lines@[0]@ == "Verification PASSED."@),
            !passed ==> (!r.checkpoint && (r.result matches Err(e) && e@
                == "Autopilot verification command failed. Codebase rolled back."@) && match self.initial_sha {
                Some(sha) => (r.rollback_to matches Some(t) && t@ == sha@) && r.lines@.len() == 1 && r.lines@[0]@
                    == "Verification FAILED. Rolling back codebase to stable SHA: "@ + sha@,
                None => r.rollback_to is None && r.lines@.len() == 0,
            }),
    {
        let mut lines: Vec<String> = Vec::new();
        if passed {
            lines.push(owned("Verification PASSED."));
            return VerifyOutcome { lines, checkpoint: self.has_git, rollback_to: None, result: Ok(()) };
        }
        let rollback_to = match &self.initial_sha {
            Some(sha) => {
                let mut b: Vec<char> = Vec::new();
                push_str(&mut b, "Verification FAILED. Rolling back codebase to stable SHA: ");
                push_str(&mut b, sha.as_str());
                lines.push(string_of(b.as_slice()));
                Some(sha.clone())
            },
            None => None,
        };
        VerifyOutcome {
            lines,
            checkpoint: false,
            rollback_to,
            result: Err(owned("Autopilot verification command failed. Codebase rolled back.")),
        }
    }
}

/// What `get_tools` of a freshly loaded tool provider gave.
pub enum ToolInventory {
    /// The call failed with this message.
    Failed(String),
    /// The reply, and the length of the array it holds when it is one.
    Reply { text: String, count: Option<usize> },
}

/// The line printed of a freshly loaded tool provider.
pub open spec fn inventory_text(name: Seq<char>, inventory: ToolInventory) -> Seq<char> {
    match inventory {
        ToolInventory::Failed(e) => "\u{1b}[31m[FAILED] Extension '"@ + name + "' get_tools error: "@ + e@
            + "\u{1b}[0m"@,
        ToolInventory::Reply { text, count } => match count {
            None => "\u{1b}[31m[FAILED] Extension '"@ + name + "' returned invalid JSON from get_tools: "@ + text@
                + "\u{1b}[0m"@,
            Some(n) => if n > 0 {
                "\u{1b}[32m[OK] Verified "@ + decimal(n as nat) + " tools from extension '"@ + name + "'\u{1b}[0m"@
            } else if name == "mcp-tool-provider"@ {
                "\u{1b}[31m[FAILED] Extension '"@ + name
                    + "' initialized with 0 tools. See [MCP Diagnostic] lines above for the actual cause.\u{1b}[0m"@
            } else {
                "\u{1b}[32m[OK] Extension '"@ + name + "' initialized with 0 tools\u{1b}[0m"@
            },
        },
    }
}

/// How many items a JSON value holds when it is an array.
pub open spec fn array_len(v: Option<JsonV>) -> Option<usize> {
    match v {
        Some(JsonV::Array(a)) => Some(a.len() as usize),
        _ => None,
    }
}

/// What the host prints of a freshly loaded tool provider from what its
/// `get_tools` brought back: the reply is read as JSON, and one that is
/// not an array is reported as invalid.
pub fn report_tool_inventory(name: &str, reply: Result<String, String>) -> (r: String)
    ensures
        r@ == inventory_text(
            name@,
            match reply {
                Err(e) => ToolInventory::Failed(e),
                Ok(t) => ToolInventory::Reply { text: t, count: array_len(json_parse(t@)) },
            },
        ),
{
    match reply {
        Err(e) => tool_inventory_message(name, &ToolInventory::Failed(e)),
        Ok(t) => {
            let parsed = parse_json(t.as_str());
            let count: Option<usize> = match &parsed {
                Some(Json::Array(a)) => {
                    proof {
                        lemma_view_array(a@);
                    }
                    Some(a.len())
                },
                _ => None,
            };
            tool_inventory_message(name, &ToolInventory::Reply { text: t, count })
        },
    }
}

/// What the host prints of a freshly loaded tool provider, as
/// [`inventory_text`] says. A provider that answers badly is described,
/// never refused.
pub fn tool_inventory_message(name: &str, inventory: &ToolInventory) -> (r: String)
    ensures
        r@ == inventory_text(name@, *inventory),
{
    let mut b: Vec<char> = Vec::new();
    match inventory {
        ToolInventory::Failed(e) => {
            push_str(&mut b, "\u{1b}[31m[FAILED] Extension '");
            push_str(&mut b, name);
            push_str(&mut b, "' get_tools error: ");
            push_str(&mut b, e.as_str());
            push_str(&mut b, "\u{1b}[0m");
        },
        ToolInventory::Reply { text, count } => match count {
            None => {
                push_str(&mut b, "\u{1b}[31m[FAILED] Extension '");
                push_str(&mut b, name);
                push_str(&mut b, "' returned invalid JSON from get_tools: ");
                push_str(&mut b, text.as_str());
                push_str(&mut b, "\u{1b}[0m");
            },
            Some(n) => {
                if *n > 0 {
                    push_str(&mut b, "\u{1b}[32m[OK] Verified ");
                    let d = decimal_text(*n as u128);
                    push_str(&mut b, d.as_str());
                    push_str(&mut b, " tools from extension '");
                    push_str(&mut b, name);
                    push_str(&mut b, "'\u{1b}[0m");
                } else if str_eq(name, "mcp-tool-provider") {
                    push_str(&mut b, "\u{1b}[31m[FAILED] Extension '");
                    push_str(&mut b, name);
                    push_str(&mut b, "' initialized with 0 tools. See [MCP Diagnostic] lines above for the actual cause.\u{1b}[0m");
                } else {
                    push_str(&mut b, "\u{1b}[32m[OK] Extension '");
                    push_str(&mut b, name);
                    push_str(&mut b, "' initialized with 0 tools\u{1b}[0m");
                }
            },
        },
    }
    string_of(b.as_slice())
}

/// How many times a crashed run is rebuilt from scratch before the task
/// gives up.
pub const MAX_ATTEMPTS: u32 = 2;

/// How an attempt at a task ended.
pub enum AttemptOutcome {
    /// The task is finished.
    Finished,
    /// Something crashed recoverably; the runtimes were cleared.
    Crashed,
    /// The task failed with this message.
    Failed(String),
}

/// What driving a task does next.
pub enum TaskStep {
    /// Run the attempt with this number.
    Attempt(u32),
    /// The task is over.
    Done(Result<(), String>),
}

/// Driving a task: attempts are made in turn until one finishes or fails,
/// an abort is seen before an attempt, or [`MAX_ATTEMPTS`] attempts have
/// crashed. `previous` is how the attempt before `next` ended.
pub fn task_step(next: u32, aborted: bool, previous: Option<&AttemptOutcome>) -> (r: TaskStep)
    ensures
        match previous {
            Some(AttemptOutcome::Finished) => r matches TaskStep::Done(Ok(())),
            Some(AttemptOutcome::Failed(e)) => r matches TaskStep::Done(Err(m)) && m@ == e@,
            _ => if next >= MAX_ATTEMPTS {
                r matches TaskStep::Done(Err(m)) && m@ == "Wasm execution failed after maximum recovery attempts"@
            } else if aborted {
                r matches TaskStep::Done(Err(m)) && m@ == "Task aborted by user"@
            } else {
                r matches TaskStep::Attempt(n) && n == next
            },
        },
{
    match previous {
        Some(AttemptOutcome::Finished) => {
            return TaskStep::Done(Ok(()));
        },
        Some(AttemptOutcome::Failed(e)) => {
            return TaskStep::Done(Err(e.clone()));
        },
        _ => {},
    }
    if next >= MAX_ATTEMPTS {
        TaskStep::Done(Err(owned("Wasm execution failed after maximum recovery attempts")))
    } else if aborted {
        TaskStep::Done(Err(owned("Task aborted by user")))
    } else {
        TaskStep::Attempt(next)
    }
}

/// What follows the end of an attempt's event loop.
pub enum LoopEnd {
    /// The loop ended cleanly: verify the work.
    Verify,
    /// The user aborted: the task fails with this message.
    Abort(String),
    /// A runtime crashed: report this line and try again.
    Recover(String),
}

/// The end of an attempt's event loop: a clean end goes on to verification;
/// an error is an abort when the user aborted, else a crash to recover from.
pub fn loop_ended(result: &Result<(), String>, aborted: bool) -> (r: LoopEnd)
    ensures
        match result {
            Ok(()) => r is Verify,
            Err(e) => if aborted {
                r matches LoopEnd::Abort(m) && m@ == "Task aborted by user"@
            } else {
                r matches LoopEnd::Recover(m) && m@ == "Wasm runtime crashed: "@ + e@ + ". Recovering..."@
            },
        },
{
    match result {
        Ok(()) => LoopEnd::Verify,
        Err(e) => if aborted {
            LoopEnd::Abort(owned("Task aborted by user"))
        } else {
            let mut b: Vec<char> = Vec::new();
            push_str(&mut b, "Wasm runtime crashed: ");
            push_str(&mut b, e.as_str());
            push_str(&mut b, ". Recovering...");
            LoopEnd::Recover(string_of(b.as_slice()))
        },
    }
}

/// What the event loop's wait for an event gave.
pub enum Received {
    /// An event; whether it says the task is complete.
    Event { task_completed: bool },
    /// Nothing within a tick.
    Timeout,
    /// Every sender is gone.
    Disconnected,
}

/// What the event loop does next.
#[derive(PartialEq, Eq, Structural, Clone, Copy, Debug)]
pub enum LoopAction {
    /// Leave the loop.
    Stop,
    /// Deliver the queued posts, then wait again.
    DrainPosts,
    /// Show the event, then leave the loop.
    ShowThenStop,
    /// Show the event, hand it to every runtime, deliver the queued posts,
    /// then wait again.
    ShowDispatchDrain,
}

/// What a turn of the event loop does, as [`event_loop_step`] decides it.
pub open spec fn loop_action(aborted: bool, received: Received) -> LoopAction {
    if aborted {
        LoopAction::Stop
    } else {
        match received {
            Received::Timeout => LoopAction::DrainPosts,
            Received::Disconnected => LoopAction::Stop,
            Received::Event { task_completed } => if task_completed {
                LoopAction::ShowThenStop
            } else {
                LoopAction::ShowDispatchDrain
            },
        }
    }
}

/// Queued posts are never starved: every turn of the event loop that does
/// not end it, whether it brought an event or only a tick, delivers the
/// posts queued so far, and a tick never ends the loop.
pub proof fn law_every_turn_delivers_posts(received: Received)
    ensures
        loop_action(false, received) != LoopAction::Stop && loop_action(false, received) != LoopAction::ShowThenStop
            ==> (loop_action(false, received) == LoopAction::DrainPosts || loop_action(false, received)
            == LoopAction::ShowDispatchDrain),
        received is Timeout ==> loop_action(false, received) == LoopAction::DrainPosts,
        (received matches Received::Event { task_completed } && !task_completed) ==> loop_action(false, received)
            == LoopAction::ShowDispatchDrain,
{
}

/// One turn of the event loop: an abort or a closed channel ends it; a tick
/// without an event only delivers posts; the completing event is shown and
/// ends it; any other event is shown, dispatched, and followed by delivering
/// posts, so that a steady stream of events cannot starve the post queue.
pub fn event_loop_step(aborted: bool, received: &Received) -> (r: LoopAction)
    ensures
        r == loop_action(aborted, *received),
{
    if aborted {
        return LoopAction::Stop;
    }
    match received {
        Received::Timeout => LoopAction::DrainPosts,
        Received::Disconnected => LoopAction::Stop,
        Received::Event { task_completed } => if *task_completed {
            LoopAction::ShowThenStop
        } else {
            LoopAction::ShowDispatchDrain
        },
    }
}

/// The runtimes an instruction goes to, given each loaded runtime's name
/// and role: those whose role is `orchestrator`, in order; `None` when no
/// runtime is loaded at all, and the instruction goes straight onto the
/// event channel.
pub fn dispatch_targets(runtimes: &Vec<(String, String)>) -> (r: Option<Vec<String>>)
    ensures
        runtimes@.len() == 0 ==> r is None,
        runtimes@.len() > 0 ==> (r matches Some(v) && views(v@) == orchestrator_names(runtimes@)),
{
    if runtimes.len() == 0 {
        return None;
    }
    let mut out: Vec<String> = Vec::new();
    let mut i: usize = 0;
    assert(runtimes@.take(0) =~= Seq::<(String, String)>::empty());
    while i < runtimes.len()
        invariant
            i <= runtimes@.len(),
            views(out@) == orchestrator_names(runtimes@.take(i as int)),
        decreases runtimes@.len() - i,
    {
        let ghost before = views(out@);
        proof {
            assert(runtimes@.take(i + 1).drop_last() =~= runtimes@.take(i as int));
        }
        if str_eq(runtimes[i].1.as_str(), "orchestrator") {
            out.push(runtimes[i].0.clone());
            assert(views(out@) =~= before + seq![runtimes@[i as int].0@]);
        } else {
            assert(views(out@) =~= before + Seq::<Seq<char>>::empty());
        }
        i = i + 1;
    }
    assert(runtimes@.take(runtimes@.len() as int) =~= runtimes@);
    Some(out)
}

/// The names of the runtimes whose role is `orchestrator`, in order.
pub open spec fn orchestrator_names(rs: Seq<(String, String)>) -> Seq<Seq<char>>
    decreases rs.len(),
{
    if rs.len() == 0 {
        Seq::empty()
    } else {
        orchestrator_names(rs.drop_last()) + if rs.last().1@ == "orchestrator"@ {
            seq![rs.last().0@]
        } else {
            Seq::empty()
        }
    }
}

/// The extension serving `role`: the first configured with it.
pub open spec fn role_owner(exts: Seq<ExtensionConfig>, role: Seq<char>) -> Option<Seq<char>>
    decreases exts.len(),
{
    if exts.len() == 0 {
        None
    } else if exts[0].role@ == role {
        Some(exts[0].name@)
    } else {
        role_owner(exts.drop_first(), role)
    }
}

/// The name of the extension that serves `role`, as [`role_owner`] says.
pub fn extension_for_role(extensions: &Vec<ExtensionConfig>, role: &str) -> (r: Option<String>)
    ensures
        match r {
            Some(n) => role_owner(extensions@, role@) == Some(n@),
            None => role_owner(extensions@, role@) is None,
        },
{
    let mut i: usize = 0;
    assert(extensions@.skip(0) =~= extensions@);
    while i < extensions.len()
        invariant
            i <= extensions@.len(),
            role_owner(extensions@, role@) == role_owner(extensions@.skip(i as int), role@),
        decreases extensions@.len() - i,
    {
        assert(extensions@.skip(i as int)[0] == extensions@[i as int]);
        assert(extensions@.skip(i as int).drop_first() =~= extensions@.skip(i + 1));
        if str_eq(extensions[i].role.as_str(), role) {
            return Some(extensions[i].name.clone());
        }
        i = i + 1;
    }
    assert(extensions@.skip(i as int) =~= Seq::<ExtensionConfig>::empty());
    None
}

/// The answer to a task asked for while one is running.
pub fn task_busy_message() -> (r: String)
    ensures
        r@ == "A task is already running. Use /rollback to stop it first."@,
{
    owned("A task is already running. Use /rollback to stop it first.")
}

/// Rolling back needs the node to exist in the conversation.
pub fn rollback_check(dag: &crate::dag::Dag, node_id: &str) -> (r: Result<(), String>)
    ensures
        crate::dag::has_id(dag@.nodes, node_id@) ==> r is Ok,
        !crate::dag::has_id(dag@.nodes, node_id@) ==> (r matches Err(m) && m@ == "Node '"@ + node_id@
            + "' not found in DAG"@),
{
    if dag.contains(node_id) {
        return Ok(());
    }
    let mut b: Vec<char> = Vec::new();
    push_str(&mut b, "Node '");
    push_str(&mut b, node_id);
    push_str(&mut b, "' not found in DAG");
    Err(string_of(b.as_slice()))
}

/// A reload that could not read the configuration.
pub fn reload_error(e: &str) -> (r: String)
    ensures
        r@ == "Failed to load configuration: "@ + e@,
{
    let mut b: Vec<char> = Vec::new();
    push_str(&mut b, "Failed to load configuration: ");
    push_str(&mut b, e);
    string_of(b.as_slice())
}

/// The payload that opens a session in the graph module:
/// `{"session_id": <id>}` as JSON text.
pub fn session_open_payload(session_id: &str) -> (r: String)
    ensures
        r@ == crate::json::json_text(crate::json::JsonV::Object(seq![("session_id"@, crate::json::JsonV::Str(session_id@))])),
{
    let mut m: Vec<(String, crate::json::Json)> = Vec::new();
    m.push((owned("session_id"), crate::json::Json::Str(owned(session_id))));
    proof {
        crate::json::lemma_view_object(m@);
        assert(crate::json::view_object(m@) =~= seq![("session_id"@, crate::json::JsonV::Str(session_id@))]);
    }
    let j = crate::json::Json::Object(m);
    crate::json::to_json_text(&j)
}

/// The payload that moves the graph module's tip: `{"node_id": <id>}` as
/// JSON text.
pub fn set_current_payload(node_id: &str) -> (r: String)
    ensures
        r@ == crate::json::json_text(crate::json::JsonV::Object(seq![("node_id"@, crate::json::JsonV::Str(node_id@))])),
{
    let mut m: Vec<(String, crate::json::Json)> = Vec::new();
    m.push((owned("node_id"), crate::json::Json::Str(owned(node_id))));
    proof {
        crate::json::lemma_view_object(m@);
        assert(crate::json::view_object(m@) =~= seq![("node_id"@, crate::json::JsonV::Str(node_id@))]);
    }
    let j = crate::json::Json::Object(m);
    crate::json::to_json_text(&j)
}

} // verus!
