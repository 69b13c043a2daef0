//! Running commands: whether a command line runs directly or through a
//! shell, the process groups still to be killed, and the wait for a child.
//! Spawning, signalling and sleeping are the host's work.
use vstd::prelude::*;
use crate::order::views;
use crate::text::{chars_of, owned, split_whitespace, words};

verus! {

/// The characters that need a real shell: separators, pipes, redirections,
/// background, and quotes (which a plain whitespace split would keep
/// verbatim).
pub open spec fn shell_char(c: char) -> bool {
    c == ';' || c == '|' || c == '>' || c == '<' || c == '&' || c == '\'' || c == '"'
}

/// Whether `command` needs a shell.
pub fn has_shell_features(command: &str) -> (r: bool)
    ensures
        r == exists|i: int| 0 <= i < command@.len() && shell_char(#[trigger] command@[i]),
{
    let cs = chars_of(command);
    let mut i: usize = 0;
    while i < cs.len()
        invariant
            i <= cs@.len(),
            cs@ == command@,
            forall|j: int| 0 <= j < i ==> !shell_char(#[trigger] cs@[j]),
        decreases cs.len() - i,
    {
        let c = cs[i];
        if c == ';' || c == '|' || c == '>' || c == '<' || c == '&' || c == '\'' || c == '"' {
            assert(shell_char(command@[i as int]));
            return true;
        }
        i = i + 1;
    }
    false
}

/// How a command line is started.
pub enum SpawnPlan {
    /// Run `program` with `args` directly.
    Direct { program: String, args: Vec<String> },
    /// Run `bash -c <command>`.
    Shell { command: String },
}

/// How `command` is started, given its words after tilde expansion
/// (`words`) and whether the first word is a file or a program on `PATH`:
/// directly when it is one of them and the line needs no shell, else
/// through `bash -c`.
pub fn spawn_plan(command: &str, words_of_expanded: Vec<String>, first_is_file: bool, first_in_path: bool) -> (r: SpawnPlan)
    ensures
        ({
            let direct = (first_is_file || first_in_path) && !exists|i: int|
                0 <= i < command@.len() && shell_char(#[trigger] command@[i]);
            if direct && words_of_expanded@.len() > 0 {
                r matches SpawnPlan::Direct { program, args } && program@ == words_of_expanded@[0]@ && views(args@)
                    == views(words_of_expanded@).drop_first()
            } else if direct {
                r matches SpawnPlan::Direct { program, args } && program@.len() == 0 && args@.len() == 0
            } else {
                r matches SpawnPlan::Shell { command: c } && c@ == command@
            }
        }),
{
    let shell = has_shell_features(command);
    if (first_is_file || first_in_path) && !shell {
        if words_of_expanded.len() == 0 {
            return SpawnPlan::Direct { program: String::new(), args: Vec::new() };
        }
        let mut args: Vec<String> = Vec::new();
        let mut i: usize = 1;
        while i < words_of_expanded.len()
            invariant
                1 <= i <= words_of_expanded@.len(),
                views(args@) == views(words_of_expanded@).subrange(1, i as int),
            decreases words_of_expanded.len() - i,
        {
            let ghost before = views(args@);
            args.push(words_of_expanded[i].clone());
            assert(views(args@) =~= before.push(words_of_expanded@[i as int]@));
            assert(views(args@) =~= views(words_of_expanded@).subrange(1, i + 1));
            i = i + 1;
        }
        assert(views(words_of_expanded@).subrange(1, words_of_expanded@.len() as int) =~= views(
            words_of_expanded@,
        ).drop_first());
        SpawnPlan::Direct { program: words_of_expanded[0].clone(), args }
    } else {
        SpawnPlan::Shell { command: owned(command) }
    }
}

/// The process groups spawned and not yet reaped or killed.
pub struct PgidRegistry {
    pgids: Vec<i32>,
}

impl View for PgidRegistry {
    type V = Seq<i32>;

    closed spec fn view(&self) -> Seq<i32> {
        self.pgids@
    }
}

impl PgidRegistry {
    pub fn new() -> (r: PgidRegistry)
        ensures
            r@ == Seq::<i32>::empty(),
    {
        PgidRegistry { pgids: Vec::new() }
    }

    /// Records a spawned group.
    pub fn register(&mut self, pgid: i32)
        ensures
            final(self)@ == old(self)@.push(pgid),
    {
        self.pgids.push(pgid);
    }

    /// Forgets the group `pgid`, every other one kept in order.
    pub fn unregister(&mut self, pgid: i32)
        ensures
            final(self)@ == old(self)@.filter(|x: i32| x != pgid),
            !final(self)@.contains(pgid),
    {
        let ghost o = self.pgids@;
        let mut kept: Vec<i32> = Vec::new();
        let mut i: usize = 0;
        proof {
            reveal(Seq::filter);
            assert(o.subrange(0, 0) =~= Seq::<i32>::empty());
        }
        while i < self.pgids.len()
            invariant
                i <= self.pgids@.len(),
                o == self.pgids@,
                kept@ == o.subrange(0, i as int).filter(|x: i32| x != pgid),
                !kept@.contains(pgid),
            decreases self.pgids.len() - i,
        {
            proof {
                reveal(Seq::filter);
                let t = o.subrange(0, i + 1);
                assert(t.drop_last() =~= o.subrange(0, i as int));
            }
            if self.pgids[i] != pgid {
                kept.push(self.pgids[i]);
            }
            i = i + 1;
        }
        assert(o.subrange(0, o.len() as int) =~= o);
        self.pgids = kept;
    }

    /// The groups still to be killed.
    pub fn groups(&self) -> (r: &Vec<i32>)
        ensures
            r@ == self@,
    {
        &self.pgids
    }
}

/// One step of waiting for a child.
pub enum WaitStep {
    /// It exited: forget its group and hand back its status.
    Exited,
    /// It has been silent too long: kill its group.
    Idle,
    /// It has run past twice the timeout: kill its group.
    Overdue,
    /// Sleep and look again.
    Sleep,
}

/// What to do while waiting for a child with `timeout_ms`, when it has
/// `exited` or not, has been silent `idle_ms` and has run `elapsed_ms`.
pub fn wait_step(exited: bool, idle_ms: u128, elapsed_ms: u128, timeout_ms: u128) -> (r: WaitStep)
    ensures
        exited ==> r is Exited,
        !exited && idle_ms > timeout_ms ==> r is Idle,
        !exited && idle_ms <= timeout_ms && elapsed_ms > 2 * timeout_ms ==> r is Overdue,
        !exited && idle_ms <= timeout_ms && elapsed_ms <= 2 * timeout_ms ==> r is Sleep,
{
    if exited {
        WaitStep::Exited
    } else if idle_ms > timeout_ms {
        WaitStep::Idle
    } else if elapsed_ms / 2 > timeout_ms || (elapsed_ms / 2 == timeout_ms && elapsed_ms % 2 == 1) {
        WaitStep::Overdue
    } else {
        WaitStep::Sleep
    }
}

/// The error a wait ends with when the child is killed.
pub fn wait_error(step: &WaitStep) -> (r: Option<String>)
    ensures
        match step {
            WaitStep::Idle => r matches Some(m) && m@ == "Process execution timed out due to inactivity"@,
            WaitStep::Overdue => r matches Some(m) && m@ == "Process execution exceeded maximum timeout limit"@,
            _ => r is None,
        },
{
    match step {
        WaitStep::Idle => Some(owned("Process execution timed out due to inactivity")),
        WaitStep::Overdue => Some(owned("Process execution exceeded maximum timeout limit")),
        _ => None,
    }
}

/// The words of a command line after `~/` is expanded with `home`: the
/// first names the program when it runs directly.
pub fn command_words(command: &str, home: Option<&str>) -> (r: Vec<String>)
    ensures
        views(r@) == words(
            crate::config::expand_tilde_spec(
                command@,
                match home {
                    Some(h) => Some(h@),
                    None => None,
                },
            ),
        ),
{
    let e = crate::config::expand_tilde(command, home);
    split_whitespace(e.as_str())
}

/// A child that could not be started.
pub fn spawn_error(e: &str) -> (r: crate::error::UnifiedError)
    ensures
        r matches crate::error::UnifiedError::L1 { message, category } && message@
            == "Failed to spawn command via stdio pipe: "@ + e@ && category@ == "Process"@,
{
    let mut b: Vec<char> = Vec::new();
    crate::text::push_str(&mut b, "Failed to spawn command via stdio pipe: ");
    crate::text::push_str(&mut b, e);
    let m = crate::text::string_of(b.as_slice());
    crate::error::UnifiedError::l1(m.as_str(), "Process")
}

/// The process group of a child with this id: the id itself, or 0 for one
/// beyond `i32`.
pub fn group_of(id: u32) -> (r: i32)
    ensures
        id <= i32::MAX ==> r == id as i32,
        id > i32::MAX ==> r == 0,
{
    if id <= 2147483647u32 {
        id as i32
    } else {
        0
    }
}

/// The exit code reported for a child: its code, with 0 for none (killed
/// by a signal) and for a negative one.
pub fn exit_code_of(code: Option<i32>) -> (r: u32)
    ensures
        match code {
            Some(c) => if c >= 0 { r == c as u32 } else { r == 0 },
            None => r == 0,
        },
{
    match code {
        Some(c) => if c >= 0 {
            c as u32
        } else {
            0
        },
        None => 0,
    }
}

/// The chunks `cs` one after another.
pub open spec fn joined(cs: Seq<Seq<u8>>) -> Seq<u8>
    decreases cs.len(),
{
    if cs.len() == 0 {
        Seq::empty()
    } else {
        joined(cs.drop_last()) + cs.last()
    }
}

pub open spec fn chunk_views(cs: Seq<Vec<u8>>) -> Seq<Seq<u8>> {
    cs.map_values(|c: Vec<u8>| c@)
}

fn join_chunks(cs: Vec<Vec<u8>>) -> (r: Vec<u8>)
    ensures
        r@ == joined(chunk_views(cs@)),
{
    let mut out: Vec<u8> = Vec::new();
    let mut i: usize = 0;
    let ghost cv = chunk_views(cs@);
    assert(cv.take(0) =~= Seq::<Seq<u8>>::empty());
    while i < cs.len()
        invariant
            i <= cs@.len(),
            cv == chunk_views(cs@),
            out@ == joined(cv.take(i as int)),
        decreases cs.len() - i,
    {
        let mut c = cs[i].clone();
        let ghost before = out@;
        out.append(&mut c);
        proof {
            assert(cv.take(i + 1).drop_last() =~= cv.take(i as int));
            assert(cv.take(i + 1).last() == cs@[i as int]@);
        }
        i = i + 1;
    }
    assert(cv.take(cv.len() as int) =~= cv);
    out
}

/// What reading a child's output without blocking gives: the chunks that
/// were waiting on stdout and on stderr, each stream's joined in order, and
/// whether anything came (which counts as activity for the inactivity
/// timeout).
pub fn read_available(stdout_chunks: Vec<Vec<u8>>, stderr_chunks: Vec<Vec<u8>>) -> (r: (Vec<u8>, Vec<u8>, bool))
    ensures
        r.0@ == joined(chunk_views(stdout_chunks@)),
        r.1@ == joined(chunk_views(stderr_chunks@)),
        r.2 == (r.0@.len() > 0 || r.1@.len() > 0),
{
    let out = join_chunks(stdout_chunks);
    let err = join_chunks(stderr_chunks);
    let active = out.len() > 0 || err.len() > 0;
    (out, err, active)
}

} // verus!
