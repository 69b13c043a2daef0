//! The git commands the autopilot runs: a branch per task, a commit per
//! checkpoint, a hard reset to roll back. Running git is the host's work.
use vstd::prelude::*;
use crate::error::{ErrorV, UnifiedError};
use crate::order::views;
use crate::text::{owned, push_str, string_of, trim, trim_str};

verus! {

/// The branch of the task `task_id`.
pub fn autopilot_branch_name(task_id: &str) -> (r: String)
    ensures
        r@ == "rad-autopilot-"@ + task_id@,
{
    let mut b: Vec<char> = Vec::new();
    push_str(&mut b, "rad-autopilot-");
    push_str(&mut b, task_id);
    string_of(b.as_slice())
}

fn args2(a: &str, b: &str) -> (r: Vec<String>)
    ensures
        views(r@) == seq![a@, b@],
{
    let mut v: Vec<String> = Vec::new();
    v.push(owned(a));
    v.push(owned(b));
    assert(views(v@) =~= seq![a@, b@]);
    v
}

fn args3(a: &str, b: &str, c: &str) -> (r: Vec<String>)
    ensures
        views(r@) == seq![a@, b@, c@],
{
    let mut v: Vec<String> = Vec::new();
    v.push(owned(a));
    v.push(owned(b));
    v.push(owned(c));
    assert(views(v@) =~= seq![a@, b@, c@]);
    v
}

/// `git show-ref --verify refs/heads/<branch>`: succeeds when the branch
/// exists.
pub fn show_ref_args(branch: &str) -> (r: Vec<String>)
    ensures
        views(r@) == seq!["show-ref"@, "--verify"@, "refs/heads/"@ + branch@],
{
    let mut b: Vec<char> = Vec::new();
    push_str(&mut b, "refs/heads/");
    push_str(&mut b, branch);
    let r = string_of(b.as_slice());
    args3("show-ref", "--verify", r.as_str())
}

/// Checks out `branch`, creating it unless it `exists`.
pub fn checkout_args(branch: &str, exists: bool) -> (r: Vec<String>)
    ensures
        exists ==> views(r@) == seq!["checkout"@, branch@],
        !exists ==> views(r@) == seq!["checkout"@, "-b"@, branch@],
{
    if exists {
        args2("checkout", branch)
    } else {
        args3("checkout", "-b", branch)
    }
}

/// `git add .`
pub fn add_all_args() -> (r: Vec<String>)
    ensures
        views(r@) == seq!["add"@, "."@],
{
    args2("add", ".")
}

/// The message of the checkpoint `message`.
pub fn checkpoint_message(message: &str) -> (r: String)
    ensures
        r@ == "rad-autopilot: checkpoint "@ + message@,
{
    let mut b: Vec<char> = Vec::new();
    push_str(&mut b, "rad-autopilot: checkpoint ");
    push_str(&mut b, message);
    string_of(b.as_slice())
}

/// Commits everything staged with `message`, even when nothing changed.
pub fn commit_args(message: &str) -> (r: Vec<String>)
    ensures
        views(r@) == seq!["commit"@, "-m"@, message@, "--allow-empty"@],
{
    let mut v: Vec<String> = Vec::new();
    v.push(owned("commit"));
    v.push(owned("-m"));
    v.push(owned(message));
    v.push(owned("--allow-empty"));
    assert(views(v@) =~= seq!["commit"@, "-m"@, message@, "--allow-empty"@]);
    v
}

/// Resets the work tree and the index to `target`.
pub fn reset_args(target: &str) -> (r: Vec<String>)
    ensures
        views(r@) == seq!["reset"@, "--hard"@, target@],
{
    args3("reset", "--hard", target)
}

/// Removes untracked files and directories.
pub fn clean_args() -> (r: Vec<String>)
    ensures
        views(r@) == seq!["clean"@, "-fd"@],
{
    args2("clean", "-fd")
}

/// Names the commit `HEAD` is at.
pub fn head_args() -> (r: Vec<String>)
    ensures
        views(r@) == seq!["rev-parse"@, "HEAD"@],
{
    args2("rev-parse", "HEAD")
}

/// What a git run gives: its trimmed output when it succeeded, else an L1
/// error of category `Git` carrying its trimmed error output.
pub fn git_result(success: bool, stdout: &str, stderr: &str) -> (r: Result<String, UnifiedError>)
    ensures
        success ==> (r matches Ok(o) && o@ == trim(stdout@)),
        !success ==> (r matches Err(UnifiedError::L1 { message, category }) && message@ == trim(stderr@)
            && category@ == "Git"@),
{
    if success {
        Ok(trim_str(stdout))
    } else {
        let m = trim_str(stderr);
        Err(UnifiedError::l1(m.as_str(), "Git"))
    }
}

/// The next thing a git procedure needs: a git run with these arguments,
/// or its outcome.
pub enum GitStep<T> {
    Run(Vec<String>),
    Done(Result<T, UnifiedError>),
}

/// What a step holds as plain values.
pub enum GitStepV<T> {
    Run(Seq<Seq<char>>),
    Done(Result<T, ErrorV>),
}

pub open spec fn step_view(s: &GitStep<String>) -> GitStepV<Seq<char>> {
    match s {
        GitStep::Run(a) => GitStepV::Run(views(a@)),
        GitStep::Done(Ok(o)) => GitStepV::Done(Ok(o@)),
        GitStep::Done(Err(e)) => GitStepV::Done(Err(e@)),
    }
}

pub open spec fn unit_step_view(s: &GitStep<()>) -> GitStepV<()> {
    match s {
        GitStep::Run(a) => GitStepV::Run(views(a@)),
        GitStep::Done(Ok(o)) => GitStepV::Done(Ok(())),
        GitStep::Done(Err(e)) => GitStepV::Done(Err(e@)),
    }
}

/// The outcome of a git run as plain values.
pub open spec fn reply_view(r: &Result<String, UnifiedError>) -> Result<Seq<char>, ErrorV> {
    match r {
        Ok(o) => Ok(o@),
        Err(e) => Err(e@),
    }
}

fn copy_reply(r: &Result<String, UnifiedError>) -> (c: Result<String, UnifiedError>)
    ensures
        reply_view(&c) == reply_view(r),
{
    match r {
        Ok(o) => Ok(o.clone()),
        Err(e) => Err(e.duplicate()),
    }
}

/// `git rev-parse HEAD`, step by step: `replies` are the outcomes of the
/// runs asked for so far.
pub fn get_head_sha(replies: &[Result<String, UnifiedError>]) -> (r: GitStep<String>)
    ensures
        replies@.len() == 0 ==> step_view(&r) == GitStepV::<Seq<char>>::Run(seq!["rev-parse"@, "HEAD"@]),
        replies@.len() > 0 ==> step_view(&r) == GitStepV::Done(reply_view(&replies@[0])),
{
    if replies.len() == 0 {
        GitStep::Run(head_args())
    } else {
        GitStep::Done(copy_reply(&replies[0]))
    }
}

/// Switches to the task's branch, creating it when `show-ref` finds none,
/// step by step; the outcome is the branch's name.
pub fn create_autopilot_branch(task_id: &str, replies: &[Result<String, UnifiedError>]) -> (r: GitStep<String>)
    ensures
        ({
            let branch = "rad-autopilot-"@ + task_id@;
            &&& replies@.len() == 0 ==> step_view(&r) == GitStepV::<Seq<char>>::Run(
                seq!["show-ref"@, "--verify"@, "refs/heads/"@ + branch],
            )
            &&& replies@.len() == 1 ==> step_view(&r) == GitStepV::<Seq<char>>::Run(
                if replies@[0] is Ok { seq!["checkout"@, branch] } else { seq!["checkout"@, "-b"@, branch] },
            )
            &&& replies@.len() >= 2 ==> step_view(&r) == GitStepV::Done(
                match reply_view(&replies@[1]) {
                    Ok(_) => Ok(branch),
                    Err(e) => Err(e),
                },
            )
        }),
{
    let branch = autopilot_branch_name(task_id);
    if replies.len() == 0 {
        GitStep::Run(show_ref_args(branch.as_str()))
    } else if replies.len() == 1 {
        GitStep::Run(checkout_args(branch.as_str(), replies[0].is_ok()))
    } else {
        match &replies[1] {
            Ok(_) => GitStep::Done(Ok(branch)),
            Err(e) => GitStep::Done(Err(e.duplicate())),
        }
    }
}

/// Stages everything, commits it as the checkpoint `message` and names the
/// new commit, step by step; the first failing run ends it with its error.
pub fn create_checkpoint(message: &str, replies: &[Result<String, UnifiedError>]) -> (r: GitStep<String>)
    ensures
        replies@.len() == 0 ==> step_view(&r) == GitStepV::<Seq<char>>::Run(seq!["add"@, "."@]),
        replies@.len() >= 1 && replies@[0] is Err ==> step_view(&r) == GitStepV::Done(reply_view(&replies@[0])),
        replies@.len() == 1 && replies@[0] is Ok ==> step_view(&r) == GitStepV::<Seq<char>>::Run(
            seq!["commit"@, "-m"@, "rad-autopilot: checkpoint "@ + message@, "--allow-empty"@],
        ),
        replies@.len() >= 2 && replies@[0] is Ok && replies@[1] is Err ==> step_view(&r) == GitStepV::Done(
            reply_view(&replies@[1]),
        ),
        replies@.len() == 2 && replies@[0] is Ok && replies@[1] is Ok ==> step_view(&r) == GitStepV::<Seq<char>>::Run(
            seq!["rev-parse"@, "HEAD"@],
        ),
        replies@.len() >= 3 && replies@[0] is Ok && replies@[1] is Ok ==> step_view(&r) == GitStepV::Done(
            reply_view(&replies@[2]),
        ),
{
    if replies.len() == 0 {
        return GitStep::Run(add_all_args());
    }
    if replies[0].is_err() {
        return GitStep::Done(copy_reply(&replies[0]));
    }
    if replies.len() == 1 {
        let m = checkpoint_message(message);
        return GitStep::Run(commit_args(m.as_str()));
    }
    if replies[1].is_err() {
        return GitStep::Done(copy_reply(&replies[1]));
    }
    if replies.len() == 2 {
        return GitStep::Run(head_args());
    }
    GitStep::Done(copy_reply(&replies[2]))
}

/// Resets to `target_commit` and removes untracked files, step by step;
/// the first failing run ends it with its error.
pub fn rollback_to_checkpoint(target_commit: &str, replies: &[Result<String, UnifiedError>]) -> (r: GitStep<()>)
    ensures
        replies@.len() == 0 ==> unit_step_view(&r) == GitStepV::<()>::Run(seq!["reset"@, "--hard"@, target_commit@]),
        replies@.len() >= 1 && replies@[0] is Err ==> unit_step_view(&r) == GitStepV::<()>::Done(
            Err(replies@[0]->Err_0@),
        ),
        replies@.len() == 1 && replies@[0] is Ok ==> unit_step_view(&r) == GitStepV::<()>::Run(seq!["clean"@, "-fd"@]),
        replies@.len() >= 2 && replies@[0] is Ok ==> unit_step_view(&r) == GitStepV::<()>::Done(
            match reply_view(&replies@[1]) {
                Ok(_) => Ok(()),
                Err(e) => Err(e),
            },
        ),
{
    if replies.len() == 0 {
        return GitStep::Run(reset_args(target_commit));
    }
    match &replies[0] {
        Err(e) => {
            return GitStep::Done(Err(e.duplicate()));
        },
        Ok(_) => {},
    }
    if replies.len() == 1 {
        return GitStep::Run(clean_args());
    }
    match &replies[1] {
        Ok(_) => GitStep::Done(Ok(())),
        Err(e) => GitStep::Done(Err(e.duplicate())),
    }
}

} // verus!
