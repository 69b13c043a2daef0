//! The file sandbox's decisions: which absolute path an input means, whether
//! it falls under an allowed pattern, what a denied or failed operation
//! answers, and the text a patch gives. The filesystem itself (whether a
//! path exists, its canonical form, reading and writing) is the host's;
//! where a decision needs it, it asks through a step.
use vstd::prelude::*;
use crate::config::{expand_tilde, expand_tilde_spec};
use crate::error::UnifiedError;
use crate::path::{
    Comp, Component, comp_views, comps, components, is_absolute, join, join_spec, lexical_clean,
    lexical_clean_spec, render, render_components, starts_with, starts_with_spec,
};
use crate::text::{chars_of, owned, push_str, str_eq, string_of};

verus! {

/// The sandbox: its workspace, where its snapshots go, and the path
/// patterns reads and writes are allowed under.
pub struct FsSandbox {
    workspace_dir: String,
    snapshot_dir: String,
    fs_read_allow: Vec<String>,
    fs_write_allow: Vec<String>,
}

impl FsSandbox {
    pub closed spec fn workspace(&self) -> Seq<char> {
        self.workspace_dir@
    }

    pub closed spec fn snapshots(&self) -> Seq<char> {
        self.snapshot_dir@
    }

    pub closed spec fn read_patterns(&self) -> Seq<Seq<char>> {
        crate::order::views(self.fs_read_allow@)
    }

    pub closed spec fn write_patterns(&self) -> Seq<Seq<char>> {
        crate::order::views(self.fs_write_allow@)
    }

    pub fn new(workspace_dir: String, snapshot_dir: String, fs_read_allow: Vec<String>, fs_write_allow: Vec<String>) -> (r: Self)
        ensures
            r.workspace() == workspace_dir@,
            r.snapshots() == snapshot_dir@,
            r.read_patterns() == crate::order::views(fs_read_allow@),
            r.write_patterns() == crate::order::views(fs_write_allow@),
    {
        FsSandbox { workspace_dir, snapshot_dir, fs_read_allow, fs_write_allow }
    }

    /// Replaces both pattern lists.
    pub fn update_permissions(&mut self, read: Vec<String>, write: Vec<String>)
        ensures
            final(self).read_patterns() == crate::order::views(read@),
            final(self).write_patterns() == crate::order::views(write@),
            final(self).workspace() == old(self).workspace(),
            final(self).snapshots() == old(self).snapshots(),
    {
        self.fs_read_allow = read;
        self.fs_write_allow = write;
    }

    pub fn workspace_dir(&self) -> (r: &str)
        ensures
            r@ == self.workspace(),
    {
        self.workspace_dir.as_str()
    }

    pub fn snapshot_dir(&self) -> (r: &str)
        ensures
            r@ == self.snapshots(),
    {
        self.snapshot_dir.as_str()
    }

    pub fn read_allow(&self) -> (r: &Vec<String>)
        ensures
            crate::order::views(r@) == self.read_patterns(),
    {
        &self.fs_read_allow
    }

    pub fn write_allow(&self) -> (r: &Vec<String>)
        ensures
            crate::order::views(r@) == self.write_patterns(),
    {
        &self.fs_write_allow
    }
}

/// `Path::parent`: the path without its last component; none for a path
/// ending in the root, or without components.
pub open spec fn parent_spec(p: Seq<char>) -> Option<Seq<char>> {
    let cs = comps(p);
    if cs.len() == 0 || cs.last() == Comp::Root {
        None
    } else {
        Some(render(cs.drop_last()))
    }
}

/// The parent of `p`, as [`parent_spec`] says.
pub fn parent_path(p: &str) -> (r: Option<String>)
    ensures
        match r {
            Some(s) => parent_spec(p@) == Some(s@),
            None => parent_spec(p@) is None,
        },
{
    let mut cs = components(p);
    let n = cs.len();
    if n == 0 {
        return None;
    }
    match &cs[n - 1] {
        Component::Root => {
            return None;
        },
        _ => {},
    }
    let ghost before = comp_views(cs@);
    cs.pop();
    assert(comp_views(cs@) =~= before.drop_last());
    Some(render_components(&cs))
}

/// `Path::strip_prefix`: what follows `base` in `p`, when `base` is a
/// component-wise prefix of it.
pub open spec fn strip_prefix_spec(p: Seq<char>, base: Seq<char>) -> Option<Seq<char>> {
    if starts_with_spec(p, base) {
        Some(render(comps(p).skip(comps(base).len() as int)))
    } else {
        None
    }
}

/// What follows `base` in `p`, as [`strip_prefix_spec`] says.
pub fn strip_path_prefix(p: &str, base: &str) -> (r: Option<String>)
    ensures
        match r {
            Some(s) => strip_prefix_spec(p@, base@) == Some(s@),
            None => strip_prefix_spec(p@, base@) is None,
        },
{
    if !starts_with(p, base) {
        return None;
    }
    let pc = components(p);
    let bc = components(base);
    let mut rest: Vec<Component> = Vec::new();
    let mut i = bc.len();
    let ghost tail = comp_views(pc@).skip(comp_views(bc@).len() as int);
    assert(comp_views(rest@) =~= tail.take(0));
    while i < pc.len()
        invariant
            bc@.len() <= i <= pc@.len(),
            tail == comp_views(pc@).skip(bc@.len() as int),
            comp_views(rest@) == tail.take(i - bc@.len()),
        decreases pc@.len() - i,
    {
        let c = match &pc[i] {
            Component::Root => Component::Root,
            Component::Cur => Component::Cur,
            Component::Parent => Component::Parent,
            Component::Normal(v) => Component::Normal(crate::text::slice_chars(v.as_slice(), 0, v.len())),
        };
        proof {
            if let Component::Normal(v) = &pc@[i as int] {
                assert(v@.subrange(0, v@.len() as int) =~= v@);
            }
            assert(c@ == pc@[i as int]@);
            assert(tail[i - bc@.len()] == comp_views(pc@)[i as int]);
        }
        let ghost before = comp_views(rest@);
        rest.push(c);
        assert(comp_views(rest@) =~= before.push(pc@[i as int]@));
        assert(tail.take(i + 1 - bc@.len()) =~= tail.take(i - bc@.len()).push(tail[i - bc@.len()]));
        i = i + 1;
    }
    assert(tail.take(tail.len() as int) =~= tail);
    Some(render_components(&rest))
}

/// What a walk up a path's ancestors found: an ancestor not asked about
/// yet, the first one that exists, or that none does.
pub enum WalkV {
    Ask(Seq<char>),
    Found(Seq<char>),
    Missing,
}

/// The walk from `current` up its ancestors, `exists` answering in turn
/// whether each exists.
pub open spec fn walk_up(current: Seq<char>, exists: Seq<bool>) -> WalkV
    decreases exists.len(),
{
    if exists.len() == 0 {
        WalkV::Ask(current)
    } else if exists[0] {
        WalkV::Found(current)
    } else {
        match parent_spec(current) {
            None => WalkV::Missing,
            Some(p) => walk_up(p, exists.drop_first()),
        }
    }
}

/// The next thing resolving a path needs from the filesystem.
pub enum FsStep {
    /// Whether this path exists.
    Exists(String),
    /// This existing path's canonical form, or the error's text.
    Canonicalize(String),
    /// The resolved path, or why it could not be resolved.
    Done(Result<String, String>),
}

pub enum FsStepV {
    Exists(Seq<char>),
    Canonicalize(Seq<char>),
    Done(Result<Seq<char>, Seq<char>>),
}

pub open spec fn step_view(s: FsStep) -> FsStepV {
    match s {
        FsStep::Exists(p) => FsStepV::Exists(p@),
        FsStep::Canonicalize(p) => FsStepV::Canonicalize(p@),
        FsStep::Done(Ok(p)) => FsStepV::Done(Ok(p@)),
        FsStep::Done(Err(e)) => FsStepV::Done(Err(e@)),
    }
}

pub open spec fn result_view(r: Option<Result<String, String>>) -> Option<Result<Seq<char>, Seq<char>>> {
    match r {
        Some(Ok(s)) => Some(Ok(s@)),
        Some(Err(e)) => Some(Err(e@)),
        None => None,
    }
}

/// What the filesystem answered so far: whether each path asked about
/// exists, in the order asked, and the canonical form once asked for.
pub struct FsReplies {
    pub exists: Vec<bool>,
    pub canonical: Option<Result<String, String>>,
}

/// Cleaning a path: the lexically cleaned path, with its longest existing
/// ancestor replaced by that ancestor's canonical form.
pub open spec fn clean_step(cleaned: Seq<char>, exists: Seq<bool>, canonical: Option<Result<Seq<char>, Seq<char>>>) -> FsStepV {
    match walk_up(cleaned, exists) {
        WalkV::Ask(c) => FsStepV::Exists(c),
        WalkV::Missing => FsStepV::Done(Ok(cleaned)),
        WalkV::Found(c) => match canonical {
            None => FsStepV::Canonicalize(c),
            Some(Err(e)) => FsStepV::Done(Err("Failed to canonicalize parent: "@ + e)),
            Some(Ok(k)) => FsStepV::Done(
                Ok(
                    match strip_prefix_spec(cleaned, c) {
                        Some(rel) => join_spec(k, rel),
                        None => cleaned,
                    },
                ),
            ),
        },
    }
}

fn clean_walk(cleaned: &str, exists: &Vec<bool>, from: usize, canonical: &Option<Result<String, String>>) -> (r: FsStep)
    requires
        from <= exists@.len(),
    ensures
        step_view(r) == clean_step(cleaned@, exists@.skip(from as int), result_view(*canonical)),
{
    let mut current = owned(cleaned);
    let mut i = from;
    while i < exists.len() && !exists[i]
        invariant
            from <= i <= exists@.len(),
            walk_up(cleaned@, exists@.skip(from as int)) == walk_up(current@, exists@.skip(i as int)),
        decreases exists@.len() - i,
    {
        assert(exists@.skip(i as int).drop_first() =~= exists@.skip(i + 1));
        match parent_path(current.as_str()) {
            None => {
                return FsStep::Done(Ok(owned(cleaned)));
            },
            Some(p) => {
                current = p;
            },
        }
        i = i + 1;
    }
    if i == exists.len() {
        assert(exists@.skip(i as int) =~= Seq::<bool>::empty());
        return FsStep::Exists(current);
    }
    match canonical {
        None => FsStep::Canonicalize(current),
        Some(Err(e)) => {
            let mut b: Vec<char> = Vec::new();
            push_str(&mut b, "Failed to canonicalize parent: ");
            push_str(&mut b, e.as_str());
            FsStep::Done(Err(string_of(b.as_slice())))
        },
        Some(Ok(k)) => match strip_path_prefix(cleaned, current.as_str()) {
            Some(rel) => FsStep::Done(Ok(join(k.as_str(), rel.as_str()))),
            None => FsStep::Done(Ok(owned(cleaned))),
        },
    }
}

/// Normalises `path` without the filesystem, then puts the canonical form
/// of its longest existing ancestor in that ancestor's place, so that it
/// can be compared with patterns even where it does not exist yet.
/// `replies` holds what the filesystem answered so far; the result is the
/// next question, or the path.
pub fn clean_path(path: &str, replies: &FsReplies) -> (r: FsStep)
    ensures
        step_view(r) == clean_step(lexical_clean_spec(path@), replies.exists@, result_view(replies.canonical)),
{
    let cleaned = lexical_clean(path);
    assert(replies.exists@.skip(0) =~= replies.exists@);
    clean_walk(cleaned.as_str(), &replies.exists, 0, &replies.canonical)
}

/// The absolute path an input means: `~/` expanded with `home`, then, when
/// still relative, taken from the workspace, itself taken from the working
/// directory `cwd` when relative (whose error ends the resolution).
pub open spec fn absolute_spec(raw: Seq<char>, workspace: Seq<char>, cwd: Result<Seq<char>, Seq<char>>, home: Option<Seq<char>>) -> Result<Seq<char>, Seq<char>> {
    let expanded = expand_tilde_spec(raw, home);
    if is_absolute(expanded) {
        Ok(expanded)
    } else if is_absolute(workspace) {
        Ok(join_spec(workspace, expanded))
    } else {
        match cwd {
            Ok(c) => Ok(join_spec(join_spec(c, workspace), expanded)),
            Err(e) => Err("Failed to get current dir: "@ + e),
        }
    }
}

pub open spec fn str_opt(o: Option<&str>) -> Option<Seq<char>> {
    match o {
        Some(h) => Some(h@),
        None => None,
    }
}

pub open spec fn res_view(r: Result<String, String>) -> Result<Seq<char>, Seq<char>> {
    match r {
        Ok(s) => Ok(s@),
        Err(e) => Err(e@),
    }
}

/// The absolute path `raw` means, as [`absolute_spec`] says.
pub fn absolute_target(raw: &str, workspace: &str, cwd: &Result<String, String>, home: Option<&str>) -> (r: Result<String, String>)
    ensures
        res_view(r) == absolute_spec(raw@, workspace@, res_view(*cwd), str_opt(home)),
{
    let expanded = expand_tilde(raw, home);
    let ec = chars_of(expanded.as_str());
    if ec.len() > 0 && ec[0] == '/' {
        return Ok(expanded);
    }
    let wc = chars_of(workspace);
    if wc.len() > 0 && wc[0] == '/' {
        return Ok(join(workspace, expanded.as_str()));
    }
    match cwd {
        Ok(c) => {
            let base = join(c.as_str(), workspace);
            Ok(join(base.as_str(), expanded.as_str()))
        },
        Err(e) => {
            let mut b: Vec<char> = Vec::new();
            push_str(&mut b, "Failed to get current dir: ");
            push_str(&mut b, e.as_str());
            Err(string_of(b.as_slice()))
        },
    }
}

/// Resolving an input path: its absolute form, canonical when it exists,
/// else cleaned as [`clean_step`] says. The first answer of `exists` is
/// about the absolute path itself.
pub open spec fn resolve_step(
    absolute: Result<Seq<char>, Seq<char>>,
    exists: Seq<bool>,
    canonical: Option<Result<Seq<char>, Seq<char>>>,
) -> FsStepV {
    match absolute {
        Err(e) => FsStepV::Done(Err(e)),
        Ok(a) => if exists.len() == 0 {
            FsStepV::Exists(a)
        } else if exists[0] {
            match canonical {
                None => FsStepV::Canonicalize(a),
                Some(Err(e)) => FsStepV::Done(Err("Failed to canonicalize path: "@ + e)),
                Some(Ok(k)) => FsStepV::Done(Ok(k)),
            }
        } else {
            clean_step(lexical_clean_spec(a), exists.drop_first(), canonical)
        },
    }
}

/// Resolves an input path for the sandbox of workspace `workspace`, as
/// [`resolve_step`] says: `~/` expanded with `home`, made absolute (from
/// the working directory `cwd` where the workspace is relative), then
/// canonical. `replies` holds what the filesystem answered so far.
pub fn resolve_target_path(raw: &str, workspace: &str, cwd: &Result<String, String>, home: Option<&str>, replies: &FsReplies) -> (r: FsStep)
    ensures
        step_view(r) == resolve_step(
            absolute_spec(raw@, workspace@, res_view(*cwd), str_opt(home)),
            replies.exists@,
            result_view(replies.canonical),
        ),
{
    let absolute = match absolute_target(raw, workspace, cwd, home) {
        Err(e) => {
            return FsStep::Done(Err(e));
        },
        Ok(a) => a,
    };
    if replies.exists.len() == 0 {
        return FsStep::Exists(absolute);
    }
    if replies.exists[0] {
        return match &replies.canonical {
            None => FsStep::Canonicalize(absolute),
            Some(Err(e)) => {
                let mut b: Vec<char> = Vec::new();
                push_str(&mut b, "Failed to canonicalize path: ");
                push_str(&mut b, e.as_str());
                FsStep::Done(Err(string_of(b.as_slice())))
            },
            Some(Ok(k)) => FsStep::Done(Ok(k.clone())),
        };
    }
    let cleaned = lexical_clean(absolute.as_str());
    assert(replies.exists@.skip(1) =~= replies.exists@.drop_first());
    clean_walk(cleaned.as_str(), &replies.exists, 1, &replies.canonical)
}

/// The path a permission pattern stands for before it is cleaned: `~/`
/// expanded, and a relative pattern taken from the workspace.
pub open spec fn pattern_spec(pattern: Seq<char>, workspace: Seq<char>, home: Option<Seq<char>>) -> Seq<char> {
    let e = expand_tilde_spec(pattern, home);
    if is_absolute(e) {
        e
    } else {
        join_spec(workspace, e)
    }
}

/// The path a permission pattern stands for, as [`pattern_spec`] says; the
/// host cleans it with [`clean_path`].
pub fn pattern_path(pattern: &str, workspace: &str, home: Option<&str>) -> (r: String)
    ensures
        r@ == pattern_spec(pattern@, workspace@, str_opt(home)),
{
    let e = expand_tilde(pattern, home);
    let ec = chars_of(e.as_str());
    if ec.len() > 0 && ec[0] == '/' {
        e
    } else {
        join(workspace, e.as_str())
    }
}

/// Whether `path` is allowed by `patterns`, looked at in order: `*` allows
/// everything; any other pattern allows what lies under its cleaned form
/// (`cleaned` holds it, or the error cleaning it gave, which ends the
/// check).
pub open spec fn grant(path: Seq<char>, patterns: Seq<Seq<char>>, cleaned: Seq<Result<Seq<char>, Seq<char>>>) -> Result<bool, Seq<char>>
    decreases patterns.len(),
{
    if patterns.len() == 0 {
        Ok(false)
    } else if patterns[0] == "*"@ {
        Ok(true)
    } else {
        match cleaned[0] {
            Err(e) => Err(e),
            Ok(p) => if starts_with_spec(path, p) {
                Ok(true)
            } else {
                grant(path, patterns.drop_first(), cleaned.drop_first())
            },
        }
    }
}

pub open spec fn results_view(v: Seq<Result<String, String>>) -> Seq<Result<Seq<char>, Seq<char>>> {
    v.map_values(|r: Result<String, String>| res_view(r))
}

/// Whether the resolved `path` is allowed by `patterns`, as [`grant`]
/// says; `cleaned[i]` is what cleaning the path of `patterns[i]` gave.
pub fn has_permission(path: &str, patterns: &Vec<String>, cleaned: &Vec<Result<String, String>>) -> (r: Result<bool, String>)
    requires
        cleaned@.len() == patterns@.len(),
    ensures
        match r {
            Ok(b) => grant(path@, crate::order::views(patterns@), results_view(cleaned@)) == Ok::<bool, Seq<char>>(b),
            Err(e) => grant(path@, crate::order::views(patterns@), results_view(cleaned@)) == Err::<bool, Seq<char>>(e@),
        },
{
    let ghost pv = crate::order::views(patterns@);
    let ghost cv = results_view(cleaned@);
    let mut i: usize = 0;
    assert(pv.skip(0) =~= pv);
    assert(cv.skip(0) =~= cv);
    while i < patterns.len()
        invariant
            i <= patterns@.len(),
            cleaned@.len() == patterns@.len(),
            pv == crate::order::views(patterns@),
            cv == results_view(cleaned@),
            grant(path@, pv, cv) == grant(path@, pv.skip(i as int), cv.skip(i as int)),
        decreases patterns@.len() - i,
    {
        assert(pv.skip(i as int)[0] == patterns@[i as int]@);
        assert(cv.skip(i as int)[0] == res_view(cleaned@[i as int]));
        assert(pv.skip(i as int).drop_first() =~= pv.skip(i + 1));
        assert(cv.skip(i as int).drop_first() =~= cv.skip(i + 1));
        if str_eq(patterns[i].as_str(), "*") {
            return Ok(true);
        }
        match &cleaned[i] {
            Err(e) => {
                return Err(e.clone());
            },
            Ok(p) => {
                if starts_with(path, p.as_str()) {
                    return Ok(true);
                }
            },
        }
        i = i + 1;
    }
    assert(pv.skip(i as int) =~= Seq::<Seq<char>>::empty());
    Ok(false)
}

/// What `{:?}` writes for a path: std's `Debug` for `Path`.
pub uninterp spec fn debug_path(p: Seq<char>) -> Seq<char>;

/// `format!("{:?}", Path::new(p))`. Claimed: a function of `p` alone,
/// named [`debug_path`]; what std quotes and escapes is left unsaid.
#[verifier::external_body]
fn path_debug(p: &str) -> (r: String)
    ensures
        r@ == debug_path(p@),
{
    format!("{:?}", std::path::Path::new(p))
}

/// Reading or writing.
pub enum Access {
    Read,
    Write,
}

pub open spec fn access_word(a: Access) -> Seq<char> {
    match a {
        Access::Read => "Read"@,
        Access::Write => "Write"@,
    }
}

/// What a sandboxed operation on the input `raw_path` may go on with: the
/// resolved path, or the error that stops it. A failed resolution or
/// permission check is an L1 error of category `Fs`; a denial is an L2
/// error naming the input, with `FsPermission` as its rollback target.
pub fn permit(access: Access, raw_path: &str, resolved: Result<String, String>, allowed: Result<bool, String>) -> (r: Result<String, UnifiedError>)
    ensures
        match resolved {
            Err(e) => r matches Err(UnifiedError::L1 { message, category }) && message@ == e@ && category@ == "Fs"@,
            Ok(p) => match allowed {
                Err(e) => r matches Err(UnifiedError::L1 { message, category }) && message@ == e@ && category@
                    == "Fs"@,
                Ok(false) => r matches Err(UnifiedError::L2 { message, rollback_target }) && message@ == access_word(
                    access,
                ) + " permission denied for path: "@ + debug_path(raw_path@) && rollback_target@
                    == "FsPermission"@,
                Ok(true) => r matches Ok(q) && q@ == p@,
            },
        },
{
    match resolved {
        Err(e) => Err(UnifiedError::l1(e.as_str(), "Fs")),
        Ok(p) => match allowed {
            Err(e) => Err(UnifiedError::l1(e.as_str(), "Fs")),
            Ok(false) => {
                let mut b: Vec<char> = Vec::new();
                match access {
                    Access::Read => push_str(&mut b, "Read"),
                    Access::Write => push_str(&mut b, "Write"),
                }
                push_str(&mut b, " permission denied for path: ");
                let d = path_debug(raw_path);
                push_str(&mut b, d.as_str());
                let m = string_of(b.as_slice());
                Err(UnifiedError::l2(m.as_str(), "FsPermission"))
            },
            Ok(true) => Ok(p),
        },
    }
}

/// Why a patch could not be used: its text did not parse, or a hunk did not
/// apply; each with the error's text.
pub enum PatchFailure {
    Parse(String),
    Apply(String),
}

/// The error text of parsing `diff` as a unified diff with diffy, `None`
/// where it parses.
pub uninterp spec fn patch_parse_error(diff: Seq<char>) -> Option<Seq<char>>;

/// What applying the parsed `diff` to `original` with diffy gives: the new
/// text, or the error's text.
pub uninterp spec fn patch_apply(original: Seq<char>, diff: Seq<char>) -> Result<Seq<char>, Seq<char>>;

/// `diffy::Patch::from_str` on `diff`, then `diffy::apply` of that patch to
/// `original`. Claimed: both are functions of their inputs alone, named
/// [`patch_parse_error`] and [`patch_apply`]; the apply runs only on a
/// patch that parsed.
#[verifier::external_body]
fn apply_patch(original: &str, diff: &str) -> (r: Result<String, PatchFailure>)
    ensures
        match r {
            Err(PatchFailure::Parse(e)) => patch_parse_error(diff@) == Some(e@),
            Err(PatchFailure::Apply(e)) => patch_parse_error(diff@) is None && patch_apply(original@, diff@) == Err::<
                Seq<char>,
                Seq<char>,
            >(e@),
            Ok(s) => patch_parse_error(diff@) is None && patch_apply(original@, diff@) == Ok::<Seq<char>, Seq<char>>(
                s@,
            ),
        },
{
    let patch = diffy::Patch::from_str(diff).map_err(|e| PatchFailure::Parse(e.to_string()))?;
    diffy::apply(original, &patch).map_err(|e| PatchFailure::Apply(e.to_string()))
}

/// The text a patch makes of `original`, or the L2 error (rollback target
/// `FsPatch`) saying why it could not be made.
pub fn patched_text(original: &str, diff: &str) -> (r: Result<String, UnifiedError>)
    ensures
        match patch_parse_error(diff@) {
            Some(e) => r matches Err(UnifiedError::L2 { message, rollback_target }) && message@
                == "Failed to parse diff patch: "@ + e && rollback_target@ == "FsPatch"@,
            None => match patch_apply(original@, diff@) {
                Ok(t) => r matches Ok(s) && s@ == t,
                Err(e) => r matches Err(UnifiedError::L2 { message, rollback_target }) && message@
                    == "Failed to apply patch: "@ + e && rollback_target@ == "FsPatch"@,
            },
        },
{
    match apply_patch(original, diff) {
        Ok(s) => Ok(s),
        Err(PatchFailure::Parse(e)) => {
            let mut b: Vec<char> = Vec::new();
            push_str(&mut b, "Failed to parse diff patch: ");
            push_str(&mut b, e.as_str());
            let m = string_of(b.as_slice());
            Err(UnifiedError::l2(m.as_str(), "FsPatch"))
        },
        Err(PatchFailure::Apply(e)) => {
            let mut b: Vec<char> = Vec::new();
            push_str(&mut b, "Failed to apply patch: ");
            push_str(&mut b, e.as_str());
            let m = string_of(b.as_slice());
            Err(UnifiedError::l2(m.as_str(), "FsPatch"))
        },
    }
}

/// Where a snapshot copies `target`: under the node's snapshot directory,
/// at the target's place relative to the workspace; an error for a target
/// outside the workspace.
pub fn snapshot_destination(node_dir: &str, canonical_target: &str, canonical_workspace: &str) -> (r: Result<String, String>)
    ensures
        match strip_prefix_spec(canonical_target@, canonical_workspace@) {
            Some(rel) => r matches Ok(d) && d@ == join_spec(node_dir@, rel),
            None => r matches Err(e) && e@ == "Target path is outside the workspace"@,
        },
{
    match strip_path_prefix(canonical_target, canonical_workspace) {
        Some(rel) => Ok(join(node_dir, rel.as_str())),
        None => Err(owned("Target path is outside the workspace")),
    }
}

/// The snapshot directory of a node.
pub fn snapshot_node_dir(snapshot_dir: &str, node_id: &str) -> (r: String)
    ensures
        r@ == join_spec(snapshot_dir@, node_id@),
{
    join(snapshot_dir, node_id)
}

/// Where restoring puts an entry of a snapshot: at its place relative to
/// the snapshot's directory, under the workspace.
pub fn restore_destination(base_snapshot_dir: &str, entry: &str, workspace_dir: &str) -> (r: Result<String, String>)
    ensures
        match strip_prefix_spec(entry@, base_snapshot_dir@) {
            Some(rel) => r matches Ok(d) && d@ == join_spec(workspace_dir@, rel),
            None => r matches Err(e) && e@ == "Failed to calculate relative path: prefix not found"@,
        },
{
    match strip_path_prefix(entry, base_snapshot_dir) {
        Some(rel) => Ok(join(workspace_dir, rel.as_str())),
        None => Err(owned("Failed to calculate relative path: prefix not found")),
    }
}

/// The answer for a node without a snapshot.
pub fn missing_snapshot(node_id: &str) -> (r: String)
    ensures
        r@ == "Snapshot for node "@ + node_id@ + " does not exist"@,
{
    let mut b: Vec<char> = Vec::new();
    push_str(&mut b, "Snapshot for node ");
    push_str(&mut b, node_id);
    push_str(&mut b, " does not exist");
    string_of(b.as_slice())
}

/// What a filesystem change was.
pub enum ChangeKind {
    Create,
    Modify,
    Remove,
    Other,
}

/// The change type reported for a filesystem event, none for kinds that
/// are not reported.
pub fn change_type(k: ChangeKind) -> (r: Option<String>)
    ensures
        match k {
            ChangeKind::Create => r matches Some(s) && s@ == "create"@,
            ChangeKind::Modify => r matches Some(s) && s@ == "modify"@,
            ChangeKind::Remove => r matches Some(s) && s@ == "remove"@,
            ChangeKind::Other => r is None,
        },
{
    match k {
        ChangeKind::Create => Some(owned("create")),
        ChangeKind::Modify => Some(owned("modify")),
        ChangeKind::Remove => Some(owned("remove")),
        ChangeKind::Other => None,
    }
}


/// A literal `*` allows every path, and so does any pattern the path lies
/// under, provided every pattern before it could be cleaned.
pub proof fn law_pattern_grants(
    path: Seq<char>,
    patterns: Seq<Seq<char>>,
    cleaned: Seq<Result<Seq<char>, Seq<char>>>,
    k: int,
)
    requires
        0 <= k < patterns.len(),
        cleaned.len() == patterns.len(),
        forall|i: int| 0 <= i < k ==> (#[trigger] cleaned[i]) is Ok,
        patterns[k] == "*"@ || (cleaned[k] is Ok && starts_with_spec(path, cleaned[k]->Ok_0)),
    ensures
        grant(path, patterns, cleaned) == Ok::<bool, Seq<char>>(true),
    decreases k,
{
    if k > 0 && patterns[0] != "*"@ {
        assert(cleaned[0] is Ok);
        if !starts_with_spec(path, cleaned[0]->Ok_0) {
            let p2 = patterns.drop_first();
            let c2 = cleaned.drop_first();
            assert forall|i: int| 0 <= i < k - 1 implies (#[trigger] c2[i]) is Ok by {
                assert(c2[i] == cleaned[i + 1]);
            }
            assert(p2[k - 1] == patterns[k]);
            assert(c2[k - 1] == cleaned[k]);
            law_pattern_grants(path, p2, c2, k - 1);
        }
    }
}

/// With no patterns nothing is allowed.
pub proof fn law_no_pattern_grants_nothing(path: Seq<char>)
    ensures
        grant(path, Seq::empty(), Seq::empty()) == Ok::<bool, Seq<char>>(false),
{
}

} // verus!
