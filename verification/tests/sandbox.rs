use rad::sandbox::{
    absolute_target, change_type, clean_path, has_permission, missing_snapshot, parent_path, patched_text,
    pattern_path, permit, resolve_target_path, restore_destination, snapshot_destination, strip_path_prefix,
    Access, ChangeKind, FsReplies, FsSandbox, FsStep,
};

/// Answers the sandbox's questions from a list of existing paths, each
/// canonical as it stands.
fn drive(mut step: impl FnMut(&FsReplies) -> FsStep, existing: &[&str]) -> Result<String, String> {
    let mut replies = FsReplies { exists: Vec::new(), canonical: None };
    loop {
        match step(&replies) {
            FsStep::Exists(p) => replies.exists.push(existing.contains(&p.as_str())),
            FsStep::Canonicalize(p) => replies.canonical = Some(Ok(p)),
            FsStep::Done(r) => return r,
        }
    }
}

fn resolve(sandbox: &FsSandbox, raw: &str, existing: &[&str]) -> Result<String, String> {
    let cwd = Ok("/cwd".to_string());
    drive(|r| resolve_target_path(raw, sandbox.workspace_dir(), &cwd, Some("/home/u"), r), existing)
}

fn allowed(sandbox: &FsSandbox, path: &str, patterns: &Vec<String>, existing: &[&str]) -> Result<bool, String> {
    let cleaned: Vec<Result<String, String>> = patterns
        .iter()
        .map(|p| {
            let full = pattern_path(p, sandbox.workspace_dir(), Some("/home/u"));
            drive(|r| clean_path(&full, r), existing)
        })
        .collect();
    has_permission(path, patterns, &cleaned)
}

fn check(sandbox: &FsSandbox, access: Access, raw: &str, existing: &[&str]) -> Result<String, rad::error::UnifiedError> {
    let resolved = resolve(sandbox, raw, existing);
    let patterns = match access {
        Access::Read => sandbox.read_allow(),
        Access::Write => sandbox.write_allow(),
    };
    let granted = match &resolved {
        Ok(p) => allowed(sandbox, p, patterns, existing),
        Err(_) => Ok(false),
    };
    permit(access, raw, resolved, granted)
}

#[test]
fn test_permissions() {
    let sandbox = FsSandbox::new(
        "/ws".to_string(),
        "/snap".to_string(),
        vec!["allowed_read".to_string(), "shared/subdir".to_string()],
        vec!["allowed_write".to_string()],
    );
    let existing = ["/", "/ws"];

    let read_err1 = check(&sandbox, Access::Read, "forbidden/file.txt", &existing).unwrap_err();
    assert!(read_err1.to_text().contains("Read permission denied"));

    let read_ok = check(&sandbox, Access::Read, "allowed_read/file.txt", &existing);
    assert!(read_ok.is_ok());

    let write_err1 = check(&sandbox, Access::Write, "forbidden/file.txt", &existing).unwrap_err();
    assert!(write_err1.to_text().contains("Write permission denied"));

    let write_ok = check(&sandbox, Access::Write, "allowed_write/file.txt", &existing);
    assert_eq!(write_ok.unwrap(), "/ws/allowed_write/file.txt");
}

#[test]
fn test_wildcard_permission() {
    let sandbox = FsSandbox::new("/ws".to_string(), "/snap".to_string(), vec!["*".to_string()], vec!["*".to_string()]);
    let existing = ["/", "/ws"];
    assert!(check(&sandbox, Access::Write, "any_dir/file.txt", &existing).is_ok());
    assert!(check(&sandbox, Access::Read, "any_dir/file.txt", &existing).is_ok());
}

#[test]
fn test_patch() {
    let original = "line 1\nline 2\nline 3\n";
    let diff = "--- code.txt\n+++ code.txt\n@@ -1,3 +1,3 @@\n line 1\n-line 2\n+line 2 modified\n line 3\n";
    let content = patched_text(original, diff).unwrap();
    assert_eq!(content, "line 1\nline 2 modified\nline 3\n");
}

#[test]
fn a_patch_that_does_not_apply_is_an_l2_error() {
    let diff = "--- a\n+++ a\n@@ -1,1 +1,1 @@\n-nothing like this\n+x\n";
    let err = patched_text("something else\n", diff).unwrap_err();
    assert!(err.to_text().starts_with("L2 (Rollback) Error: Failed to apply patch: "));
    assert!(err.to_text().ends_with("(rollback to: FsPatch)"));
}

#[test]
fn denial_messages_quote_the_input() {
    let r = permit(Access::Read, "x.txt", Ok("/ws/x.txt".to_string()), Ok(false)).unwrap_err();
    assert_eq!(r.to_text(), "L2 (Rollback) Error: Read permission denied for path: \"x.txt\" (rollback to: FsPermission)");
    let e = permit(Access::Write, "x.txt", Err("boom".to_string()), Ok(true)).unwrap_err();
    assert_eq!(e.to_text(), "L1 (Adaptation) Error: boom (Fs)");
}

#[test]
fn resolution_makes_paths_absolute_and_clean() {
    let sandbox = FsSandbox::new("ws".to_string(), "snap".to_string(), vec![], vec![]);
    assert_eq!(resolve(&sandbox, "a/../b/./c", &["/"]).unwrap(), "/cwd/ws/b/c");
    assert_eq!(resolve(&sandbox, "~/notes", &["/"]).unwrap(), "/home/u/notes");
    let cwd_missing: Result<String, String> = Err("no cwd".to_string());
    assert_eq!(
        absolute_target("rel", "ws", &cwd_missing, None),
        Err("Failed to get current dir: no cwd".to_string())
    );
    assert_eq!(absolute_target("/abs", "ws", &cwd_missing, None), Ok("/abs".to_string()));
}

#[test]
fn an_existing_path_is_taken_in_its_canonical_form() {
    let mut replies = FsReplies { exists: vec![true], canonical: None };
    let step = resolve_target_path("f", "/ws", &Ok("/".to_string()), None, &replies);
    assert!(matches!(step, FsStep::Canonicalize(ref p) if p == "/ws/f"));
    replies.canonical = Some(Ok("/real/f".to_string()));
    assert!(matches!(resolve_target_path("f", "/ws", &Ok("/".to_string()), None, &replies), FsStep::Done(Ok(ref p)) if p == "/real/f"));
    replies.canonical = Some(Err("denied".to_string()));
    assert!(matches!(resolve_target_path("f", "/ws", &Ok("/".to_string()), None, &replies), FsStep::Done(Err(ref e)) if e == "Failed to canonicalize path: denied"));
}

#[test]
fn parents_and_prefixes() {
    assert_eq!(parent_path("/a/b"), Some("/a".to_string()));
    assert_eq!(parent_path("/a"), Some("/".to_string()));
    assert_eq!(parent_path("/"), None);
    assert_eq!(parent_path("a"), Some(String::new()));
    assert_eq!(strip_path_prefix("/a/b/c", "/a"), Some("b/c".to_string()));
    assert_eq!(strip_path_prefix("/a/bc", "/a/b"), None);
}

#[test]
fn snapshot_paths() {
    assert_eq!(snapshot_destination("/snap/n1", "/ws/dir/f", "/ws"), Ok("/snap/n1/dir/f".to_string()));
    assert_eq!(
        snapshot_destination("/snap/n1", "/elsewhere/f", "/ws"),
        Err("Target path is outside the workspace".to_string())
    );
    assert_eq!(restore_destination("/snap/n1", "/snap/n1/dir/f", "/ws"), Ok("/ws/dir/f".to_string()));
    assert_eq!(missing_snapshot("n9"), "Snapshot for node n9 does not exist");
}

#[test]
fn change_types() {
    assert_eq!(change_type(ChangeKind::Create), Some("create".to_string()));
    assert_eq!(change_type(ChangeKind::Modify), Some("modify".to_string()));
    assert_eq!(change_type(ChangeKind::Remove), Some("remove".to_string()));
    assert_eq!(change_type(ChangeKind::Other), None);
}

#[test]
fn a_failing_pattern_ends_the_check_but_only_when_reached() {
    let patterns = vec!["*".to_string(), "bad".to_string()];
    let cleaned = vec![Ok("*".to_string()), Err("broken".to_string())];
    assert_eq!(has_permission("/x", &patterns, &cleaned), Ok(true));
    let patterns = vec!["bad".to_string(), "*".to_string()];
    let cleaned = vec![Err("broken".to_string()), Ok("*".to_string())];
    assert_eq!(has_permission("/x", &patterns, &cleaned), Err("broken".to_string()));
}
