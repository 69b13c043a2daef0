use rad::command::templates::{expand_template, list_names};

fn entries(names: &[&str]) -> Vec<String> {
    names.iter().map(|n| n.to_string()).collect()
}

#[test]
fn test_expand_substitutes_placeholder() {
    assert_eq!(expand_template("Hello, $ARGUMENTS!", "world"), "Hello, world!");
}

#[test]
fn test_expand_appends_args_when_no_placeholder() {
    assert_eq!(
        expand_template("Review the current diff for correctness.", "focus on security"),
        "Review the current diff for correctness.\n\nfocus on security"
    );
}

#[test]
fn test_expand_returns_template_unchanged_when_no_args_and_no_placeholder() {
    assert_eq!(expand_template("Review the current diff.", ""), "Review the current diff.");
}

#[test]
fn expand_replaces_every_placeholder() {
    assert_eq!(expand_template("$ARGUMENTS and $ARGUMENTS", "x"), "x and x");
}

#[test]
fn expand_with_a_placeholder_and_no_args_removes_it() {
    assert_eq!(expand_template("Run $ARGUMENTS now", ""), "Run  now");
}

#[test]
fn test_list_names_finds_md_files_only() {
    let names = list_names(&vec![entries(&["alpha.md", "beta.md", "notes.txt"])]);
    assert_eq!(names, vec!["alpha".to_string(), "beta".to_string()]);
}

#[test]
fn test_list_names_empty_when_no_dir() {
    assert!(list_names(&vec![]).is_empty());
}

#[test]
fn list_names_merges_directories_sorted_and_once() {
    let names = list_names(&vec![entries(&["zeta.md", "alpha.md"]), entries(&["alpha.md", "mid.md"])]);
    assert_eq!(names, vec!["alpha".to_string(), "mid".to_string(), "zeta".to_string()]);
}
