use rad::repo_map::{
    byte_slice, entry_action, get_signature, join_summaries, process_rust_file, split_lines, EntryAction, TopItem,
};

#[test]
fn test_signature_extraction() {
    let code = r#"
            pub struct MyStruct {
                pub x: i32,
            }

            impl MyStruct {
                pub fn new() -> Self {
                    Self { x: 0 }
                }
            }

            fn my_private_function(a: String) -> Option<usize> {
                None
            }

            pub trait Run {
                fn run(&self);
            }
        "#;

    let summary = process_rust_file("lib.rs", "lib.rs", code).expect("Failed to parse code");
    let mut lines = summary.lines();
    assert_eq!(lines.next(), Some("File: lib.rs"));
    let signatures: Vec<&str> = lines.map(|l| l.trim_start_matches("  ")).collect();

    assert_eq!(signatures.len(), 4);
    assert_eq!(signatures[0], "pub struct MyStruct");
    assert_eq!(signatures[1], "impl MyStruct");
    assert_eq!(signatures[2], "fn my_private_function(a: String) -> Option<usize>");
    assert_eq!(signatures[3], "pub trait Run");
}

#[test]
fn a_file_without_items_has_no_entry() {
    assert_eq!(process_rust_file("a.rs", "a.rs", "// nothing here\nuse std::fmt;\n").unwrap(), "");
}

#[test]
fn multi_line_signatures_are_joined() {
    let code = "pub fn long(\n    a: u8,\n    b: u8,\n) -> u8 {\n    a\n}\n";
    let summary = process_rust_file("m.rs", "src/m.rs", code).unwrap();
    assert_eq!(summary, "File: src/m.rs\n  pub fn long( a: u8, b: u8, ) -> u8");
}

#[test]
fn signatures_need_a_listed_kind_and_a_clean_range() {
    let code: Vec<char> = "struct S;\nenum E {}".chars().collect();
    let item = |kind: &str, start: usize, end: usize| TopItem { kind: kind.to_string(), start, end };
    assert_eq!(get_signature(&item("struct_item", 0, 9), &code), Some("struct S;".to_string()));
    assert_eq!(get_signature(&item("enum_item", 10, 19), &code), None);
    assert_eq!(get_signature(&item("struct_item", 0, 99), &code), None);
}

#[test]
fn byte_ranges_fall_on_character_boundaries() {
    let s: Vec<char> = "aéb".chars().collect();
    assert_eq!(byte_slice(&s, 0, 1), Some(vec!['a']));
    assert_eq!(byte_slice(&s, 1, 3), Some(vec!['é']));
    assert_eq!(byte_slice(&s, 2, 3), None);
    assert_eq!(byte_slice(&s, 3, 1), None);
    assert_eq!(byte_slice(&s, 4, 4), Some(vec![]));
}

#[test]
fn lines_drop_carriage_returns_and_a_final_newline() {
    let s: Vec<char> = "a\r\nb\n\nc\r".chars().collect();
    let ls: Vec<String> = split_lines(&s).into_iter().map(|l| l.into_iter().collect()).collect();
    assert_eq!(ls, vec!["a", "b", "", "c\r"]);
    let t: Vec<char> = "x\n".chars().collect();
    assert_eq!(split_lines(&t).len(), 1);
}

#[test]
fn directory_entries() {
    assert!(matches!(entry_action(".git", true), EntryAction::Skip));
    assert!(matches!(entry_action("target", true), EntryAction::Skip));
    assert!(matches!(entry_action("node_modules", true), EntryAction::Skip));
    assert!(matches!(entry_action("src", true), EntryAction::Descend));
    assert!(matches!(entry_action("main.rs", false), EntryAction::Summarize));
    assert!(matches!(entry_action("notes.md", false), EntryAction::Skip));
}

#[test]
fn map_joins_nonempty_entries_with_blank_lines() {
    let parts = vec!["A".to_string(), String::new(), "B".to_string()];
    assert_eq!(join_summaries(&parts), "A\n\nB");
}
