use rad::path::{join, lexical_clean};

#[test]
fn clean_drops_dots_and_resolves_parents() {
    assert_eq!(lexical_clean("/a/./b/../c"), "/a/c");
    assert_eq!(lexical_clean("/a//b/"), "/a/b");
}

#[test]
fn clean_never_climbs_above_the_root() {
    assert_eq!(lexical_clean("/../x"), "/x");
    assert_eq!(lexical_clean("a/../../b"), "b");
}

#[test]
fn clean_of_only_dots_is_empty() {
    assert_eq!(lexical_clean("./."), "");
}

#[test]
fn join_puts_one_separator_between() {
    assert_eq!(join("/w", "f.txt"), "/w/f.txt");
    assert_eq!(join("/w/", "f.txt"), "/w/f.txt");
    assert_eq!(join("/w", "/abs"), "/abs");
    assert_eq!(join("", "rel"), "rel");
}
