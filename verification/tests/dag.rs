use rad::dag::Dag;

#[test]
fn test_create_and_text() {
    let mut dag = Dag::new();
    let root_id = dag.create_node("", "root").unwrap();
    assert_eq!(root_id, "node_0");
    assert_eq!(dag.current_node_id().map(|s| s.as_str()), Some("node_0"));

    let child_id = dag.create_node(&root_id, "child").unwrap();
    assert_eq!(child_id, "node_1");
    assert_eq!(dag.current_node_id().map(|s| s.as_str()), Some("node_1"));

    let child_node = dag.node(&child_id).unwrap();
    assert_eq!(child_node.parent_ids, vec![root_id.clone()]);

    dag.set_node_text(&child_id, "hello world").unwrap();
    assert_eq!(dag.node(&child_id).unwrap().text, "hello world");
}

#[test]
fn test_invalid_parent() {
    let mut dag = Dag::new();
    let res = dag.create_node("invalid_id", "node");
    assert!(res.is_err());
}

#[test]
fn test_merge_nodes() {
    let mut dag = Dag::new();
    let root = dag.create_node("", "root").unwrap();
    let child1 = dag.create_node(&root, "child1").unwrap();
    let child2 = dag.create_node(&root, "child2").unwrap();

    let grand_child = dag.create_node(&child1, "grand_child").unwrap();
    dag.add_parent(&grand_child, &child2).unwrap();

    let merge_id = dag.merge_nodes(&[child1.clone(), child2.clone()], "merged summary").unwrap();
    assert_eq!(merge_id, "node_4");

    assert!(!dag.contains(&child1));
    assert!(!dag.contains(&child2));

    let merge_node = dag.node(&merge_id).unwrap();
    assert_eq!(merge_node.parent_ids, vec![root.clone()]);
    assert_eq!(merge_node.text, "merged summary");

    let gc_node = dag.node(&grand_child).unwrap();
    assert_eq!(gc_node.parent_ids, vec![merge_id.clone()]);
}

#[test]
fn test_delete_node() {
    let mut dag = Dag::new();
    let root = dag.create_node("", "root").unwrap();
    let child = dag.create_node(&root, "child").unwrap();

    dag.delete_node(&root).unwrap();
    assert!(!dag.contains(&root));
    assert!(dag.contains(&child));

    let child_node = dag.node(&child).unwrap();
    assert!(child_node.parent_ids.is_empty());
}

#[test]
fn merge_refuses_unknown_or_empty_sets() {
    let mut dag = Dag::new();
    let root = dag.create_node("", "user").unwrap();
    assert!(dag.merge_nodes(&[], "s").is_err());
    assert!(dag.merge_nodes(&["nope".to_string()], "s").is_err());
    assert_eq!(dag.len(), 1);
    assert_eq!(dag.next_id(), 1);
    assert!(dag.contains(&root));
}

#[test]
fn merging_the_tip_moves_the_tip_to_the_merge_node() {
    let mut dag = Dag::new();
    let a = dag.create_node("", "user").unwrap();
    let b = dag.create_node(&a, "assistant").unwrap();
    let m = dag.merge_nodes(&[a.clone(), b.clone()], "sum").unwrap();
    assert_eq!(dag.current_node_id().map(|s| s.as_str()), Some(m.as_str()));
    let node = dag.node(&m).unwrap();
    assert_eq!(node.node_type, "merge");
    assert!(node.parent_ids.is_empty());
}

#[test]
fn deleting_the_tip_moves_it_to_the_parent() {
    let mut dag = Dag::new();
    let a = dag.create_node("", "user").unwrap();
    let b = dag.create_node(&a, "assistant").unwrap();
    dag.delete_node(&b).unwrap();
    assert_eq!(dag.current_node_id().map(|s| s.as_str()), Some(a.as_str()));
    assert!(dag.delete_node("missing").is_err());
    assert!(dag.set_node_text("missing", "x").is_err());
}

#[test]
fn refusals_name_what_was_missing() {
    let mut dag = Dag::new();
    let root = dag.create_node("", "root").unwrap();
    assert_eq!(dag.create_node("ghost", "x"), Err("Parent node 'ghost' not found".to_string()));
    assert_eq!(dag.set_node_text("ghost", "t"), Err("Node 'ghost' not found".to_string()));
    assert_eq!(dag.delete_node("ghost"), Err("Node 'ghost' not found".to_string()));
    assert_eq!(dag.add_parent("ghost", &root), Err("Node 'ghost' not found".to_string()));
    assert_eq!(dag.merge_nodes(&[], "s"), Err("No nodes to merge".to_string()));
    let ids = vec![root.clone(), "a".to_string(), "b".to_string()];
    assert_eq!(dag.merge_nodes(&ids, "s"), Err("Node 'a' not found".to_string()));
    assert_eq!(dag.len(), 1);
}
