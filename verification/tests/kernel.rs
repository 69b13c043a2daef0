use rad::kernel::dispatch::{post_destination, PostQueue};
use rad::kernel::registry::{Manifest, Registry, RegistryError};
use rad::orchestrator::{event_loop_step, LoopAction, Received};

fn manifest(name: &str, provides: &[&str]) -> Manifest {
    Manifest {
        name: name.to_string(),
        version: "0.1.0".to_string(),
        abi: "1".to_string(),
        provides: provides.iter().map(ToString::to_string).collect(),
    }
}

#[test]
fn routes_methods_to_the_module_that_provides_them() {
    let mut r = Registry::new();
    assert!(r.register(manifest("context", &["context.optimize"])).is_ok());
    assert!(r.register(manifest("skills", &["skills.list"])).is_ok());
    assert_eq!(r.route("context.optimize"), Some("context"));
    assert_eq!(r.route("skills.list"), Some("skills"));
    assert_eq!(r.route("nobody.provides.this"), None);
}

#[test]
fn a_method_claimed_twice_is_a_startup_error_naming_both() {
    let mut r = Registry::new();
    assert!(r.register(manifest("a", &["shared.method"])).is_ok());
    let err = match r.register(manifest("b", &["shared.method"])) {
        Err(e) => e,
        Ok(()) => panic!("expected an error"),
    };
    match &err {
        RegistryError::DuplicateMethod { method, existing, incoming } => {
            assert_eq!(method, "shared.method");
            assert_eq!(existing, "a");
            assert_eq!(incoming, "b");
        }
        RegistryError::DuplicateModule(_) => panic!("expected DuplicateMethod"),
    }
    let text = err.message();
    assert!(text.contains("shared.method") && text.contains("'a'") && text.contains("'b'"));
}

#[test]
fn a_rejected_module_leaves_no_partial_routes() {
    let mut r = Registry::new();
    assert!(r.register(manifest("a", &["a.one"])).is_ok());
    assert!(r.register(manifest("b", &["b.fresh", "a.one"])).is_err());
    assert_eq!(r.route("b.fresh"), None, "half-registered a rejected module");
    assert_eq!(r.route("a.one"), Some("a"));
    assert_eq!(r.module_names(), vec!["a"]);
}

#[test]
fn duplicate_module_names_are_rejected() {
    let mut r = Registry::new();
    assert!(r.register(manifest("dup", &["x.one"])).is_ok());
    match r.register(manifest("dup", &["x.two"])) {
        Err(RegistryError::DuplicateModule(name)) => assert_eq!(name, "dup"),
        _ => panic!("expected DuplicateModule"),
    }
}

#[test]
fn a_module_providing_nothing_still_registers() {
    let mut r = Registry::new();
    assert!(r.register(manifest("ui", &[])).is_ok());
    assert_eq!(r.module_names(), vec!["ui"]);
    assert!(r.manifest("ui").is_some());
}

#[test]
fn empty_registry_reports_itself_empty() {
    assert!(Registry::new().is_empty());
}

#[test]
fn module_names_come_back_sorted() {
    let mut r = Registry::new();
    assert!(r.register(manifest("zeta", &[])).is_ok());
    assert!(r.register(manifest("alpha", &["alpha.x"])).is_ok());
    assert!(r.register(manifest("mid", &[])).is_ok());
    assert_eq!(r.module_names(), vec!["alpha", "mid", "zeta"]);
    assert!(!r.is_empty());
}

#[test]
fn duplicate_module_message_names_the_module() {
    let e = RegistryError::DuplicateModule("dup".to_string());
    assert_eq!(e.message(), "two modules are both named 'dup'");
    let m = RegistryError::DuplicateMethod { method: "m".to_string(), existing: "a".to_string(), incoming: "b".to_string() };
    assert_eq!(m.message(), "method 'm' is provided by both 'a' and 'b'; remove one of them or rename the method");
}

#[test]
fn a_queued_post_is_delivered_by_the_event_loop() {
    let mut registry = Registry::new();
    assert!(registry.register(manifest("spawn", &["spawn.run"])).is_ok());
    let mut queue = PostQueue::new();
    queue.post("test", "spawn", "spawn.run", "{\"command\":\"touch marker\"}");
    assert_eq!(event_loop_step(false, &Received::Timeout), LoopAction::DrainPosts);
    let posted = queue.next_for_drain(0).expect("the queued post should be drained");
    assert_eq!(posted.method, "spawn.run");
    assert_eq!(posted.payload, "{\"command\":\"touch marker\"}");
    assert_eq!(post_destination(&registry, &posted), Ok("spawn".to_string()));
    assert!(queue.next_for_drain(1).is_none());
}
