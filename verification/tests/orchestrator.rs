use rad::config::{Config, ExtensionConfig, PermissionConfig};
use rad::orchestrator::{fs_allow_lists, new_session_id, tool_inventory_message, Autopilot, RuntimeSettings, ToolInventory, TokenUsage};

fn ext(name: &str, permissions: Option<PermissionConfig>) -> ExtensionConfig {
    ExtensionConfig {
        name: name.to_string(),
        source: String::new(),
        enabled: true,
        role: "orchestrator".to_string(),
        permissions,
        config: Vec::new(),
    }
}

fn ext_with(name: &str, read: &[&str], write: &[&str]) -> ExtensionConfig {
    ext(
        name,
        Some(PermissionConfig {
            fs_read_allow: read.iter().map(ToString::to_string).collect(),
            fs_write_allow: write.iter().map(ToString::to_string).collect(),
            ..Default::default()
        }),
    )
}

#[test]
fn fs_allow_lists_unions_every_extension() {
    let extensions = vec![
        ext_with("a", &["/read/a"], &["/write/a"]),
        ext("no-permissions", None),
        ext_with("c", &["/read/c"], &["/write/c1", "/write/c2"]),
    ];

    let (read, write) = fs_allow_lists(&extensions);
    assert_eq!(read, vec!["/read/a", "/read/c"]);
    assert_eq!(write, vec!["/write/a", "/write/c1", "/write/c2"]);
}

#[test]
fn fs_allow_lists_of_nothing_is_empty() {
    let (read, write) = fs_allow_lists(&[]);
    assert!(read.is_empty() && write.is_empty());
}

#[test]
fn session_ids_are_the_epoch_seconds() {
    assert_eq!(new_session_id(1700000000), "1700000000");
    assert_eq!(new_session_id(0), "0");
}

#[test]
fn token_usage_starts_at_zero() {
    let t = TokenUsage::default();
    assert_eq!(t.prompt_tokens, 0);
    assert_eq!(t.completion_tokens, 0);
}

#[test]
fn runtime_settings_copy_the_config() {
    let mut c = Config::default();
    c.core.hitl_enabled = true;
    let s = RuntimeSettings::read(&c);
    assert!(s.hitl_enabled);
    assert_eq!(s.llm_stream_heartbeat_ms, 15000);
}

#[test]
fn autopilot_without_a_command_announces_nothing() {
    let c = Config::default();
    let a = Autopilot::new(&c, false, None);
    assert!(a.announce().is_none());
    assert_eq!(a.workspace, ".");
}

#[test]
fn autopilot_pass_checkpoints_in_a_repository() {
    let mut c = Config::default();
    c.core.verification_command = Some("make test".to_string());
    let a = Autopilot::new(&c, true, Some("abc123".to_string()));
    assert_eq!(a.announce().unwrap(), "Running autopilot verification: make test");
    let o = a.after_verification(true);
    assert!(o.checkpoint);
    assert!(o.result.is_ok());
    assert_eq!(o.lines, vec!["Verification PASSED.".to_string()]);
}

#[test]
fn autopilot_failure_rolls_back_to_the_initial_commit() {
    let mut c = Config::default();
    c.core.verification_command = Some("false".to_string());
    let a = Autopilot::new(&c, true, Some("abc123".to_string()));
    let o = a.after_verification(false);
    assert!(!o.checkpoint);
    assert_eq!(o.rollback_to.as_deref(), Some("abc123"));
    assert_eq!(o.result.unwrap_err(), "Autopilot verification command failed. Codebase rolled back.");
    assert_eq!(o.lines, vec!["Verification FAILED. Rolling back codebase to stable SHA: abc123".to_string()]);
}

#[test]
fn tool_inventory_messages() {
    let ok = tool_inventory_message("x", &ToolInventory::Reply { text: "[1,2]".to_string(), count: Some(2) });
    assert_eq!(ok, "\x1b[32m[OK] Verified 2 tools from extension 'x'\x1b[0m");
    let mcp = tool_inventory_message("mcp-tool-provider", &ToolInventory::Reply { text: "[]".to_string(), count: Some(0) });
    assert!(mcp.contains("[FAILED]") && mcp.contains("0 tools"));
    let zero = tool_inventory_message("y", &ToolInventory::Reply { text: "[]".to_string(), count: Some(0) });
    assert_eq!(zero, "\x1b[32m[OK] Extension 'y' initialized with 0 tools\x1b[0m");
    let bad = tool_inventory_message("z", &ToolInventory::Reply { text: "{".to_string(), count: None });
    assert_eq!(bad, "\x1b[31m[FAILED] Extension 'z' returned invalid JSON from get_tools: {\x1b[0m");
    let err = tool_inventory_message("w", &ToolInventory::Failed("boom".to_string()));
    assert_eq!(err, "\x1b[31m[FAILED] Extension 'w' get_tools error: boom\x1b[0m");
}
