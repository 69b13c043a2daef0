use rad::command::completion::{bang_candidates, complete_system_commands, plan_completion, CompletionPlan};
use rad::command::handlers::{
    classify_input, clear_screen, reload_result, reset_result, rollback_report, rollback_request, session_text,
    shell_invocation, shell_report, status_text, Input, ShellOutcome,
};
use rad::command::registry::{CommandManager, CommandParser, CommandResult, Handler, ParsedCommand};
use rad::command::tools::{
    render_config_permissions, render_parsed_tools, render_tools_and_permissions, render_tools_list, render_wasm_tools,
    ProviderTools,
};
use rad::command::tree::{format_node_text, get_node_symbols, render_dag_tree};
use rad::config::{Config, ExecutionConfig, ExtensionConfig, NetworkConfig, PermissionConfig};
use rad::dag::Dag;
use rad::json::Json;
use rad::orchestrator::TokenUsage;

fn s(x: &str) -> String {
    x.to_string()
}

#[test]
fn tree_lists_nodes_in_name_order_marking_the_tip() {
    let mut dag = Dag::new();
    let root = dag.create_node("", "root").unwrap();
    let child = dag.create_node(&root, "user").unwrap();
    dag.set_node_text(&child, "hello\nworld").unwrap();
    let out = render_dag_tree(&dag).unwrap();
    assert_eq!(out, "node_0   [root] - \nnode_1 * [user] - hello world\n");
}

#[test]
fn tree_of_an_empty_graph_is_empty() {
    assert_eq!(render_dag_tree(&Dag::new()).unwrap(), "");
}

#[test]
fn tree_shows_each_node_once_under_two_parents() {
    let mut dag = Dag::new();
    let a = dag.create_node("", "root").unwrap();
    let b = dag.create_node(&a, "b").unwrap();
    let c = dag.create_node(&a, "c").unwrap();
    let d = dag.create_node(&b, "d").unwrap();
    dag.add_parent(&d, &c).unwrap();
    let out = render_dag_tree(&dag).unwrap();
    assert_eq!(out.matches("node_3").count(), 1);
    assert_eq!(out.lines().count(), 4);
}

#[test]
fn node_text_is_cut_at_forty_bytes() {
    let long = "a".repeat(50);
    assert_eq!(format_node_text(&long).unwrap(), format!("{}...", "a".repeat(40)));
    let exact = "b".repeat(40);
    assert_eq!(format_node_text(&exact).unwrap(), exact);
    assert_eq!(format_node_text("x\ny").unwrap(), "x y");
    // byte 40 inside a two-byte character: no cut can be made there
    let awkward = format!("{}é{}", "c".repeat(39), "d".repeat(5));
    assert!(format_node_text(&awkward).is_none());
}

#[test]
fn node_symbols_mark_the_tip_and_draw_connectors() {
    assert_eq!(get_node_symbols("n", Some("n"), "", true), (s("*"), s("")));
    assert_eq!(get_node_symbols("n", Some("m"), "  ", true), (s(" "), s("\u{2514}\u{2500}\u{2500} ")));
    assert_eq!(get_node_symbols("n", None, "  ", false), (s(" "), s("\u{251c}\u{2500}\u{2500} ")));
}

fn ext(name: &str, enabled: bool, permissions: Option<PermissionConfig>) -> ExtensionConfig {
    ExtensionConfig {
        name: s(name),
        source: String::new(),
        enabled,
        role: s("orchestrator"),
        permissions,
        config: Vec::new(),
    }
}

#[test]
fn permissions_list_enabled_extensions_only() {
    let mut config = Config::default();
    let perm = PermissionConfig {
        fs_read_allow: vec![s("/a")],
        fs_write_allow: vec![],
        execution: Some(ExecutionConfig { allow_bash: true, allow_commands: vec![s("ls")], block_commands: vec![] }),
        network: Some(NetworkConfig { allow_network: false, allow_domains: vec![s("x.org")] }),
    };
    config.extensions = vec![ext("one", true, Some(perm)), ext("two", false, None), ext("three", true, None)];
    let out = render_config_permissions(&config);
    assert_eq!(
        out,
        "Active Permissions:\n  Extension: one (Role: orchestrator)\n    Read Allowed Paths: [\"/a\"]\n    Write Allowed Paths: []\n    Execution: Bash allowed: true, Allowed commands: [\"ls\"], Blocked: []\n    Network: Allowed: false, Domains: [\"x.org\"]\n  Extension: three (Role: orchestrator)\n    Permissions: Default\n"
    );
}

#[test]
fn tools_list_reads_names_and_descriptions() {
    let tool = |name: &str| {
        Json::Object(vec![(
            s("function"),
            Json::Object(vec![(s("name"), Json::Str(s(name))), (s("description"), Json::Str(s("does it")))]),
        )])
    };
    let plain = Json::Object(vec![(s("name"), Json::Str(s("flat")))]);
    let parsed = Json::Array(vec![tool("read"), plain, Json::Null]);
    let mut out = String::new();
    render_parsed_tools(&mut out, "raw", Some(&parsed));
    assert_eq!(out, "  - read: does it\n  - flat: \n  - unknown: \n");
    let mut out2 = String::from(">");
    render_parsed_tools(&mut out2, "not json", None);
    assert_eq!(out2, ">  not json\n");
}

#[test]
fn tools_list_parses_the_provider_text() {
    let mut out = String::new();
    render_tools_list(
        &mut out,
        r#"[{"function": {"name": "read", "description": "does it"}}, {"name": "flat", "description": "plain"}]"#,
    );
    assert_eq!(out, "  - read: does it\n  - flat: plain\n");
    let mut out2 = String::new();
    render_tools_list(&mut out2, "not json");
    assert_eq!(out2, "  not json\n");
    let mut out3 = String::new();
    render_tools_list(&mut out3, r#"{"tools": []}"#);
    assert_eq!(out3, "  {\"tools\": []}\n");
}

#[test]
fn tools_without_providers_say_so() {
    assert_eq!(
        render_wasm_tools(&vec![]),
        "Available Tools (from Wasm tool providers):\n  No active tool provider extension found.\n"
    );
    let providers = vec![
        ProviderTools { name: s("p"), tools: Err(s("boom")) },
        ProviderTools { name: s("q"), tools: Ok(s("[]")) },
    ];
    assert_eq!(
        render_wasm_tools(&providers),
        "Available Tools (from Wasm tool providers):\n  Extension [p]:\n    Error fetching tools: boom\n  Extension [q]:\n"
    );
    let all = render_tools_and_permissions(&Config::default(), &vec![]);
    assert!(all.starts_with("Active Permissions:\n\nAvailable Tools"));
}

#[test]
fn slash_completion_offers_matching_commands() {
    match plan_completion("/re", 3) {
        CompletionPlan::Slash { start, candidates } => {
            assert_eq!(start, 0);
            assert_eq!(candidates, vec![s("/reload")]);
        }
        _ => panic!("expected slash candidates"),
    }
}

#[test]
fn slash_completion_offers_registered_names_and_aliases() {
    let slash = |line: &str| match plan_completion(line, line.len()) {
        CompletionPlan::Slash { candidates, .. } => candidates,
        _ => panic!("expected slash candidates"),
    };
    assert_eq!(slash("/ll"), vec![s("/llm")]);
    assert_eq!(slash("/m"), vec![s("/models")]);
    assert_eq!(slash("/t"), vec![s("/tree"), s("/tools")]);
    assert!(slash("/exit").is_empty());
    assert_eq!(
        slash("/"),
        vec![
            s("/help"), s("/quit"), s("/session"), s("/rollback"), s("/reload"), s("/new"), s("/tree"),
            s("/tools"), s("/llm"), s("/models"), s("/compact")
        ]
    );
}

#[test]
fn bang_completion_completes_the_program_name() {
    match plan_completion("!gi", 3) {
        CompletionPlan::Commands { start, prefix } => {
            assert_eq!(start, 0);
            assert_eq!(prefix, "gi");
        }
        _ => panic!("expected command completion"),
    }
    assert!(matches!(plan_completion("!git st", 7), CompletionPlan::Files));
    assert!(matches!(plan_completion("!", 0), CompletionPlan::Nothing));
    assert!(matches!(plan_completion("some/pa", 7), CompletionPlan::Files));
}

#[test]
fn system_commands_are_sorted_unique_and_capped() {
    let mut entries: Vec<(String, bool)> = Vec::new();
    for i in (0..30).rev() {
        entries.push((format!("tool{i:02}"), true));
    }
    entries.push((s("tool05"), true));
    entries.push((s("toolx"), false));
    entries.push((s("other"), true));
    let out = complete_system_commands("tool", &entries);
    assert_eq!(out.len(), 20);
    assert_eq!(out[0], "tool00");
    assert_eq!(out[19], "tool19");
    assert_eq!(bang_candidates(&vec![s("ls")]), vec![s("!ls")]);
}

#[test]
fn status_and_session_texts() {
    let usage = TokenUsage { prompt_tokens: 3, completion_tokens: 4 };
    assert_eq!(
        status_text("abc", &usage, 2, Some("node_1")),
        "Session ID: abc\nTotal DAG Nodes: 2\nCurrent DAG Node: node_1\nToken Usage: Prompt: 3, Completion: 4, Total: 7"
    );
    assert_eq!(
        status_text("abc", &usage, 0, None),
        "Session ID: abc\nTotal DAG Nodes: 0\nCurrent DAG Node: None\nToken Usage: Prompt: 3, Completion: 4, Total: 7"
    );
    assert_eq!(session_text("42"), "Current session: 42");
    assert_eq!(clear_screen(), "\x1b[2J\x1b[1;1H");
}

#[test]
fn rollback_needs_a_node() {
    assert_eq!(rollback_request("  node_3 ").ok(), Some(s("node_3")));
    match rollback_request("   ") {
        Err(CommandResult::StatusInfo(m)) => assert_eq!(m, "\x1b[1;31mUsage: /rollback <node_id>\x1b[0m"),
        _ => panic!("expected usage"),
    }
    assert_eq!(
        rollback_report("n", &Ok(())),
        Ok(s("Session successfully rolled back to node: n"))
    );
    assert_eq!(rollback_report("n", &Err(s("gone"))), Err(s("Failed to rollback: gone")));
}

#[test]
fn reload_and_reset_answers() {
    match reload_result(&Err(s("bad"))) {
        CommandResult::StatusInfo(m) => assert_eq!(m, "\x1b[1;31mFailed to reload configuration: bad\x1b[0m"),
        _ => panic!(),
    }
    match reset_result(&Ok(s("99"))) {
        CommandResult::StatusInfo(m) => {
            assert_eq!(m, "\x1b[32mSession reset successfully. Started new session: \x1b[1;36m99\x1b[0m")
        }
        _ => panic!(),
    }
}

#[test]
fn shell_reports() {
    assert_eq!(shell_report(&ShellOutcome::Exited(0)), None);
    assert_eq!(shell_report(&ShellOutcome::Exited(3)), Some(s("Command exited with status code: 3")));
    assert_eq!(shell_report(&ShellOutcome::Exited(-2)), Some(s("Command exited with status code: -2")));
    assert_eq!(shell_report(&ShellOutcome::Signalled), Some(s("Command terminated by signal")));
    assert_eq!(
        shell_report(&ShellOutcome::NotStarted(s("nope"))),
        Some(s("Failed to execute command: nope"))
    );
    assert_eq!(shell_invocation("ls -l"), (s("sh"), vec![s("-c"), s("ls -l")]));
}

#[test]
fn prompt_lines_are_told_apart() {
    assert!(matches!(classify_input("   "), Input::Blank));
    match classify_input("  !  ls -a ") {
        Input::Shell(Some(c)) => assert_eq!(c, "ls -a"),
        _ => panic!("expected a shell command"),
    }
    assert!(matches!(classify_input("!   "), Input::Shell(None)));
    match classify_input("/models  list") {
        Input::Command(c) => {
            assert_eq!(c.name, "llm");
            assert_eq!(c.args, "list");
        }
        _ => panic!("expected a built-in command"),
    }
    match classify_input("/greet world") {
        Input::Template { name, args, task } => {
            assert_eq!((name.as_str(), args.as_str(), task.as_str()), ("greet", "world", "/greet world"));
        }
        _ => panic!("expected a template command"),
    }
    match classify_input(" fix the bug ") {
        Input::Task(t) => assert_eq!(t, "fix the bug"),
        _ => panic!("expected a task"),
    }
}

#[test]
fn commands_run_their_handlers() {
    let parsed = CommandParser::parse("/tree").unwrap();
    assert!(matches!(CommandManager::execute(&parsed), Ok(Handler::Tree)));
    let parsed = CommandParser::parse("/models").unwrap();
    assert!(matches!(CommandManager::execute(&parsed), Ok(Handler::Llm)));
    let unknown = ParsedCommand { name: s("nope"), args: String::new() };
    match CommandManager::execute(&unknown) {
        Err(CommandResult::StatusInfo(m)) => assert_eq!(m, "Unknown command: /nope"),
        _ => panic!("expected an unknown command"),
    }
}
