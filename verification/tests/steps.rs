use rad::command::compact::{run_compact, CompactReply, CompactStep};
use rad::command::context_length::{check_endpoint, EndpointReplies, EndpointStep};
use rad::config::{config_candidates, global_config_path, local_config_candidates, Config, ModuleConfig};
use rad::dag::Dag;
use rad::dag_ops::{create_node_payload, dag_error, delete_node_payload, merge_nodes_payload, reply_id, set_node_text_payload};
use rad::error::UnifiedError;
use rad::git::{create_autopilot_branch, create_checkpoint, get_head_sha, rollback_to_checkpoint, GitStep};
use rad::http::{http_stream_step, net_stream_step, usable_headers, validate_headers, HttpInput, NetAction, StreamEvent};
use rad::ipc::TimeoutPolicy;
use rad::json::Json;
use rad::kernel::boot::{boot_plan, boot_policy, Boot};
use rad::kernel::registry::Manifest;
use rad::kernel::syscalls::{
    approval_outcome, approval_prompt, check_declared_name, net_open_check, spawn_check, spawn_failed, trap_message,
    wait_answer, wait_slice_step, WAIT_PENDING,
};
use rad::mcp::{error_line, pipe_failed, response_message, send_failed, SendStep};
use rad::orchestrator::{
    dispatch_targets, event_loop_step, extension_for_role, loop_ended, rollback_check, session_open_payload,
    set_current_payload, task_step, AttemptOutcome, LoopAction, LoopEnd, Received, TaskStep,
};
use rad::process::{command_words, exit_code_of, group_of, spawn_error};

fn s(x: &str) -> String {
    x.to_string()
}

fn ok(x: &str) -> Result<String, UnifiedError> {
    Ok(s(x))
}

fn args(step: GitStep<String>) -> Vec<String> {
    match step {
        GitStep::Run(a) => a,
        GitStep::Done(_) => panic!("expected a git run"),
    }
}

#[test]
fn autopilot_branch_is_checked_out_or_created() {
    assert_eq!(args(create_autopilot_branch("123", &[])), vec![s("show-ref"), s("--verify"), s("refs/heads/rad-autopilot-123")]);
    let missing = [Err(UnifiedError::l1("no such ref", "Git"))];
    assert_eq!(args(create_autopilot_branch("123", &missing)), vec![s("checkout"), s("-b"), s("rad-autopilot-123")]);
    assert_eq!(args(create_autopilot_branch("123", &[ok("")])), vec![s("checkout"), s("rad-autopilot-123")]);
    match create_autopilot_branch("123", &[ok(""), ok("")]) {
        GitStep::Done(Ok(b)) => assert_eq!(b, "rad-autopilot-123"),
        _ => panic!("expected the branch"),
    }
}

#[test]
fn checkpoint_stages_commits_and_names_the_commit() {
    assert_eq!(args(create_checkpoint("step_1", &[])), vec![s("add"), s(".")]);
    assert_eq!(
        args(create_checkpoint("step_1", &[ok("")])),
        vec![s("commit"), s("-m"), s("rad-autopilot: checkpoint step_1"), s("--allow-empty")]
    );
    assert_eq!(args(create_checkpoint("step_1", &[ok(""), ok("")])), vec![s("rev-parse"), s("HEAD")]);
    match create_checkpoint("step_1", &[ok(""), ok(""), ok("abc123")]) {
        GitStep::Done(Ok(sha)) => assert_eq!(sha, "abc123"),
        _ => panic!("expected the commit"),
    }
    match create_checkpoint("step_1", &[Err(UnifiedError::l1("index locked", "Git"))]) {
        GitStep::Done(Err(e)) => assert_eq!(e.to_text(), "L1 (Adaptation) Error: index locked (Git)"),
        _ => panic!("expected the error"),
    }
}

#[test]
fn rollback_resets_then_cleans() {
    match rollback_to_checkpoint("abc", &[]) {
        GitStep::Run(a) => assert_eq!(a, vec![s("reset"), s("--hard"), s("abc")]),
        _ => panic!(),
    }
    match rollback_to_checkpoint("abc", &[ok("")]) {
        GitStep::Run(a) => assert_eq!(a, vec![s("clean"), s("-fd")]),
        _ => panic!(),
    }
    assert!(matches!(rollback_to_checkpoint("abc", &[ok(""), ok("")]), GitStep::Done(Ok(()))));
    assert_eq!(args(get_head_sha(&[])), vec![s("rev-parse"), s("HEAD")]);
}

#[test]
fn endpoint_check_probes_then_reads_the_context_window() {
    let mut replies = EndpointReplies { probe: None, props: None, show: None };
    match check_endpoint("http://h:1/v1/", Some("m"), &replies) {
        EndpointStep::Probe(u) => assert_eq!(u, "http://h:1/v1/models"),
        _ => panic!(),
    }
    replies.probe = Some(Err(s("refused")));
    match check_endpoint("http://h:1/v1/", Some("m"), &replies) {
        EndpointStep::Done(st) => {
            assert_eq!(st.reachable, Err(s("refused")));
            assert_eq!(st.context_length, None);
        }
        _ => panic!(),
    }
    replies.probe = Some(Ok(()));
    match check_endpoint("http://h:1/v1/", Some("m"), &replies) {
        EndpointStep::Props(u) => assert_eq!(u, "http://h:1/props"),
        _ => panic!(),
    }
    replies.props = Some(None);
    match check_endpoint("http://h:1/v1/", Some("m"), &replies) {
        EndpointStep::Show(u, body) => {
            assert_eq!(u, "http://h:1/api/show");
            assert_eq!(rad::json::to_json_text(&body), "{\"model\":\"m\"}");
        }
        _ => panic!(),
    }
    replies.show = Some(Some(s(r#"{"model_info": {"llama.context_length": 8192}}"#)));
    match check_endpoint("http://h:1/v1/", Some("m"), &replies) {
        EndpointStep::Done(st) => assert_eq!(st.context_length, Some(8192)),
        _ => panic!(),
    }
    replies.show = Some(Some(s("not json")));
    match check_endpoint("http://h:1/v1/", Some("m"), &replies) {
        EndpointStep::Done(st) => {
            assert_eq!(st.reachable, Ok(()));
            assert_eq!(st.context_length, None);
        }
        _ => panic!(),
    }
    replies.props = Some(Some(s(r#"{"default_generation_settings": {"n_ctx": 4096}}"#)));
    match check_endpoint("http://h:1/v1/", Some("m"), &replies) {
        EndpointStep::Done(st) => assert_eq!(st.context_length, Some(4096)),
        _ => panic!(),
    }
    replies.props = Some(None);
    replies.show = Some(Some(s(r#"{"model_info": {"llama.context_length": 8192}}"#)));
    match check_endpoint("http://h:1/v1/", None, &replies) {
        EndpointStep::Done(st) => assert_eq!(st.context_length, None),
        _ => panic!(),
    }
}

#[test]
fn http_streams_report_chunks_timeouts_and_errors() {
    let out = http_stream_step(HttpInput::Chunk(b"hello".to_vec()));
    assert!(!out.done);
    assert!(matches!(&out.events[..], [StreamEvent::Token(c)] if c == "hello"));
    let out = http_stream_step(HttpInput::Chunk(vec![0x66, 0xff]));
    assert!(matches!(&out.events[..], [StreamEvent::Token(c)] if c == "f\u{fffd}"));
    let out = http_stream_step(HttpInput::ReadTimedOut(250));
    assert!(out.done);
    assert!(matches!(&out.events[..], [StreamEvent::Timeout { target, duration_ms: 250 }, StreamEvent::HttpError(m)]
        if target == "llm" && m == "HTTP error: Stream read timed out"));
    let out = http_stream_step(HttpInput::Status { success: false, text: s("404 Not Found") });
    assert!(matches!(&out.events[..], [StreamEvent::HttpError(m)] if m == "HTTP error: HTTP status error: 404 Not Found"));
    assert!(http_stream_step(HttpInput::Ended).done);
}

#[test]
fn module_streams_name_every_failure() {
    assert!(matches!(net_stream_step("http://x", HttpInput::ConnectTimedOut(10)),
        NetAction::Fail(m) if m == "Connection to http://x timed out after 10ms with no response"));
    assert!(matches!(net_stream_step("http://x", HttpInput::ReadTimedOut(7)),
        NetAction::Fail(m) if m == "stream stalled: no data received for 7ms"));
    assert!(matches!(net_stream_step("http://x", HttpInput::Status { success: false, text: s("500 Internal Server Error") }),
        NetAction::Fail(m) if m == "HTTP status error: 500 Internal Server Error from http://x"));
    assert!(matches!(net_stream_step("http://x", HttpInput::Status { success: true, text: s("200 OK") }), NetAction::ReadBody));
    assert!(matches!(net_stream_step("http://x", HttpInput::Ended), NetAction::Finish));
}

#[test]
fn headers_are_checked() {
    let good = vec![(s("Authorization"), s("Bearer k"))];
    assert!(validate_headers(&good).is_ok());
    let bad = vec![(s("bad name"), s("v"))];
    let e = validate_headers(&bad).unwrap_err();
    assert!(e.to_text().starts_with("L1 (Adaptation) Error: Invalid header name: "));
    let mixed = vec![(s("ok"), s("1")), (s("bad name"), s("2")), (s("x"), s("bad\nvalue"))];
    assert_eq!(usable_headers(&mixed), vec![(s("ok"), s("1"))]);
}

#[test]
fn kernel_calls_answer_modules() {
    assert_eq!(spawn_check(false, &vec![s("ls")]).unwrap_err().code, 503);
    let e = spawn_check(true, &vec![]).unwrap_err();
    assert_eq!((e.code, e.message.as_str()), (400, "proc-spawn requires at least a program name"));
    assert!(spawn_check(true, &vec![s("ls")]).is_ok());
    assert_eq!(approval_prompt("m", &vec![s("ls"), s("-a")]), "Spawn process from module 'm': ls -a");
    assert_eq!(approval_outcome(&Ok(false)).unwrap_err().code, 403);
    assert_eq!(approval_outcome(&Err(s("tty"))).unwrap_err().message, "approval failed: tty");
    assert_eq!(spawn_failed("nope").message, "proc-spawn failed: nope");
    assert_eq!(wait_answer(&Ok(3)).ok(), Some(3));
    assert_eq!(wait_answer(&Ok(u32::MAX)).ok(), Some(-1));
    assert_eq!(wait_answer(&Err(s("running"))).unwrap_err().code, WAIT_PENDING);
    assert_eq!(net_open_check(true, "  ").unwrap_err().message, "net-open requires a URL");
    assert!(check_declared_name("a", "a").is_ok());
    assert_eq!(check_declared_name("a", "b").unwrap_err(), "module configured as 'a' declares itself 'b'");
    assert_eq!(
        trap_message("m", "x.y", true, "e"),
        "module 'm' exceeded its time budget handling 'x.y' and was interrupted"
    );
    assert_eq!(trap_message("m", "x.y", false, "e"), "module 'm' trapped handling 'x.y': e");
}

fn manifest(name: &str, provides: &[&str]) -> Manifest {
    Manifest { name: s(name), version: s("1"), abi: s("1"), provides: provides.iter().map(|p| s(p)).collect() }
}

#[test]
fn boot_skips_modules_that_fail_and_keeps_the_rest() {
    let mut boot = Boot::new();
    assert_eq!(boot.take_module("a", Json::Null, Ok(manifest("a", &["a.x"]))), None);
    assert_eq!(
        boot.take_module("b", Json::Null, Err(s("no file"))),
        Some(s("\x1b[33mWarning: module 'b' not loaded: no file\x1b[0m"))
    );
    assert_eq!(
        boot.take_module("c", Json::Null, Ok(manifest("c", &["a.x"]))),
        Some(s("\x1b[33mWarning: module 'c' not registered: method 'a.x' is provided by both 'a' and 'c'; remove one of them or rename the method\x1b[0m"))
    );
    assert_eq!(
        boot.take_module("a", Json::Null, Ok(manifest("a", &["z"]))),
        Some(s("\x1b[33mWarning: module 'a' not registered: two modules are both named 'a'\x1b[0m"))
    );
    assert_eq!(boot.loaded, vec![s("a")]);
    assert_eq!(boot.registry.route("a.x"), Some("a"));
    assert_eq!(boot.registry.route("z"), None);
}

#[test]
fn boot_plans_enabled_modules_with_expanded_paths() {
    let mut config = Config::default();
    config.default_timeout.llm_stream_heartbeat_ms = 1234;
    config.modules = vec![
        ModuleConfig { name: s("a"), source: s("~/m/a.wasm"), enabled: true, config: Json::Null },
        ModuleConfig { name: s("b"), source: s("b.wasm"), enabled: false, config: Json::Null },
    ];
    assert_eq!(boot_plan(&config, Some("/h")), vec![(s("a"), s("/h/m/a.wasm"))]);
    assert!(matches!(boot_policy(&config), TimeoutPolicy::Dynamic { heartbeat_timeout_ms: 1234, max_silent_wait_ms: 1234 }));
}

#[test]
fn tasks_retry_crashes_a_bounded_number_of_times() {
    assert!(matches!(task_step(0, false, None), TaskStep::Attempt(0)));
    assert!(matches!(task_step(1, false, Some(&AttemptOutcome::Crashed)), TaskStep::Attempt(1)));
    assert!(matches!(task_step(2, false, Some(&AttemptOutcome::Crashed)),
        TaskStep::Done(Err(m)) if m == "Wasm execution failed after maximum recovery attempts"));
    assert!(matches!(task_step(1, true, Some(&AttemptOutcome::Crashed)), TaskStep::Done(Err(m)) if m == "Task aborted by user"));
    assert!(matches!(task_step(1, false, Some(&AttemptOutcome::Finished)), TaskStep::Done(Ok(()))));
    assert!(matches!(loop_ended(&Err(s("trap")), false), LoopEnd::Recover(m) if m == "Wasm runtime crashed: trap. Recovering..."));
    assert!(matches!(loop_ended(&Err(s("trap")), true), LoopEnd::Abort(_)));
    assert!(matches!(loop_ended(&Ok(()), false), LoopEnd::Verify));
}

#[test]
fn a_tick_with_no_event_does_not_end_the_loop() {
    assert_eq!(event_loop_step(false, &Received::Timeout), LoopAction::DrainPosts);
}

#[test]
fn a_steady_event_stream_does_not_starve_the_post_queue() {
    for _ in 0..40 {
        assert_eq!(event_loop_step(false, &Received::Event { task_completed: false }), LoopAction::ShowDispatchDrain);
    }
    assert_eq!(event_loop_step(false, &Received::Event { task_completed: true }), LoopAction::ShowThenStop);
    assert_eq!(event_loop_step(true, &Received::Timeout), LoopAction::Stop);
    assert_eq!(event_loop_step(false, &Received::Disconnected), LoopAction::Stop);
}

#[test]
fn instructions_go_to_orchestrator_runtimes() {
    assert_eq!(dispatch_targets(&vec![]), None);
    let rs = vec![(s("a"), s("tool")), (s("b"), s("orchestrator"))];
    assert_eq!(dispatch_targets(&rs), Some(vec![s("b")]));
}

#[test]
fn test_find_extension_arc_by_role_resolves_by_role_not_name() {
    let mut config = Config::default();
    config.extensions = vec![rad::config::ExtensionConfig {
        name: s("my-custom-compactor"),
        source: String::new(),
        enabled: true,
        role: s("context-tools"),
        permissions: None,
        config: Vec::new(),
    }];
    assert_eq!(extension_for_role(&config.extensions, "context-tools"), Some(s("my-custom-compactor")));
    assert_eq!(extension_for_role(&config.extensions, "nonexistent-role"), None);
}

#[test]
fn orchestrator_payloads_and_checks() {
    assert_eq!(session_open_payload("42"), "{\"session_id\":\"42\"}");
    assert_eq!(set_current_payload("node_1"), "{\"node_id\":\"node_1\"}");
    let mut dag = Dag::new();
    dag.create_node("", "root").unwrap();
    assert!(rollback_check(&dag, "node_0").is_ok());
    assert_eq!(rollback_check(&dag, "node_7"), Err(s("Node 'node_7' not found in DAG")));
}

fn chat() -> Dag {
    let mut dag = Dag::new();
    let a = dag.create_node("", "user").unwrap();
    dag.set_node_text(&a, "goal").unwrap();
    let b = dag.create_node(&a, "assistant").unwrap();
    dag.set_node_text(&b, "reply").unwrap();
    let c = dag.create_node(&b, "user").unwrap();
    dag.set_node_text(&c, "more").unwrap();
    dag
}

#[test]
fn test_run_compact_reports_nothing_when_too_few_messages() {
    let mut dag = Dag::new();
    let a = dag.create_node("", "user").unwrap();
    dag.set_node_text(&a, "hello").unwrap();
    match run_compact(&mut dag, true, None, None) {
        CompactStep::Say(msg) => assert!(msg.contains("Nothing to compact yet"), "{msg}"),
        CompactStep::Call(_) => panic!("nothing to call with one message"),
    }
}

#[test]
fn test_run_compact_reports_missing_context_tools() {
    let mut dag = chat();
    match run_compact(&mut dag, false, None, None) {
        CompactStep::Say(msg) => assert!(msg.contains("No extension registered for role"), "{msg}"),
        CompactStep::Call(_) => panic!("no context tools to call"),
    }
}

#[test]
fn compaction_merges_what_the_context_tools_dropped() {
    let mut dag = chat();
    let before = dag.len();
    match run_compact(&mut dag, true, Some(100), None) {
        CompactStep::Call(req) => {
            assert!(req.starts_with("{\"messages\":[{\"node_id\":\"node_0\",\"role\":\"user\",\"content\":\"goal\"}"));
            assert!(req.ends_with(",\"max_history\":30,\"max_content_chars\":100}"));
        }
        CompactStep::Say(m) => panic!("{m}"),
    }
    let reply = CompactReply::Parsed { node_ids: vec![Some(s("node_2")), None], summary: s("sum") };
    match run_compact(&mut dag, true, None, Some(reply)) {
        CompactStep::Say(msg) => assert!(msg.contains("Compacted 2 message(s) into 1 summary node(s). sum"), "{msg}"),
        CompactStep::Call(_) => panic!(),
    }
    assert!(dag.len() < before);
    assert!(dag.contains("node_2"));
    assert!(!dag.contains("node_0") && !dag.contains("node_1"));
}

#[test]
fn test_run_compact_merges_dropped_range_via_real_context_tools() {
    let mut dag = Dag::new();
    let mut ids = Vec::new();
    let goal = dag.create_node("", "user").unwrap();
    dag.set_node_text(&goal, "goal message").unwrap();
    ids.push(goal.clone());
    let mut parent = goal;
    for i in 0..40 {
        let role = if i % 2 == 0 { "assistant" } else { "user" };
        let id = dag.create_node(&parent, role).unwrap();
        dag.set_node_text(&id, "turn content").unwrap();
        ids.push(id.clone());
        parent = id;
    }
    let before_count = dag.len();
    assert_eq!(before_count, ids.len());
    assert!(matches!(run_compact(&mut dag, true, None, None), CompactStep::Call(_)));
    // The context tools keep the goal and the last 30 messages.
    let mut kept = vec![Some(ids[0].clone())];
    kept.extend(ids[ids.len() - 30..].iter().map(|id| Some(id.clone())));
    let reply = CompactReply::Parsed { node_ids: kept, summary: s("earlier turns") };
    let msg = match run_compact(&mut dag, true, None, Some(reply)) {
        CompactStep::Say(m) => m,
        CompactStep::Call(_) => panic!("the reply was given"),
    };
    assert!(msg.contains("Compacted"), "unexpected message: {msg}");
    let after_count = dag.len();
    assert!(after_count < before_count, "compaction should have reduced node count: {after_count} vs {before_count}");
    assert!(dag.contains(&ids[0]));
}

#[test]
fn compaction_failures_leave_the_graph_alone() {
    let mut dag = chat();
    match run_compact(&mut dag, true, None, Some(CompactReply::Failed(s("trap")))) {
        CompactStep::Say(msg) => assert_eq!(msg, "\x1b[1;31mCompaction failed: trap\x1b[0m"),
        _ => panic!(),
    }
    assert_eq!(dag.len(), 3);
}

#[test]
fn configuration_files_are_looked_for_in_order() {
    assert_eq!(config_candidates(Some("x.json"), Some("/h")), vec![s("x.json")]);
    assert_eq!(
        config_candidates(None, Some("/h")),
        vec![s("rad.json"), s(".rad/config.json"), s("/h/.rad/config.json")]
    );
    assert_eq!(local_config_candidates("rad.json"), vec![s("rad.local.json"), s("config.local.json")]);
    assert_eq!(local_config_candidates("/p/rad.json"), vec![s("/p/rad.local.json"), s("/p/config.local.json")]);
    assert_eq!(global_config_path(Some("/t"), Some("/h")), Some(s("/t/.rad/config.json")));
    assert_eq!(global_config_path(None, None), None);
}

#[test]
fn graph_module_payloads() {
    assert_eq!(create_node_payload("p", "user"), "{\"node_type\":\"user\",\"parent_id\":\"p\"}");
    assert_eq!(set_node_text_payload("n", "hi"), "{\"node_id\":\"n\",\"text\":\"hi\"}");
    assert_eq!(delete_node_payload("n"), "{\"node_id\":\"n\"}");
    assert_eq!(
        merge_nodes_payload(&vec![s("a"), s("b")], "s"),
        "{\"node_ids\":[\"a\",\"b\"],\"summary_text\":\"s\"}"
    );
    assert_eq!(reply_id(&Json::Object(vec![(s("id"), Json::Str(s("node_9")))])), "node_9");
    assert_eq!(reply_id(&Json::Null), "");
    assert_eq!(dag_error("gone").to_text(), "L1 (Adaptation) Error: gone (Dag)");
}

#[test]
fn mcp_lines_and_failures() {
    assert_eq!(response_message("  {\"id\":1}\n"), Some(s("{\"id\":1}")));
    assert_eq!(response_message(" \n"), None);
    assert_eq!(error_line("srv", "oops\n"), "[MCP ERROR - srv] oops");
    assert_eq!(pipe_failed("stdin"), "Failed to open MCP stdin");
    assert_eq!(send_failed(SendStep::Flush, "e"), "Failed to flush MCP stdin: e");
    assert_eq!(send_failed(SendStep::Write, "e"), "Failed to write to MCP stdin: e");
}

#[test]
fn processes_start_from_their_words() {
    assert_eq!(command_words("~/bin/tool  -x", Some("/h")), vec![s("/h/bin/tool"), s("-x")]);
    assert_eq!(group_of(77), 77);
    assert_eq!(group_of(u32::MAX), 0);
    assert_eq!(exit_code_of(Some(2)), 2);
    assert_eq!(exit_code_of(Some(-1)), 0);
    assert_eq!(exit_code_of(None), 0);
    assert_eq!(spawn_error("x").to_text(), "L1 (Adaptation) Error: Failed to spawn command via stdio pipe: x (Process)");
}

#[test]
fn kernel_wait_slice_answers_without_stopping() {
    assert_eq!(wait_slice_step(&Ok(Some(7)), 0, 0).unwrap().ok(), Some(7));
    assert!(wait_slice_step(&Ok(None), 25000, 50000).is_none());
    let idle = wait_slice_step(&Ok(None), 25001, 0).unwrap().unwrap_err();
    assert_eq!((idle.code, idle.message.as_str()), (WAIT_PENDING, "Process execution timed out due to inactivity"));
    let long = wait_slice_step(&Ok(None), 10, 50001).unwrap().unwrap_err();
    assert_eq!(long.message, "Process execution exceeded maximum timeout limit");
    let failed = wait_slice_step(&Err(s("gone")), 0, 0).unwrap().unwrap_err();
    assert_eq!((failed.code, failed.message.as_str()), (WAIT_PENDING, "try_wait error: gone"));
}
