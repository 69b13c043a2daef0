use rad::json::Json;
use rad::kernel::tools::{call_payload, list_tools, tool_call_answer, tool_owner, tools_of_reply};
use rad::orchestrator::report_tool_inventory;

fn s(x: &str) -> String {
    x.to_string()
}

#[test]
fn a_tools_list_reply_is_read_as_json() {
    let tools = tools_of_reply(&Ok(s(r#"{"tools": [{"function": {"name": "read"}}, {"name": "x"}]}"#)));
    assert_eq!(tools.len(), 2);
    assert!(matches!(&tools[1], Json::Object(m) if m.len() == 1 && m[0].0 == "name"));
}

#[test]
fn a_failed_or_malformed_tools_list_offers_nothing() {
    assert!(tools_of_reply(&Err(s("trap"))).is_empty());
    assert!(tools_of_reply(&Ok(s("not json"))).is_empty());
    assert!(tools_of_reply(&Ok(s(r#"{"tools": "none"}"#))).is_empty());
    assert!(tools_of_reply(&Ok(s("[1, 2]"))).is_empty());
}

#[test]
fn a_tool_call_answers_its_content_or_the_raw_reply() {
    assert_eq!(tool_call_answer(Ok(s(r#"{"content": "done"}"#))), Ok(s("done")));
    assert_eq!(tool_call_answer(Ok(s(r#"{"other": 1}"#))), Ok(s(r#"{"other": 1}"#)));
    assert_eq!(tool_call_answer(Ok(s("plain"))), Ok(s("plain")));
    assert_eq!(tool_call_answer(Err(s("trap"))), Err(s("trap")));
}

#[test]
fn a_tool_call_payload_names_the_tool_and_its_arguments() {
    assert_eq!(call_payload("read", "{\"p\":1}"), r#"{"arguments":"{\"p\":1}","name":"read"}"#);
}

#[test]
fn a_tool_inventory_counts_the_array_it_was_given() {
    assert_eq!(
        report_tool_inventory("x", Ok(s("[{}, {}, {}]"))),
        "\u{1b}[32m[OK] Verified 3 tools from extension 'x'\u{1b}[0m"
    );
    assert_eq!(
        report_tool_inventory("y", Ok(s("{}"))),
        "\u{1b}[31m[FAILED] Extension 'y' returned invalid JSON from get_tools: {}\u{1b}[0m"
    );
    assert_eq!(
        report_tool_inventory("z", Ok(s("[]"))),
        "\u{1b}[32m[OK] Extension 'z' initialized with 0 tools\u{1b}[0m"
    );
    assert_eq!(
        report_tool_inventory("w", Err(s("boom"))),
        "\u{1b}[31m[FAILED] Extension 'w' get_tools error: boom\u{1b}[0m"
    );
}

fn named(name: &str) -> String {
    format!(r#"{{"tools": [{{"function": {{"name": "{name}"}}}}]}}"#)
}

#[test]
fn every_tool_of_every_module_is_listed_in_registration_order() {
    let replies = vec![Some(Ok(named("a"))), None, Some(Err(s("trap"))), Some(Ok(named("b")))];
    let tools = list_tools(&replies);
    assert_eq!(tools.len(), 2);
    assert_eq!(rad::json::to_json_text(&tools[0]), r#"{"function":{"name":"a"}}"#);
    assert_eq!(rad::json::to_json_text(&tools[1]), r#"{"function":{"name":"b"}}"#);
    assert!(list_tools(&vec![]).is_empty());
}

#[test]
fn a_tool_belongs_to_the_first_module_offering_it() {
    let modules = vec![
        (s("quiet"), None),
        (s("first"), Some(Ok(named("read")))),
        (s("second"), Some(Ok(named("read")))),
    ];
    assert_eq!(tool_owner(&modules, "read"), Some(s("first")));
    assert_eq!(tool_owner(&modules, "write"), None);
}
