use rad::config::{expand_tilde, ApiKeySource, Config, EnvOverrides, LlmEndpointProfile};
use rad::json::{merge_json_value, to_json_text, Json, JsonNumber};
use rad::jsonc::{layered_config, parse_jsonc};
use rad::error::UnifiedError;

fn s(x: &str) -> Json {
    Json::Str(x.to_string())
}

fn obj(members: Vec<(&str, Json)>) -> Json {
    Json::Object(members.into_iter().map(|(k, v)| (k.to_string(), v)).collect())
}

fn get<'a>(v: &'a Json, k: &str) -> Option<&'a Json> {
    match v {
        Json::Object(m) => m.iter().find(|(key, _)| key == k).map(|(_, v)| v),
        _ => None,
    }
}

fn as_str(v: &Json) -> &str {
    match v {
        Json::Str(s) => s,
        _ => panic!("not a string"),
    }
}

#[test]
fn test_merge_json_value() {
    let mut base = obj(vec![
        ("core", obj(vec![("workspace_dir", s(".")), ("log_dir", s(".rad/logs"))])),
        (
            "extensions",
            Json::Array(vec![obj(vec![
                ("name", s("ext1")),
                ("source", s("builtin://ext1")),
                ("enabled", Json::Bool(true)),
                ("config", obj(vec![("model", s("gpt-4"))])),
            ])]),
        ),
    ]);
    let local = obj(vec![
        ("core", obj(vec![("log_dir", s("/custom/logs"))])),
        (
            "extensions",
            Json::Array(vec![
                obj(vec![("name", s("ext1")), ("config", obj(vec![("api_key", s("secret"))]))]),
                obj(vec![("name", s("ext2")), ("source", s("builtin://ext2")), ("enabled", Json::Bool(false))]),
            ]),
        ),
    ]);

    merge_json_value(&mut base, local);

    let core = get(&base, "core").unwrap();
    assert_eq!(as_str(get(core, "workspace_dir").unwrap()), ".");
    assert_eq!(as_str(get(core, "log_dir").unwrap()), "/custom/logs");
    let exts = match get(&base, "extensions").unwrap() {
        Json::Array(a) => a,
        _ => panic!("extensions is not an array"),
    };
    assert_eq!(exts.len(), 2);
    let ext1 = &exts[0];
    assert_eq!(as_str(get(ext1, "name").unwrap()), "ext1");
    assert!(matches!(get(ext1, "enabled"), Some(Json::Bool(true))));
    let cfg = get(ext1, "config").unwrap();
    assert_eq!(as_str(get(cfg, "model").unwrap()), "gpt-4");
    assert_eq!(as_str(get(cfg, "api_key").unwrap()), "secret");
    let ext2 = &exts[1];
    assert_eq!(as_str(get(ext2, "name").unwrap()), "ext2");
    assert!(matches!(get(ext2, "enabled"), Some(Json::Bool(false))));
}

#[test]
fn merging_into_a_non_object_replaces_it() {
    let mut a = Json::Number(JsonNumber::PosInt(3));
    merge_json_value(&mut a, obj(vec![("k", s("v"))]));
    assert_eq!(to_json_text(&a), "{\"k\":\"v\"}");
    let mut b = obj(vec![("k", s("v"))]);
    merge_json_value(&mut b, Json::Null);
    assert_eq!(to_json_text(&b), "null");
}

#[test]
fn extension_entries_without_a_name_are_appended() {
    let mut a = obj(vec![("extensions", Json::Array(vec![obj(vec![("name", s("x"))])]))]);
    merge_json_value(&mut a, obj(vec![("extensions", Json::Array(vec![obj(vec![("source", s("y"))])]))]));
    assert_eq!(to_json_text(&a), "{\"extensions\":[{\"name\":\"x\"},{\"source\":\"y\"}]}");
}

#[test]
fn config_defaults() {
    let c = Config::default();
    assert_eq!(c.core.workspace, ".");
    assert_eq!(c.core.snapshot, ".rad/snapshots");
    assert_eq!(c.core.log, ".rad/logs");
    assert_eq!(c.core.max_sessions, 50);
    assert_eq!(c.default_timeout.llm_stream_heartbeat_ms, 15000);
    assert_eq!(c.default_timeout.process_silent_timeout_ms, 60000);
    assert!(c.llm.active.is_none());
    assert!(c.llm.endpoints.is_empty());
    assert_eq!(rad::config::default_role(), "orchestrator");
    assert!(rad::config::default_true());
}

#[test]
fn env_overrides_fill_the_default_profile() {
    let mut c = Config::default();
    c.apply_env_overrides(EnvOverrides {
        workspace: Some("/ws".to_string()),
        base_url: Some("http://x".to_string()),
        api_key: None,
        model: Some("m".to_string()),
    });
    assert_eq!(c.core.workspace, "/ws");
    let p = c.llm.endpoints.get("default").unwrap();
    assert_eq!(p.base_url, "http://x");
    assert_eq!(p.model.as_deref(), Some("m"));
    assert!(p.api_key.is_none());
}

#[test]
fn api_keys_may_name_an_environment_variable() {
    let mut p = LlmEndpointProfile::default();
    assert!(matches!(p.api_key_source(), ApiKeySource::Absent));
    p.api_key = Some("env:TEST_RAD_LLM_KEY".to_string());
    match p.api_key_source() {
        ApiKeySource::Env(n) => assert_eq!(n, "TEST_RAD_LLM_KEY"),
        _ => panic!("expected an environment variable"),
    }
    p.api_key = Some("sk-1".to_string());
    match p.api_key_source() {
        ApiKeySource::Literal(k) => assert_eq!(k, "sk-1"),
        _ => panic!("expected a literal key"),
    }
}

#[test]
fn tilde_expands_to_home_only_with_a_slash() {
    assert_eq!(expand_tilde("~/x/y", Some("/home/u")), "/home/u/x/y");
    assert_eq!(expand_tilde("~x", Some("/home/u")), "~x");
    assert_eq!(expand_tilde("~/x", None), "~/x");
    assert_eq!(expand_tilde("/abs", Some("/home/u")), "/abs");
}

#[test]
fn test_parse_jsonc_valid() {
    let jsonc = r#"
    {
        // core settings
        "core": {
            "workspace_dir": "."
        }
    }
    "#;
    let val = parse_jsonc(jsonc).unwrap();
    assert_eq!(as_str(get(get(&val, "core").unwrap(), "workspace_dir").unwrap()), ".");
}

#[test]
fn test_parse_jsonc_invalid() {
    let jsonc = r#"
    {
        "core": {
            "workspace_dir": .
        }
    }
    "#;
    assert!(parse_jsonc(jsonc).is_err());
}

#[test]
fn parse_jsonc_of_a_text_with_only_a_comment_is_an_empty_value_error() {
    match parse_jsonc("  // nothing here\n") {
        Err(UnifiedError::L1 { message, category }) => {
            assert_eq!(message, "JSONC parsed to empty value");
            assert_eq!(category, "Config");
        }
        _ => panic!("expected an L1 error"),
    }
}

#[test]
fn parse_jsonc_error_is_a_config_error_naming_the_parse() {
    match parse_jsonc("{ \"a\": }") {
        Err(UnifiedError::L1 { message, category }) => {
            assert!(message.starts_with("JSONC parse error: "));
            assert_eq!(category, "Config");
        }
        _ => panic!("expected an L1 error"),
    }
}

#[test]
fn parse_jsonc_reads_numbers_arrays_and_trailing_commas() {
    let val = parse_jsonc("{ \"n\": 3, \"m\": -2, \"f\": 1.5, \"a\": [true, null,], }").unwrap();
    assert!(matches!(get(&val, "n"), Some(Json::Number(JsonNumber::PosInt(3)))));
    assert!(matches!(get(&val, "m"), Some(Json::Number(JsonNumber::NegInt(-2)))));
    assert!(matches!(get(&val, "f"), Some(Json::Number(JsonNumber::Float(t))) if t == "1.5"));
    assert!(matches!(get(&val, "a"), Some(Json::Array(items)) if items.len() == 2));
}

#[test]
fn a_local_file_merges_over_the_project_file() {
    let base = parse_jsonc(
        r#"
    {
        "core": { "workspace_dir": "/base/workspace" },
        "extensions": [ { "name": "ext", "source": "builtin://ext", "enabled": true } ]
    }
    "#,
    )
    .unwrap();
    let local = parse_jsonc(
        r#"
    {
        "core": { "snapshot_dir": "/local/snapshots" },
        "extensions": [ { "name": "ext", "config": { "api_key": "local_key" } } ]
    }
    "#,
    )
    .unwrap();
    let mut merged = base;
    merge_json_value(&mut merged, local);
    let core = get(&merged, "core").unwrap();
    assert_eq!(as_str(get(core, "workspace_dir").unwrap()), "/base/workspace");
    assert_eq!(as_str(get(core, "snapshot_dir").unwrap()), "/local/snapshots");
    let exts = match get(&merged, "extensions").unwrap() {
        Json::Array(a) => a,
        _ => panic!("extensions is not an array"),
    };
    assert_eq!(exts.len(), 1);
    assert_eq!(as_str(get(&exts[0], "source").unwrap()), "builtin://ext");
    assert_eq!(as_str(get(get(&exts[0], "config").unwrap(), "api_key").unwrap()), "local_key");
}

#[test]
fn layered_configuration_reads_global_project_and_local_in_order() {
    let global = r#"{ "core": { "workspace_dir": "/g", "log_dir": "/g/logs" } }"#;
    let project = r#"{ "core": { "workspace_dir": "/p" } }"#;
    let local = r#"{ "core": { "snapshot_dir": "/l" } }"#;
    let v = layered_config(Some(global), Some(project), false, Some(local)).unwrap();
    let core = get(&v, "core").unwrap();
    assert_eq!(as_str(get(core, "workspace_dir").unwrap()), "/p");
    assert_eq!(as_str(get(core, "log_dir").unwrap()), "/g/logs");
    assert_eq!(as_str(get(core, "snapshot_dir").unwrap()), "/l");
    let skipped = layered_config(Some(global), Some(project), true, None).unwrap();
    assert_eq!(as_str(get(get(&skipped, "core").unwrap(), "workspace_dir").unwrap()), "/g");
    let broken_global = layered_config(Some("{ oops"), None, false, None).unwrap();
    assert!(matches!(broken_global, Json::Object(m) if m.is_empty()));
    match layered_config(Some(global), Some("{ oops"), false, Some(local)) {
        Err(UnifiedError::L1 { message, category }) => {
            assert!(message.starts_with("JSONC parse error: "));
            assert_eq!(category, "Config");
        }
        _ => panic!("a broken project file is an error"),
    }
}
