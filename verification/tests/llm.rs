use rad::command::llm::{render_llm_profiles, switch_llm_profile};
use rad::config::{Endpoints, LlmConfig, LlmEndpointProfile};

fn profile(url: &str) -> LlmEndpointProfile {
    LlmEndpointProfile { base_url: url.to_string(), api_key: None, model: None, context_length: None, dialect: None }
}

fn config() -> LlmConfig {
    let mut endpoints = Endpoints::new();
    endpoints.insert("zeta", profile("http://z"));
    endpoints.insert("alpha", profile("http://a"));
    endpoints.insert("mid", profile("http://m"));
    LlmConfig { active: None, endpoints }
}

#[test]
fn the_listed_number_is_the_number_switch_takes() {
    let mut llm = config();
    let listing = render_llm_profiles(&llm);
    assert!(listing.contains("  [1] alpha: http://a"), "{listing}");
    assert!(listing.contains("  [2] mid: http://m"), "{listing}");
    assert!(listing.contains("  [3] zeta: http://z"), "{listing}");
    let o = switch_llm_profile(&mut llm, "2");
    assert!(o.changed);
    assert_eq!(llm.active.as_deref(), Some("mid"));
    let o = switch_llm_profile(&mut llm, "zeta");
    assert!(o.changed);
    assert_eq!(llm.active.as_deref(), Some("zeta"));
}

#[test]
fn switching_to_an_unlisted_number_changes_nothing() {
    let mut llm = config();
    for target in ["0", "4", "nobody"] {
        let o = switch_llm_profile(&mut llm, target);
        assert!(!o.changed);
        assert!(o.message.contains("not found"));
        assert_eq!(llm.active, None);
    }
}
