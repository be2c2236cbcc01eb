use moly::models::{
    find_model_entry, merge_fetched_models, set_all_enabled, set_model_enabled, set_models_enabled,
};
use moly::providers::{
    add_custom_provider, connection_test_input, delete_custom_provider, find_provider,
    judge_attempt, probe_endpoint_urls, probe_exhausted, provider_id_for_name,
    save_provider_settings, settings_icon_index, status_dot, status_message_text,
    AddProviderError, AttemptOutcome, AttemptVerdict, ConnectionPanel, ConnectionTestResult,
    DeleteProviderError, ProviderConnectionStatus, ProviderPreferences, SendFailure,
};

fn entry(n: &str, b: bool) -> (String, bool) {
    (n.to_string(), b)
}

fn builtin(id: &str) -> ProviderPreferences {
    ProviderPreferences::new(id, id, "https://example.org")
}

#[test]
fn new_provider_defaults() {
    let p = ProviderPreferences::new("openai", "OpenAI", "https://api.openai.com/v1");
    assert_eq!(p.id, "openai");
    assert_eq!(p.name, "OpenAI");
    assert_eq!(p.url, "https://api.openai.com/v1");
    assert!(p.api_key.is_none());
    assert!(!p.enabled && !p.was_customly_added && !p.a2ui_enabled);
    assert!(p.models.is_empty());
}

#[test]
fn custom_ids_are_derived_from_names() {
    assert_eq!(provider_id_for_name("  My Local Server "), "my_local_server");
    assert_eq!(provider_id_for_name("ABC"), "abc");
}

#[test]
fn adding_a_custom_provider() {
    let mut ps = vec![builtin("openai")];
    assert_eq!(add_custom_provider(&mut ps, " My Server ", " http://x ", "sk-1"), Ok(()));
    assert_eq!(ps.len(), 2);
    let p = &ps[1];
    assert_eq!(p.id, "my_server");
    assert_eq!(p.name, "My Server");
    assert_eq!(p.url, "http://x");
    assert_eq!(p.api_key.as_deref(), Some("sk-1"));
    assert!(p.enabled && p.was_customly_added && !p.a2ui_enabled);
    assert_eq!(add_custom_provider(&mut ps, "Other", "http://y", ""), Ok(()));
    assert!(ps[2].api_key.is_none());
}

#[test]
fn adding_refuses_blank_or_taken() {
    let mut ps = vec![builtin("openai")];
    assert_eq!(add_custom_provider(&mut ps, "  ", "http://x", ""), Err(AddProviderError::NameRequired));
    assert_eq!(add_custom_provider(&mut ps, "A", " ", ""), Err(AddProviderError::UrlRequired));
    assert_eq!(add_custom_provider(&mut ps, "OpenAI", "http://x", ""), Err(AddProviderError::AlreadyExists));
    assert_eq!(ps.len(), 1);
}

#[test]
fn deleting_providers() {
    let mut ps = vec![builtin("openai")];
    add_custom_provider(&mut ps, "Mine", "http://x", "").unwrap();
    add_custom_provider(&mut ps, "Yours", "http://y", "").unwrap();
    assert_eq!(delete_custom_provider(&mut ps, "nope"), Err(DeleteProviderError::NotFound));
    assert_eq!(delete_custom_provider(&mut ps, "openai"), Err(DeleteProviderError::BuiltIn));
    assert_eq!(ps.len(), 3);
    assert_eq!(delete_custom_provider(&mut ps, "mine"), Ok(()));
    let ids: Vec<&str> = ps.iter().map(|p| p.id.as_str()).collect();
    assert_eq!(ids, vec!["openai", "yours"]);
    assert_eq!(find_provider(&ps, "yours"), Some(1));
    assert_eq!(find_provider(&ps, "mine"), None);
}

#[test]
fn saving_keeps_key_when_field_empty() {
    let mut p = builtin("openai");
    p.api_key = Some("old".to_string());
    save_provider_settings(&mut p, "http://new", "");
    assert_eq!(p.url, "http://new");
    assert_eq!(p.api_key.as_deref(), Some("old"));
    save_provider_settings(&mut p, "http://new", "fresh");
    assert_eq!(p.api_key.as_deref(), Some("fresh"));
}

#[test]
fn icons_and_dots() {
    assert_eq!(settings_icon_index("openai"), Some(0));
    assert_eq!(settings_icon_index("zhipu"), Some(8));
    assert_eq!(settings_icon_index("custom"), None);
    assert_eq!(status_dot(None), 0);
    assert_eq!(status_dot(Some(&ProviderConnectionStatus::NotConnected)), 0);
    assert_eq!(status_dot(Some(&ProviderConnectionStatus::Connecting)), 1);
    assert_eq!(status_dot(Some(&ProviderConnectionStatus::Connected)), 2);
    assert_eq!(status_dot(Some(&ProviderConnectionStatus::Error("x".to_string()))), 3);
}

#[test]
fn status_messages() {
    assert_eq!(status_message_text(&ProviderConnectionStatus::Connected, Some(12)), "Connected! Found 12 models");
    assert_eq!(status_message_text(&ProviderConnectionStatus::Connected, None), "Connected!");
    assert_eq!(status_message_text(&ProviderConnectionStatus::Error("Rate limited".to_string()), None), "Error: Rate limited");
    assert_eq!(status_message_text(&ProviderConnectionStatus::Connecting, Some(3)), "");
}

#[test]
fn test_input_needs_a_key() {
    assert_eq!(
        connection_test_input(" http://x ", " k "),
        Ok(("http://x".to_string(), "k".to_string()))
    );
    assert_eq!(connection_test_input("http://x", "   "), Err("No API key provided".to_string()));
}

#[test]
fn probe_addresses() {
    assert_eq!(
        probe_endpoint_urls("https://api.x.com/v1//"),
        vec!["https://api.x.com/v1/models", "https://api.x.com/v1/v1/models", "https://api.x.com/v1"]
    );
}

fn try_next(v: AttemptVerdict) -> String {
    match v {
        AttemptVerdict::TryNext(e) => e,
        AttemptVerdict::Finish(_) => panic!("finished"),
    }
}

fn finished(v: AttemptVerdict) -> Result<(usize, Vec<String>), String> {
    match v {
        AttemptVerdict::Finish(r) => r,
        AttemptVerdict::TryNext(e) => panic!("moved on: {}", e),
    }
}

#[test]
fn attempts_that_move_on() {
    assert_eq!(try_next(judge_attempt("u", AttemptOutcome::SendFailed(SendFailure::Timeout))), "Connection timed out");
    assert_eq!(try_next(judge_attempt("u", AttemptOutcome::SendFailed(SendFailure::Connect))), "Failed to connect to server");
    assert_eq!(
        try_next(judge_attempt("u", AttemptOutcome::SendFailed(SendFailure::Other("dns".to_string())))),
        "Request failed: dns"
    );
    assert_eq!(
        try_next(judge_attempt("http://x/models", AttemptOutcome::Replied { code: 404, body: Ok((String::new(), None)) })),
        "Endpoint not found: http://x/models"
    );
    assert_eq!(
        try_next(judge_attempt("u", AttemptOutcome::Replied { code: 200, body: Err("eof".to_string()) })),
        "Failed to read response: eof"
    );
}

#[test]
fn attempts_that_finish() {
    let r = |code: u16, body: &str| {
        finished(judge_attempt("u", AttemptOutcome::Replied { code, body: Ok((body.to_string(), None)) }))
    };
    assert_eq!(r(401, ""), Err("Invalid API key".to_string()));
    assert_eq!(r(403, ""), Err("Access denied".to_string()));
    assert_eq!(r(429, ""), Err("Rate limited".to_string()));
    assert_eq!(r(500, "boom"), Err("HTTP 500: boom".to_string()));
    assert_eq!(r(200, "not a list"), Ok((0, vec![])));
    let ids = vec!["a".to_string(), "b".to_string()];
    assert_eq!(
        finished(judge_attempt("u", AttemptOutcome::Replied { code: 200, body: Ok(("{}".to_string(), Some(ids.clone()))) })),
        Ok((2, ids))
    );
    assert_eq!(
        finished(judge_attempt("u", AttemptOutcome::Replied { code: 502, body: Err("x".to_string()) })),
        Err("HTTP 502: ".to_string())
    );
}

#[test]
fn exhausted_probe_reports_last_error() {
    assert_eq!(probe_exhausted(""), "Could not find models endpoint");
    assert_eq!(probe_exhausted("Connection timed out"), "Connection timed out");
}

#[test]
fn model_flags_read_back_as_set() {
    let mut ms = vec![entry("a", true), entry("b", false)];
    set_model_enabled(&mut ms, "b", true);
    set_model_enabled(&mut ms, "c", false);
    assert_eq!(ms, vec![entry("a", true), entry("b", true), entry("c", false)]);
    assert_eq!(find_model_entry(&ms, "c"), Some(2));
    assert_eq!(find_model_entry(&ms, "z"), None);
    set_models_enabled(&mut ms, &vec![entry("a", false), entry("d", true)]);
    assert_eq!(ms, vec![entry("a", false), entry("b", true), entry("c", false), entry("d", true)]);
    set_all_enabled(&mut ms, true);
    assert!(ms.iter().all(|(_, e)| *e));
}

#[test]
fn fetched_models_take_stored_flags() {
    let names = vec!["a".to_string(), "b".to_string(), "c".to_string()];
    let stored = vec![entry("a", false), entry("b", true), entry("a", true), entry("c", false)];
    assert_eq!(
        merge_fetched_models(&names, &stored),
        vec![entry("a", true), entry("b", true), entry("c", false)]
    );
    assert_eq!(merge_fetched_models(&names, &vec![]), vec![entry("a", true), entry("b", true), entry("c", true)]);
}

#[test]
fn connection_panel_flow() {
    let mut panel = ConnectionPanel::new();
    panel.select("openai");
    panel.start_test("openai");
    assert!(panel.in_progress);
    assert!(matches!(panel.status, ProviderConnectionStatus::Connecting));
    let other = ConnectionTestResult {
        provider_id: "groq".to_string(),
        status: ProviderConnectionStatus::Connected,
        model_count: Some(1),
        models: vec!["g".to_string()],
    };
    assert_eq!(panel.apply_result(other, &vec![]), None);
    assert!(panel.in_progress);
    let mine = ConnectionTestResult {
        provider_id: "openai".to_string(),
        status: ProviderConnectionStatus::Connected,
        model_count: Some(2),
        models: vec!["m1".to_string(), "m2".to_string()],
    };
    let msg = panel.apply_result(mine, &vec![entry("m2", false)]);
    assert_eq!(msg.as_deref(), Some("Connected! Found 2 models"));
    assert!(!panel.in_progress);
    assert_eq!(panel.model_count, Some(2));
    assert_eq!(panel.fetched, vec![entry("m1", true), entry("m2", false)]);
    let last_groq = panel.statuses.iter().rev().find(|(id, _)| id == "groq").unwrap();
    assert!(matches!(last_groq.1, ProviderConnectionStatus::Connected));
}
