//! Providers, the form, and its rendering.
use snippet::form::{Connect, Form, ModelConfig, SettingsField};
use snippet::json::Json;
use snippet::login::{form_lines, DeviceCode};
use snippet::models::{
    get_provider_models, http_failure, models_in_reply, models_request, provider_context_defaults,
    provider_defaults, provider_needs_base_url, unsupported_provider, Credentials,
};
use snippet::profiles::{effective_config, find_setup};
use snippet::style::Line;

fn setup(provider: &str, key: &str, model: &str) -> ModelConfig {
    ModelConfig {
        provider: provider.to_string(),
        api_key: key.to_string(),
        model: model.to_string(),
        base_url: "".to_string(),
        reasoning_effort: None,
        context_window: 100_000,
        compact_at_pct: 80,
    }
}

fn shown(list: &[Line]) -> Vec<String> {
    list.iter()
        .map(|l| l.spans.iter().map(|s| s.text.as_str()).collect::<Vec<_>>().concat())
        .collect()
}

fn text(s: &str) -> Json {
    Json::Text(s.to_string())
}

fn object(members: Vec<(&str, Json)>) -> Json {
    Json::Object(members.into_iter().map(|(k, v)| (k.to_string(), v)).collect())
}

fn vendor() -> Vec<String> {
    ["large-2", "large-1", "middle-1", "small-1"].map(str::to_string).to_vec()
}

#[test]
fn providers_have_defaults() {
    let pair = |a: &str, b: &str| (a.to_string(), b.to_string());
    let preset = |p: &str| provider_defaults(p, &vendor());
    assert_eq!(preset("openai"), pair("https://api.openai.com/v1", "gpt-5.5"));
    assert_eq!(preset("chatgpt"), pair("", "gpt-5.1-codex"));
    assert_eq!(preset("anthropic"), pair("", "large-2"));
    assert_eq!(preset("anthropic-compatible"), pair("", ""));
    assert_eq!(preset("gemini"), pair("", "gemini-3.5-flash"));
    assert_eq!(
        preset("openrouter"),
        pair("https://openrouter.ai/api/v1", "anthropic/large-2")
    );
    assert_eq!(preset("anything"), pair("http://localhost:11434/v1", ""));
    assert_eq!(provider_defaults("anthropic", &vec![]), pair("", ""));
    assert_eq!(provider_context_defaults("openrouter"), (250_000, 90));
    assert_eq!(provider_context_defaults("openai-compatible"), (130_000, 90));
    assert!(provider_needs_base_url("openai-compatible"));
    assert!(provider_needs_base_url("anthropic-compatible"));
    assert!(!provider_needs_base_url("openai"));
}

#[test]
fn models_are_suggested_before_a_list_is_fetched() {
    let known = |p: &str| get_provider_models(p, &vendor());
    assert_eq!(
        known("openai"),
        vec!["gpt-5.5", "gpt-5.4", "gpt-5.4-mini", "gpt-5.3", "gpt-5.3-codex", "gpt-4o"]
    );
    assert_eq!(known("anthropic"), vendor());
    assert_eq!(
        known("gemini"),
        vec!["gemini-3.5-flash", "gemini-3.1-pro", "gemini-3.1-flash-lite", "gemini-3-pro"]
    );
    assert_eq!(
        known("openrouter"),
        vec![
            "anthropic/large-2",
            "anthropic/middle-1",
            "google/gemini-3.1-pro",
            "deepseek/deepseek-v4-pro",
            "qwen/qwen3-coder",
            "openai/gpt-5.5"
        ]
    );
    assert_eq!(known("chatgpt").len(), 5);
    assert!(known("openai-compatible").is_empty());
    assert_eq!(get_provider_models("openrouter", &vec![]).len(), 4);
}

#[test]
fn model_lists_are_asked_for() {
    let asked = |p: &str, k: &str, b: &str| models_request(p, k, b).unwrap();
    let r = asked("openai", "k", "ignored");
    assert_eq!(r.url, "https://api.openai.com/v1/models");
    assert!(matches!(r.credentials, Credentials::Bearer(k) if k == "k"));
    let r = asked("anthropic", "k", "https://ignored");
    assert_eq!(r.url, "https://api.anthropic.com/v1/models");
    assert!(matches!(
        r.credentials,
        Credentials::KeyHeader { key, version } if key == "k" && version == "2023-06-01"
    ));
    assert_eq!(
        asked("anthropic-compatible", "k", " https://x/v1// ").url,
        "https://x/v1/models"
    );
    assert_eq!(asked("anthropic-compatible", "k", "https://x").url, "https://x/v1/models");
    assert_eq!(
        asked("anthropic-compatible", "k", " ").url,
        "https://api.anthropic.com/v1/models"
    );
    let r = asked("gemini", "k", "");
    assert_eq!(r.url, "https://generativelanguage.googleapis.com/v1beta/models?key=k");
    assert!(matches!(r.credentials, Credentials::Nothing));
    let r = asked("openrouter", " ", "");
    assert_eq!(r.url, "https://openrouter.ai/api/v1/models");
    assert!(matches!(r.credentials, Credentials::Nothing));
    assert!(matches!(asked("openrouter", "k", "").credentials, Credentials::Bearer(_)));
    assert_eq!(asked("openai-compatible", "", "http://x/v1").url, "http://x/v1/models");
    assert_eq!(asked("openai-compatible", "", "http://x/v1/").url, "http://x/v1/models");
    assert_eq!(asked("openai-compatible", "", "http://x/models").url, "http://x/models");
    assert!(models_request("chatgpt", "k", "").is_none());
    assert_eq!(unsupported_provider("chatgpt"), "Unsupported provider: chatgpt");
    assert_eq!(http_failure("404 Not Found"), "HTTP status 404 Not Found");
}

#[test]
fn model_lists_are_read() {
    let entry = |k: &str, v: &str| object(vec![(k, text(v))]);
    let list = |k: &str, items: Vec<Json>| object(vec![(k, Json::Array(items))]);
    let names = |v: &[&str]| Ok::<_, String>(v.iter().map(|s| s.to_string()).collect::<Vec<_>>());
    let none = Err("No models found".to_string());
    let data = list("data", vec![entry("id", "b"), entry("name", "c"), entry("id", "a")]);
    for p in ["openai", "anthropic", "anthropic-compatible", "openrouter", "openai-compatible"] {
        assert_eq!(models_in_reply(p, &data), names(&["a", "b"]), "{p}");
    }
    let gemini = list("models", vec![entry("name", "models/g2"), entry("name", "g1")]);
    assert_eq!(models_in_reply("gemini", &gemini), names(&["g1", "g2"]));
    assert_eq!(models_in_reply("openai-compatible", &gemini), names(&["g1", "models/g2"]));
    assert_eq!(models_in_reply("openai", &gemini), none);
    let bare = Json::Array(vec![text("z"), entry("id", "y"), Json::Null]);
    assert_eq!(models_in_reply("openai-compatible", &bare), names(&["y", "z"]));
    assert_eq!(models_in_reply("openai-compatible", &Json::Null), none);
}

#[test]
fn fields_follow_the_provider() {
    let mut f = Form::fresh(&vendor());
    assert_eq!(
        f.focus_order(),
        vec![SettingsField::Provider, SettingsField::ApiKey, SettingsField::Model, SettingsField::Reasoning, SettingsField::ContextWindow, SettingsField::Compaction]
    );
    f.provider = "chatgpt".to_string();
    assert_eq!(f.focus_order(), vec![SettingsField::Provider, SettingsField::Model, SettingsField::Reasoning, SettingsField::ContextWindow, SettingsField::Compaction]);
    f.provider = "openai-compatible".to_string();
    assert!(f.focus_order().contains(&SettingsField::BaseUrl));
    assert!(!f.move_focus(false));
    assert_eq!(f.focus, SettingsField::Compaction);
    assert!(!f.move_focus(true));
    assert_eq!(f.focus, SettingsField::Provider);
}

#[test]
fn models_are_fetched_once_they_can_be() {
    let mut f = Form::fresh(&vendor());
    f.focus = SettingsField::ApiKey;
    assert!(!f.move_focus(true));
    f.focus = SettingsField::ApiKey;
    f.paste(" sk-1\n");
    assert_eq!(f.api_key, "sk-1");
    assert!(f.move_focus(true));
    assert_eq!(f.fetch_status, "Fetching available models from provider...");
    f.model = "".to_string();
    f.load_models(vec!["m1".to_string(), "m2".to_string()]);
    assert_eq!(f.fetch_status, "Loaded 2 models from provider.");
    assert_eq!(f.model, "m1");
    f.focus = SettingsField::ApiKey;
    assert!(!f.move_focus(true));
    f.fail_models("no", false);
    assert_eq!(f.fetch_status, "Fetch failed: no");
    f.fail_models("no", true);
    assert_eq!(f.fetch_status, "Fetch task crashed: no");
}

#[test]
fn values_are_turned() {
    let mut f = Form::fresh(&vendor());
    f.adjust(true);
    assert_eq!((f.provider.as_str(), f.model.as_str()), ("chatgpt", "gpt-5.1-codex"));
    f.adjust(false);
    f.adjust(false);
    assert_eq!(f.provider, "anthropic-compatible");
    assert_eq!(f.context_window, "130000");
    f.focus = SettingsField::Reasoning;
    f.adjust(true);
    f.adjust(true);
    f.adjust(true);
    assert_eq!(f.reasoning_effort, Some("off".to_string()));
    f.adjust(false);
    assert_eq!(f.reasoning_effort, Some("xhigh".to_string()));
    f.focus = SettingsField::Compaction;
    f.adjust(true);
    assert_eq!(f.compact_at_pct, "95");
    f.adjust(true);
    assert_eq!(f.compact_at_pct, "95");
    f.compact_at_pct = "12".to_string();
    f.adjust(false);
    assert_eq!(f.compact_at_pct, "50");
    f.compact_at_pct = "none".to_string();
    f.adjust(true);
    assert_eq!(f.compact_at_pct, "90");
    f.focus = SettingsField::Model;
    f.fetched = Some(vec!["a".to_string(), "b".to_string()]);
    f.model = "other".to_string();
    f.adjust(true);
    assert_eq!(f.model, "a");
    f.adjust(false);
    assert_eq!(f.model, "b");
    f.adjust(true);
    assert_eq!(f.model, "a");
}

#[test]
fn digits_only_where_a_number_is_asked_for() {
    let mut f = Form::fresh(&vendor());
    f.focus = SettingsField::ContextWindow;
    f.context_window = "".to_string();
    f.edit_char('x');
    f.edit_char('4');
    f.paste("2k");
    assert_eq!(f.context_window, "42");
    f.backspace();
    assert_eq!(f.context_window, "4");
    f.focus = SettingsField::Provider;
    f.edit_char('x');
    f.backspace();
    assert_eq!(f.provider, "openai");
}

#[test]
fn models_are_ranked() {
    let mut f = Form::fresh(&vendor());
    f.fetched = Some(
        ["x-gpt", "gpt-b", "GPT-a", "other", "gpt-b"].iter().map(|s| s.to_string()).collect(),
    );
    f.model = "gpt".to_string();
    assert_eq!(f.model_rows(), vec!["gpt", "gpt-b", "GPT-a", "x-gpt"]);
    f.model = "".to_string();
    assert_eq!(f.model_rows(), vec!["x-gpt", "gpt-b", "GPT-a", "other"]);
    f.fetched = Some((0..9).map(|i| format!("m{i}")).collect());
    assert_eq!(f.model_rows().len(), 6);
}

#[test]
fn a_form_is_checked() {
    let mut f = Form::fresh(&vendor());
    assert_eq!(f.check(), Connect::NeedKey);
    assert_eq!(f.focus, SettingsField::ApiKey);
    f.api_key = "k".to_string();
    f.model = " ".to_string();
    assert_eq!(f.check(), Connect::NeedModel);
    assert_eq!(f.focus, SettingsField::Model);
    f.model = "m".to_string();
    f.context_window = "7999".to_string();
    f.compact_at_pct = "99".to_string();
    assert_eq!(f.check(), Connect::Save { context_window: 250_000, compact_at_pct: 95 });
    f.context_window = " 8000 ".to_string();
    f.compact_at_pct = "".to_string();
    assert_eq!(f.check(), Connect::Save { context_window: 8_000, compact_at_pct: 90 });
    f.reasoning_effort = Some(" ".to_string());
    let s = f.setup(8_000, 90);
    assert_eq!((s.api_key.as_str(), s.model.as_str(), s.context_window), ("k", "m", 8_000));
    assert_eq!(s.reasoning_effort, None);
    f.provider = "chatgpt".to_string();
    assert_eq!(f.check(), Connect::SignIn);
    f.model = "".to_string();
    f.sign_in();
    assert_eq!((f.model.as_str(), f.api_key.as_str()), ("gpt-5.1-codex", ""));
}

#[test]
fn a_form_shows_a_setup() {
    let mut cfg = setup("anthropic", "k", "m");
    let f = Form::of(&cfg, &vendor());
    assert_eq!(f.reasoning_effort, None);
    assert_eq!((f.context_window.as_str(), f.compact_at_pct.as_str()), ("100000", "80"));
    assert_eq!(Form::in_use(&cfg, &vendor()).reasoning_effort, Some("medium".to_string()));
    cfg.reasoning_effort = Some("high".to_string());
    assert_eq!(Form::in_use(&cfg, &vendor()).reasoning_effort, Some("high".to_string()));
}

#[test]
fn keys_are_masked() {
    let mut f = Form::of(&setup("anthropic", "abc", "m"), &vendor());
    f.focus = SettingsField::ApiKey;
    let lines = shown(&form_lines(&f, false, None, 60));
    assert!(lines.contains(&"  ▸ api key       •••█".to_string()));
    assert!(lines.contains(&"    model         m ▾".to_string()));
    assert!(lines.contains(&"    thinking      medium".to_string()));
    assert!(lines.contains(&"    compact at    80%".to_string()));
    f.api_key = "".to_string();
    f.focus = SettingsField::Provider;
    let lines = shown(&form_lines(&f, false, None, 60));
    assert!(lines.contains(&"  ▸ provider      ‹ anthropic ›".to_string()));
    assert!(lines.contains(&"    api key       (required)".to_string()));
}

#[test]
fn keys_of_one_length_look_the_same() {
    let rows = |key: &str| shown(&form_lines(&Form::of(&setup("openai", key, "m"), &vendor()), false, None, 60));
    assert_eq!(rows("abcd"), rows("wxyz"));
    assert_ne!(rows("abcd"), rows("abc"));
}

#[test]
fn an_account_is_signed_in_to() {
    let f = Form::of(&setup("chatgpt", "", "m"), &vendor());
    let lines = shown(&form_lines(&f, true, None, 60));
    assert!(lines.contains(&"    ✓ signed in".to_string()));
    let code = DeviceCode {
        user_code: "AB-12".to_string(),
        verification_url: "https://x".to_string(),
    };
    let lines = shown(&form_lines(&f, false, Some(&code), 60));
    assert!(lines.contains(&"    Device code: AB-12".to_string()));
    assert!(lines.contains(&"    Open https://x to complete sign-in".to_string()));
    let lines = shown(&form_lines(&f, false, None, 60));
    assert!(lines.iter().any(|l| l.contains("Ctrl-D = device code")));
    assert!(!lines.iter().any(|l| l.contains("api key")));
}

#[test]
fn a_conversation_may_have_its_own_profile() {
    let list = vec![
        ("one".to_string(), Some(setup("openai", "k", "m1"))),
        ("two".to_string(), Some(setup("gemini", "k", "m2"))),
        ("empty".to_string(), None),
    ];
    let in_use = setup("openai", "k", "m0");
    assert_eq!(effective_config(&in_use, &list, Some("two")).model, "m2");
    assert_eq!(effective_config(&in_use, &list, Some("empty")).model, "m0");
    assert_eq!(effective_config(&in_use, &list, Some("gone")).model, "m0");
    assert_eq!(effective_config(&in_use, &list, None).model, "m0");
    assert!(find_setup(&list, "one").is_some());
    assert!(find_setup(&list, "gone").is_none());
}
