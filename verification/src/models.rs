//! Model providers: what is preset for each, and how their lists of models are
//! asked for and read.
use crate::json::{Json, Value, items_of, member, text_of, values};
use crate::results::list_at;
use crate::text::{
    blank, cat2, copy_texts, ends, ends_with, ends_with_char, is_blank, no_texts, push_text, same,
    sort_texts, sorted_from, starts, strip_end, strip_prefix, stripped_end, texts, trim, trimmed,
};
use vstd::prelude::*;

verus! {

/// The providers on offer, in the order in which they are shown.
pub const LOGIN_PROVIDERS: [&'static str; 7] = [
    "openai",
    "chatgpt",
    "anthropic",
    "gemini",
    "openrouter",
    "openai-compatible",
    "anthropic-compatible",
];

/// Providers that talk to an endpoint of the user's.
pub open spec fn needs_base_url(provider: Seq<char>) -> bool {
    provider == "openai-compatible"@ || provider == "anthropic-compatible"@
}

pub fn provider_needs_base_url(provider: &str) -> (r: bool)
    ensures
        r == needs_base_url(provider@),
{
    same(provider, "openai-compatible") || same(provider, "anthropic-compatible")
}

/// A model of `anthropic` as `openrouter` names it.
pub open spec fn routed(model: Seq<char>) -> Seq<char> {
    "anthropic/"@ + model
}

/// The endpoint and the model that are preset for a provider. The models of
/// `anthropic` are given from outside; the first of them is preset.
pub open spec fn defaults(provider: Seq<char>, anthropic_models: Seq<Seq<char>>) -> (
    Seq<char>,
    Seq<char>,
) {
    if provider == "openai"@ {
        ("https://api.openai.com/v1"@, "gpt-5.5"@)
    } else if provider == "chatgpt"@ {
        (""@, "gpt-5.1-codex"@)
    } else if provider == "anthropic"@ {
        (
            ""@,
            if anthropic_models.len() > 0 {
                anthropic_models[0]
            } else {
                ""@
            },
        )
    } else if provider == "anthropic-compatible"@ {
        (""@, ""@)
    } else if provider == "gemini"@ {
        (""@, "gemini-3.5-flash"@)
    } else if provider == "openrouter"@ {
        (
            "https://openrouter.ai/api/v1"@,
            if anthropic_models.len() > 0 {
                routed(anthropic_models[0])
            } else {
                ""@
            },
        )
    } else {
        ("http://localhost:11434/v1"@, ""@)
    }
}

pub fn provider_defaults(provider: &str, anthropic_models: &Vec<String>) -> (r: (String, String))
    ensures
        (r.0@, r.1@) == defaults(provider@, texts(anthropic_models@)),
{
    assert(anthropic_models@.len() > 0 ==> texts(anthropic_models@)[0] == anthropic_models@[0]@);
    if same(provider, "openai") {
        ("https://api.openai.com/v1".to_string(), "gpt-5.5".to_string())
    } else if same(provider, "chatgpt") {
        ("".to_string(), "gpt-5.1-codex".to_string())
    } else if same(provider, "anthropic") {
        let model = if anthropic_models.len() > 0 {
            anthropic_models[0].clone()
        } else {
            "".to_string()
        };
        ("".to_string(), model)
    } else if same(provider, "anthropic-compatible") {
        ("".to_string(), "".to_string())
    } else if same(provider, "gemini") {
        ("".to_string(), "gemini-3.5-flash".to_string())
    } else if same(provider, "openrouter") {
        let model = if anthropic_models.len() > 0 {
            cat2("anthropic/", anthropic_models[0].as_str())
        } else {
            "".to_string()
        };
        ("https://openrouter.ai/api/v1".to_string(), model)
    } else {
        ("http://localhost:11434/v1".to_string(), "".to_string())
    }
}

/// The size of the context and the percentage of it at which history is
/// compacted.
pub open spec fn context_defaults(provider: Seq<char>) -> (u64, u8) {
    if provider == "openai"@ || provider == "chatgpt"@ || provider == "anthropic"@ || provider
        == "gemini"@ || provider == "openrouter"@ {
        (250_000, 90)
    } else {
        (130_000, 90)
    }
}

pub fn provider_context_defaults(provider: &str) -> (r: (u64, u8))
    ensures
        r == context_defaults(provider@),
{
    if same(provider, "openai") || same(provider, "chatgpt") || same(provider, "anthropic") || same(
        provider,
        "gemini",
    ) || same(provider, "openrouter") {
        (250_000, 90)
    } else {
        (130_000, 90)
    }
}

/// The models of `anthropic` that are suggested for `openrouter`: the first and the
/// third.
pub open spec fn routed_models(anthropic_models: Seq<Seq<char>>) -> Seq<Seq<char>> {
    if anthropic_models.len() > 2 {
        seq![routed(anthropic_models[0]), routed(anthropic_models[2])]
    } else if anthropic_models.len() > 0 {
        seq![routed(anthropic_models[0])]
    } else {
        Seq::empty()
    }
}

/// The models that are suggested while no list has been fetched. Those of
/// `anthropic` are given from outside.
pub open spec fn known_models(provider: Seq<char>, anthropic_models: Seq<Seq<char>>) -> Seq<
    Seq<char>,
> {
    if provider == "openai"@ {
        seq![
            "gpt-5.5"@,
            "gpt-5.4"@,
            "gpt-5.4-mini"@,
            "gpt-5.3"@,
            "gpt-5.3-codex"@,
            "gpt-4o"@,
        ]
    } else if provider == "anthropic"@ {
        anthropic_models
    } else if provider == "gemini"@ {
        seq![
            "gemini-3.5-flash"@,
            "gemini-3.1-pro"@,
            "gemini-3.1-flash-lite"@,
            "gemini-3-pro"@,
        ]
    } else if provider == "openrouter"@ {
        routed_models(anthropic_models) + seq![
            "google/gemini-3.1-pro"@,
            "deepseek/deepseek-v4-pro"@,
            "qwen/qwen3-coder"@,
            "openai/gpt-5.5"@,
        ]
    } else if provider == "chatgpt"@ {
        seq![
            "gpt-5.6-luna"@,
            "gpt-5.6-sol"@,
            "gpt-5.6-terra"@,
            "gpt-5.1-codex"@,
            "gpt-5.4-mini"@,
        ]
    } else {
        Seq::empty()
    }
}

pub fn get_provider_models(provider: &str, anthropic_models: &Vec<String>) -> (r: Vec<String>)
    ensures
        texts(r@) == known_models(provider@, texts(anthropic_models@)),
{
    let mut out = no_texts();
    if same(provider, "openai") {
        push_text(&mut out, "gpt-5.5".to_string());
        push_text(&mut out, "gpt-5.4".to_string());
        push_text(&mut out, "gpt-5.4-mini".to_string());
        push_text(&mut out, "gpt-5.3".to_string());
        push_text(&mut out, "gpt-5.3-codex".to_string());
        push_text(&mut out, "gpt-4o".to_string());
    } else if same(provider, "anthropic") {
        out = copy_texts(anthropic_models);
    } else if same(provider, "gemini") {
        push_text(&mut out, "gemini-3.5-flash".to_string());
        push_text(&mut out, "gemini-3.1-pro".to_string());
        push_text(&mut out, "gemini-3.1-flash-lite".to_string());
        push_text(&mut out, "gemini-3-pro".to_string());
    } else if same(provider, "openrouter") {
        let ghost given = texts(anthropic_models@);
        if anthropic_models.len() > 0 {
            assert(given[0] == anthropic_models@[0]@);
            push_text(&mut out, cat2("anthropic/", anthropic_models[0].as_str()));
        }
        if anthropic_models.len() > 2 {
            assert(given[2] == anthropic_models@[2]@);
            push_text(&mut out, cat2("anthropic/", anthropic_models[2].as_str()));
        }
        assert(texts(out@) =~= routed_models(given));
        push_text(&mut out, "google/gemini-3.1-pro".to_string());
        push_text(&mut out, "deepseek/deepseek-v4-pro".to_string());
        push_text(&mut out, "qwen/qwen3-coder".to_string());
        push_text(&mut out, "openai/gpt-5.5".to_string());
    } else if same(provider, "chatgpt") {
        push_text(&mut out, "gpt-5.6-luna".to_string());
        push_text(&mut out, "gpt-5.6-sol".to_string());
        push_text(&mut out, "gpt-5.6-terra".to_string());
        push_text(&mut out, "gpt-5.1-codex".to_string());
        push_text(&mut out, "gpt-5.4-mini".to_string());
    }
    assert(texts(out@) =~= known_models(provider@, texts(anthropic_models@)));
    out
}

// ---------------------------------------------------------------------------
// Asking
// ---------------------------------------------------------------------------

/// How a request identifies its sender.
pub enum Credentials {
    Nothing,
    /// A bearer token.
    Bearer(String),
    /// A header of its own, with the version of the interface.
    KeyHeader { key: String, version: String },
}

pub struct ModelsRequest {
    pub url: String,
    pub credentials: Credentials,
}

pub ghost enum Identity {
    Nothing,
    Bearer(Seq<char>),
    KeyHeader { key: Seq<char>, version: Seq<char> },
}

pub ghost struct Asking {
    pub url: Seq<char>,
    pub identity: Identity,
}

impl View for Credentials {
    type V = Identity;

    open spec fn view(&self) -> Identity {
        match *self {
            Credentials::Nothing => Identity::Nothing,
            Credentials::Bearer(k) => Identity::Bearer(k@),
            Credentials::KeyHeader { key, version } => Identity::KeyHeader {
                key: key@,
                version: version@,
            },
        }
    }
}

impl View for ModelsRequest {
    type V = Asking;

    open spec fn view(&self) -> Asking {
        Asking { url: self.url@, identity: self.credentials@ }
    }
}

/// A key, where there is one.
pub open spec fn bearer_of(key: Seq<char>) -> Identity {
    if blank(key) {
        Identity::Nothing
    } else {
        Identity::Bearer(key)
    }
}

/// The endpoint of a gateway that speaks the Anthropic interface, with or without
/// a version at its end.
pub open spec fn messages_base(provider: Seq<char>, base_url: Seq<char>) -> Seq<char> {
    if provider == "anthropic-compatible"@ && !blank(base_url) {
        stripped_end(trimmed(base_url), '/')
    } else {
        "https://api.anthropic.com"@
    }
}

/// The endpoint of a gateway that speaks the OpenAI interface.
pub open spec fn compatible_url(base_url: Seq<char>) -> Seq<char> {
    if ends(base_url, "/models"@) {
        base_url
    } else if base_url.len() > 0 && base_url.last() == '/' {
        base_url + "models"@
    } else {
        base_url + "/models"@
    }
}

/// How a provider is asked for its models. Not every provider can be asked.
pub open spec fn asking(provider: Seq<char>, key: Seq<char>, base_url: Seq<char>) -> Option<Asking> {
    if provider == "openai"@ {
        Some(Asking { url: "https://api.openai.com/v1/models"@, identity: Identity::Bearer(key) })
    } else if provider == "anthropic"@ || provider == "anthropic-compatible"@ {
        let base = messages_base(provider, base_url);
        Some(
            Asking {
                url: if ends(base, "/v1"@) {
                    base + "/models"@
                } else {
                    base + "/v1/models"@
                },
                identity: Identity::KeyHeader { key, version: "2023-06-01"@ },
            },
        )
    } else if provider == "gemini"@ {
        Some(
            Asking {
                url: "https://generativelanguage.googleapis.com/v1beta/models?key="@ + key,
                identity: Identity::Nothing,
            },
        )
    } else if provider == "openrouter"@ {
        Some(
            Asking { url: "https://openrouter.ai/api/v1/models"@, identity: bearer_of(key) },
        )
    } else if provider == "openai-compatible"@ {
        Some(Asking { url: compatible_url(base_url), identity: bearer_of(key) })
    } else {
        None
    }
}

fn bearer(key: &str) -> (r: Credentials)
    ensures
        r@ == bearer_of(key@),
{
    if is_blank(key) {
        Credentials::Nothing
    } else {
        Credentials::Bearer(key.to_owned())
    }
}

fn messages_url(provider: &str, base_url: &str) -> (r: String)
    ensures
        ({
            let base = messages_base(provider@, base_url@);
            r@ == if ends(base, "/v1"@) {
                base + "/models"@
            } else {
                base + "/v1/models"@
            }
        }),
{
    let base = if same(provider, "anthropic-compatible") && !is_blank(base_url) {
        let t = trim(base_url);
        strip_end(t.as_str(), '/')
    } else {
        "https://api.anthropic.com".to_string()
    };
    if ends_with(base.as_str(), "/v1") {
        cat2(base.as_str(), "/models")
    } else {
        cat2(base.as_str(), "/v1/models")
    }
}

fn compatible_models_url(base_url: &str) -> (r: String)
    ensures
        r@ == compatible_url(base_url@),
{
    if ends_with(base_url, "/models") {
        base_url.to_owned()
    } else if ends_with_char(base_url, '/') {
        cat2(base_url, "models")
    } else {
        cat2(base_url, "/models")
    }
}

/// The request for the list of a provider's models.
pub fn models_request(provider: &str, key: &str, base_url: &str) -> (r: Option<ModelsRequest>)
    ensures
        asking(provider@, key@, base_url@) == match r {
            Some(q) => Some(q@),
            None => None,
        },
{
    if same(provider, "openai") {
        Some(
            ModelsRequest {
                url: "https://api.openai.com/v1/models".to_string(),
                credentials: Credentials::Bearer(key.to_owned()),
            },
        )
    } else if same(provider, "anthropic") || same(provider, "anthropic-compatible") {
        Some(
            ModelsRequest {
                url: messages_url(provider, base_url),
                credentials: Credentials::KeyHeader {
                    key: key.to_owned(),
                    version: "2023-06-01".to_string(),
                },
            },
        )
    } else if same(provider, "gemini") {
        Some(
            ModelsRequest {
                url: cat2("https://generativelanguage.googleapis.com/v1beta/models?key=", key),
                credentials: Credentials::Nothing,
            },
        )
    } else if same(provider, "openrouter") {
        Some(
            ModelsRequest {
                url: "https://openrouter.ai/api/v1/models".to_string(),
                credentials: bearer(key),
            },
        )
    } else if same(provider, "openai-compatible") {
        Some(
            ModelsRequest { url: compatible_models_url(base_url), credentials: bearer(key) },
        )
    } else {
        None
    }
}

/// What is said where a provider cannot be asked.
pub fn unsupported_provider(provider: &str) -> (r: String)
    ensures
        r@ == "Unsupported provider: "@ + provider@,
{
    cat2("Unsupported provider: ", provider)
}

/// What is said where a provider answers with an error.
pub fn http_failure(status: &str) -> (r: String)
    ensures
        r@ == "HTTP status "@ + status@,
{
    cat2("HTTP status ", status)
}

// ---------------------------------------------------------------------------
// Reading
// ---------------------------------------------------------------------------

/// The named texts of the items that have one.
pub open spec fn named_texts(items: Seq<Value>, name: Seq<char>) -> Seq<Seq<char>>
    decreases items.len(),
{
    if items.len() == 0 {
        Seq::empty()
    } else {
        let before = named_texts(items.drop_last(), name);
        match text_of(member(items.last(), name)) {
            Some(s) => before.push(s),
            None => before,
        }
    }
}

/// The identifiers of the items, or the items where they are texts themselves.
pub open spec fn ids_or_texts(items: Seq<Value>) -> Seq<Seq<char>>
    decreases items.len(),
{
    if items.len() == 0 {
        Seq::empty()
    } else {
        let before = ids_or_texts(items.drop_last());
        match text_of(member(items.last(), "id"@)) {
            Some(s) => before.push(s),
            None => match items.last() {
                Value::Text(s) => before.push(s),
                _ => before,
            },
        }
    }
}

pub open spec fn without_prefix(s: Seq<char>, p: Seq<char>) -> Seq<char> {
    if starts(s, p) {
        s.skip(p.len() as int)
    } else {
        s
    }
}

/// The models that a reply names, in the order of the reply.
pub open spec fn listed(provider: Seq<char>, reply: Value) -> Seq<Seq<char>> {
    let under = |name: Seq<char>| list_at(reply, name);
    if provider == "gemini"@ {
        named_texts(under("models"@), "name"@).map_values(
            |s: Seq<char>| without_prefix(s, "models/"@),
        )
    } else if provider == "openai-compatible"@ {
        if items_of(member(reply, "data"@)) is Some {
            named_texts(under("data"@), "id"@)
        } else if items_of(member(reply, "models"@)) is Some {
            named_texts(under("models"@), "name"@)
        } else {
            match reply {
                Value::Array(items) => ids_or_texts(items),
                _ => Seq::empty(),
            }
        }
    } else {
        named_texts(under("data"@), "id"@)
    }
}

fn read_named(items: &Vec<Json>, name: &str) -> (r: Vec<String>)
    ensures
        texts(r@) == named_texts(values(items@), name@),
{
    let ghost all = values(items@);
    let mut out = no_texts();
    for i in 0..items.len()
        invariant
            all == values(items@),
            texts(out@) == named_texts(all.take(i as int), name@),
    {
        assert(all.take(i + 1).drop_last() =~= all.take(i as int));
        assert(all.take(i + 1).last() == items@[i as int]@);
        match items[i].text_at(name) {
            Some(s) => {
                push_text(&mut out, s);
            },
            None => {},
        }
    }
    assert(all.take(all.len() as int) =~= all);
    out
}

fn read_ids_or_texts(items: &Vec<Json>) -> (r: Vec<String>)
    ensures
        texts(r@) == ids_or_texts(values(items@)),
{
    let ghost all = values(items@);
    let mut out = no_texts();
    for i in 0..items.len()
        invariant
            all == values(items@),
            texts(out@) == ids_or_texts(all.take(i as int)),
    {
        assert(all.take(i + 1).drop_last() =~= all.take(i as int));
        assert(all.take(i + 1).last() == items@[i as int]@);
        match items[i].text_at("id") {
            Some(s) => {
                push_text(&mut out, s);
            },
            None => {
                match items[i].as_str() {
                    Some(s) => {
                        push_text(&mut out, s.clone());
                    },
                    None => {},
                }
            },
        }
    }
    assert(all.take(all.len() as int) =~= all);
    out
}

/// The named texts of the items of a list, where there is one.
fn read_list(reply: &Json, list: &str, name: &str) -> (r: Vec<String>)
    ensures
        texts(r@) == named_texts(list_at(reply@, list@), name@),
{
    match reply.array_at(list) {
        Some(items) => read_named(items, name),
        None => no_texts(),
    }
}

fn strip_all(list: &Vec<String>, p: &str) -> (r: Vec<String>)
    ensures
        texts(r@) == texts(list@).map_values(|s: Seq<char>| without_prefix(s, p@)),
{
    let mut out = no_texts();
    for i in 0..list.len()
        invariant
            texts(out@).len() == i,
            forall|k: int|
                0 <= k < i ==> #[trigger] texts(out@)[k] == without_prefix(list@[k]@, p@),
    {
        let s = match strip_prefix(list[i].as_str(), p) {
            Some(rest) => rest,
            None => list[i].clone(),
        };
        push_text(&mut out, s);
    }
    assert(texts(out@) =~= texts(list@).map_values(|s: Seq<char>| without_prefix(s, p@)));
    out
}

fn read_listed(provider: &str, reply: &Json) -> (r: Vec<String>)
    ensures
        texts(r@) == listed(provider@, reply@),
{
    if same(provider, "gemini") {
        strip_all(&read_list(reply, "models", "name"), "models/")
    } else if same(provider, "openai-compatible") {
        if reply.array_at("data").is_some() {
            read_list(reply, "data", "id")
        } else if reply.array_at("models").is_some() {
            read_list(reply, "models", "name")
        } else {
            match reply.as_array() {
                Some(items) => read_ids_or_texts(items),
                None => no_texts(),
            }
        }
    } else {
        read_list(reply, "data", "id")
    }
}

/// The models that a reply names, in dictionary order. A reply without any is an
/// error.
pub fn models_in_reply(provider: &str, reply: &Json) -> (r: Result<Vec<String>, String>)
    ensures
        r is Ok <==> listed(provider@, reply@).len() > 0,
        r matches Ok(models) ==> sorted_from(listed(provider@, reply@), texts(models@)),
        r matches Err(m) ==> m@ == "No models found"@,
{
    let list = read_listed(provider, reply);
    assert(texts(list@).len() == list@.len());
    if list.len() == 0 {
        return Err("No models found".to_string());
    }
    Ok(sort_texts(&list))
}

} // verus!
