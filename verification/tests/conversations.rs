//! Saved conversations, suggestions, questions, and how the screen opens and
//! closes.
use snippet::app::{App, World};
use snippet::asking::{pending_question_text, questions_of, Answering, Reply};
use snippet::effects::Effect;
use snippet::events::{Checkpoint, HarnessEvent, HarnessState, HarnessStatus};
use snippet::form::ModelConfig;
use snippet::json::Json;
use snippet::options::{ExitInfo, SnippetConfig, TuiOptions};
use snippet::paths::{base_name_of, file_name_of, is_same_path, join_path, split_extension};
use snippet::questions::{q_options, q_text, question_text};
use snippet::sessions::{
    conversation_path, conversations_dir, find_last_active_conversation, is_conversation_json,
    list_conversations, Found, Saved,
};
use snippet::style::Line;
use snippet::suggestions::{get_suggestions, suggestion_height, suggestion_lines, ALL_COMMANDS};

const SECOND: i128 = 1_000_000_000;

fn found(path: &str, modified: Option<i128>, title: Option<&str>, request: &str) -> Found {
    Found {
        path: path.to_string(),
        modified,
        saved: Some(Saved {
            title: title.map(str::to_string),
            user_request: request.to_string(),
            has_events: false,
        }),
    }
}

fn pair(a: &str, b: &str) -> (String, String) {
    (a.to_string(), b.to_string())
}

fn text(s: &str) -> Json {
    Json::Text(s.to_string())
}

fn object(members: Vec<(&str, Json)>) -> Json {
    Json::Object(members.into_iter().map(|(k, v)| (k.to_string(), v)).collect())
}

fn shown(l: &Line) -> String {
    l.spans.iter().map(|s| s.text.as_str()).collect::<Vec<_>>().concat()
}

fn asked(questions: Vec<Json>, asks: usize) -> Option<HarnessState> {
    let mut events = Vec::new();
    for _ in 0..asks {
        events.push(HarnessEvent::UserQuestion { questions: Json::Null });
    }
    Some(HarnessState {
        status: HarnessStatus::WaitingForInput,
        title: None,
        user_request: "".to_string(),
        initial_request: None,
        events,
        lanes: vec![],
        checkpoints: vec![],
        pending_question: Some(object(vec![("questions", Json::Array(questions))])),
        manual_approval: false,
        goal: None,
        watching: 0,
        prompt_tokens: 1_200,
        completion_tokens: 30,
        cache_read_tokens: 0,
        total_tokens: 1_230,
        last_prompt_tokens: 0,
    })
}

fn options(resume: Option<&str>, resume_on_start: bool, key: &str) -> TuiOptions {
    TuiOptions {
        config_path: "/home/u/.snippet/config.toml".to_string(),
        config: SnippetConfig {
            workspace: "/work".to_string(),
            state_path: "/home/u/.snippet/state.json".to_string(),
            theme: Some("midnight".to_string()),
            resume_on_start,
            manual_approval: false,
            model: ModelConfig {
                provider: "openai".to_string(),
                api_key: key.to_string(),
                model: "m".to_string(),
                base_url: "".to_string(),
                reasoning_effort: None,
                context_window: 100_000,
                compact_at_pct: 80,
            },
        },
        resume: resume.map(str::to_string),
        anthropic_models: vec![],
    }
}

fn world() -> World {
    World {
        ended: false,
        animating: false,
        signed_in: false,
        sessions: vec![],
        profiles: vec![],
        themes: vec![],
        theme: 0,
        fresh_name: "fresh".to_string(),
    }
}

#[test]
fn sidecars_are_no_conversations() {
    assert!(is_conversation_json("/c/a.json"));
    assert!(!is_conversation_json("/c/a.meta.json"));
    assert!(!is_conversation_json("/c/a.toml"));
    assert!(!is_conversation_json("/c/.json"));
}

#[test]
fn conversations_are_listed_by_age() {
    let now = 1_000_000 * SECOND;
    let files = vec![
        found("/c/old.json", Some(now - 3 * 86_400 * SECOND), None, "first request"),
        found("/c/new.json", Some(now - 59 * SECOND), Some("  A title "), "ignored"),
        found("/c/new.meta.json", Some(now), None, "sidecar"),
        found("/c/default.json", Some(now), None, "skipped"),
        found("/c/hour.json", Some(now - 3_600 * SECOND), Some(" "), &"x".repeat(41)),
        Found { path: "/c/bad.json".to_string(), modified: None, saved: None },
        found("/c/minute.json", Some(now - 119 * SECOND), None, &"y".repeat(40)),
    ];
    let default = found("/home/state.json", Some(now - 7_200 * SECOND), Some("t"), "by default");
    assert_eq!(
        list_conversations(&files, Some(&default), now),
        vec![
            pair("new", "(just now) — A title"),
            pair("minute", &format!("(1m ago) — {}", "y".repeat(40))),
            pair("hour", &format!("(1h ago) — {}...", "x".repeat(37))),
            pair("default", "(2h ago) — by default"),
            pair("old", "(3d ago) — first request"),
            pair("bad", "(11d ago) — empty session"),
        ]
    );
    let contentless = found("/home/state.json", Some(now), None, "");
    assert!(list_conversations(&vec![], Some(&contentless), now).is_empty());
    // A file from the future is new.
    let ahead = vec![found("/c/a.json", Some(now + SECOND), None, "r")];
    assert_eq!(list_conversations(&ahead, None, now), vec![pair("a", "(just now) — r")]);
}

#[test]
fn the_last_conversation_is_found() {
    let files = vec![
        found("/c/a.json", Some(5), None, ""),
        found("/c/b.json", Some(9), None, ""),
        found("/c/c.json", Some(9), None, ""),
        found("/c/d.meta.json", Some(99), None, ""),
        found("/c/e.json", None, None, ""),
    ];
    let last = |d: Option<&Found>| find_last_active_conversation(&files, d, "/s.json");
    assert_eq!(last(None), Some("b".to_string()));
    let older = found("/s.json", Some(9), None, "");
    assert_eq!(last(Some(&older)), Some("b".to_string()));
    let newer = found("/s.json", Some(10), None, "");
    assert_eq!(last(Some(&newer)), Some("default".to_string()));
    assert_eq!(find_last_active_conversation(&vec![], None, "/s.json"), None);
}

#[test]
fn conversations_have_their_files() {
    assert_eq!(conversations_dir(Some("/home/u/.snippet")), "/home/u/.snippet/conversations");
    assert_eq!(conversations_dir(None), "./conversations");
    assert_eq!(conversation_path("default", "/c", "/s.json"), "/s.json");
    assert_eq!(conversation_path("a", "/c", "/s.json"), "/c/a.json");
}

#[test]
fn paths_are_joined_and_taken_apart() {
    assert_eq!(join_path("/a", "b"), "/a/b");
    assert_eq!(join_path("/a/", "b"), "/a/b");
    assert_eq!(join_path("/a", "/b"), "/b");
    assert_eq!(join_path("", "b"), "b");
    assert_eq!(file_name_of("/a/b.rs"), Some("b.rs".to_string()));
    assert_eq!(file_name_of("/a/b/"), Some("b".to_string()));
    assert_eq!(file_name_of("/a/.."), None);
    assert_eq!(base_name_of("/"), "/");
    assert!(is_same_path("/a//b/./c/", "/a/b/c"));
    assert!(!is_same_path("a/b", "/a/b"));
    assert_eq!(
        split_extension("a.tar.gz"),
        (Some("a.tar".to_string()), Some("gz".to_string()))
    );
    assert_eq!(split_extension(".rc"), (Some(".rc".to_string()), None));
}

#[test]
fn commands_are_suggested() {
    let sessions = vec![pair("alpha", "d1"), pair("beta", "d2")];
    let checkpoints = vec![
        Checkpoint { id: "0123456789".to_string(), label: "one".to_string() },
        Checkpoint { id: "abc".to_string(), label: "two".to_string() },
    ];
    let some = |input: &str| get_suggestions(input, &sessions, &checkpoints);
    assert_eq!(some("/").len(), ALL_COMMANDS.len());
    assert_eq!(some("/m").len(), 2);
    assert!(some("hello").is_empty());
    assert!(some("/goal x").is_empty());
    assert_eq!(some("/resume b"), vec![pair("/resume beta", "d2")]);
    assert_eq!(some("/resume").len(), 2);
    assert_eq!(
        some("/rewind"),
        vec![pair("/rewind abc", "two"), pair("/rewind 01234567", "one")]
    );
    assert_eq!(some("/rewind 345"), vec![pair("/rewind 01234567", "one")]);
    assert_eq!(suggestion_height(0), 0);
    assert_eq!(suggestion_height(8), 9);
    assert_eq!(suggestion_height(65_534), 65_535);
    assert_eq!(suggestion_height(65_535), 65_535);
    assert_eq!(suggestion_height(65_536), 65_535);
    let lines = suggestion_lines(&some("/m"), 1);
    assert_eq!(shown(&lines[0]), "  /model      Connect or change the AI model");
    assert_eq!(shown(&lines[1]), "▍ /mode       Toggle manual approval (bash & file edits ask y/n)");
    assert!(lines[1].spans[1].style.bold && !lines[0].spans[1].style.bold);
}

fn choice(q: &str) -> Json {
    object(vec![
        ("text", text(q)),
        (
            "answer_kind",
            object(vec![
                ("kind", text("single_choice")),
                (
                    "choices",
                    Json::Array(vec![
                        object(vec![("value", text("v1")), ("label", text(" One "))]),
                        object(vec![("value", text("v2"))]),
                        object(vec![("label", text("Three"))]),
                    ]),
                ),
            ]),
        ),
    ])
}

fn open_question(q: &str) -> Json {
    object(vec![("text", text(q))])
}

#[test]
fn questions_have_options() {
    assert_eq!(
        q_options(&choice("q")),
        vec![pair("v1", "One"), pair("v2", "v2"), pair("Three", "Three")]
    );
    let kind = |k: &str| {
        object(vec![(
            "answer_kind",
            object(vec![("kind", text(k)), ("confirm_label", text("Do it")), ("cancel_label", text(" "))]),
        )])
    };
    assert_eq!(q_options(&kind("yes_no")), vec![pair("yes", "Yes"), pair("no", "No")]);
    assert_eq!(
        q_options(&kind("confirm")),
        vec![pair("confirm", "Do it"), pair("cancel", "Cancel")]
    );
    assert!(q_options(&kind("free_text")).is_empty());
    assert_eq!(q_text(&Json::Null), "(question)");
    let two = object(vec![("questions", Json::Array(vec![open_question("a"), Json::Null, open_question("b")]))]);
    assert_eq!(question_text(&two), Some("a  |  b".to_string()));
    assert_eq!(question_text(&object(vec![("questions", Json::Array(vec![]))])), None);
}

#[test]
fn answers_are_collected_in_order() {
    let state = asked(vec![choice("pick"), open_question("why")], 1);
    assert_eq!(pending_question_text(&state), Some("pick  |  why".to_string()));
    assert_eq!(questions_of(&state).len(), 2);
    let mut a = Answering::new();
    a.begin(&state);
    a.sel = 2;
    assert!(matches!(a.answer(&state, ""), Reply::Next { typed: false }));
    assert_eq!((a.index, a.sel), (1, 0));
    assert!(matches!(a.answer(&state, " "), Reply::NeedText));
    match a.answer(&state, " because ") {
        Reply::Complete { text } => assert_eq!(text, "1. pick → Three\n2. why → because"),
        _ => panic!("all is answered"),
    }
    assert_eq!((a.index, a.answers.len(), a.token.as_str()), (0, 0, ""));
    let one = asked(vec![open_question("why")], 1);
    match a.answer(&one, "so") {
        Reply::Complete { text } => assert_eq!(text, "so"),
        _ => panic!("all is answered"),
    }
    assert!(matches!(a.answer(&None, "x"), Reply::Nothing));
}

#[test]
fn asking_again_starts_over() {
    let mut a = Answering::new();
    let state = asked(vec![choice("pick"), open_question("why")], 1);
    a.begin(&state);
    a.answer(&state, "");
    a.begin(&state);
    assert_eq!(a.index, 1);
    a.begin(&asked(vec![choice("pick"), open_question("why")], 2));
    assert_eq!((a.index, a.answers.len()), (0, 0));
    a.sel = 9;
    a.begin(&asked(vec![choice("pick"), open_question("why")], 2));
    assert_eq!(a.sel, 0);
}

#[test]
fn the_screen_opens_a_conversation() {
    let (app, out) = App::new(&options(Some("id"), true, "k"), Some("last"), "fresh", false);
    assert_eq!(app.conversation, "id");
    assert!(matches!(out.as_slice(), [Effect::Open]));
    let (app, _) = App::new(&options(None, true, "k"), Some("last"), "fresh", false);
    assert_eq!(app.conversation, "last");
    let (app, out) = App::new(&options(None, true, "k"), None, "fresh", false);
    assert_eq!(app.conversation, "default");
    assert_eq!(app.status, "Resuming the saved run...");
    assert!(out.is_empty());
    let (app, _) = App::new(&options(None, false, "k"), Some("last"), "fresh", false);
    assert_eq!((app.conversation.as_str(), app.status.as_str()), ("fresh", ""));
    let (app, _) = App::new(&options(None, false, " "), None, "fresh", true);
    assert_eq!(app.status, "No model connected yet — type /model to connect one.");
    let mut o = options(None, false, "");
    o.config.model.provider = "chatgpt".to_string();
    let (app, _) = App::new(&o, None, "fresh", true);
    assert_eq!(app.status, "");
}

#[test]
fn a_resumed_conversation_goes_on_at_once() {
    let o = options(Some("id"), false, "k");
    let (mut app, _) = App::new(&o, None, "fresh", false);
    assert!(matches!(app.begin(&o, &world()).as_slice(), [Effect::Spawn { initial: None }]));
    assert!(app.held && app.linked);
    let o = options(None, false, "k");
    let (mut app, _) = App::new(&o, None, "fresh", false);
    assert!(app.begin(&o, &world()).is_empty());
}

#[test]
fn the_way_back_is_printed() {
    let o = options(Some("id"), false, "k");
    let (mut app, _) = App::new(&o, None, "fresh", false);
    let info = ExitInfo::of(&app, &o.config_path);
    assert_eq!(info.lines(Some("/home/u")), vec!["snippet --resume id"]);
    assert_eq!(
        info.lines(Some("/home/other")),
        vec!["snippet --resume id --config /home/u/.snippet/config.toml"]
    );
    app.state = asked(vec![], 0);
    let info = ExitInfo::of(&app, &o.config_path);
    assert_eq!(
        info.lines(Some("/home/u")),
        vec!["↑1k in · ↓30 out · ↻0 cached · 1k total", "snippet --resume id"]
    );
    app.conversation = "".to_string();
    assert!(ExitInfo::of(&app, &o.config_path).lines(None).is_empty());
}
