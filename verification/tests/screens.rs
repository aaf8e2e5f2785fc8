//! Keys, commands and what they ask for, and the panels around the transcript.
use snippet::app::{App, Screen, World};
use snippet::bars::{
    approval_panel, clipboard_sequence, compaction_bar, copy_sequence, footer_line, header_line,
    place_line, status_message_line,
};
use snippet::connecting::Outcome;
use snippet::effects::{Effect, LoopInput, Purpose, Receipt};
use snippet::events::{
    Checkpoint, GoalStatus, HarnessEvent, HarnessState, HarnessStatus, LaneRecord, LaneStatus,
};
use snippet::form::{ModelConfig, SettingsField};
use snippet::inputs::attachment_line;
use snippet::json::Json;
use snippet::keys::{Key, KeyCode};
use snippet::lists::{
    form_popup, preset_lines, profile_lines, profile_status, profiles_header, session_lines, Preset,
};
use snippet::login::DeviceCode;
use snippet::options::{SnippetConfig, TuiOptions};
use snippet::panels::{lane_line, lane_lines, login_lines, queued_lines};
use snippet::prompt::Attachment;
use snippet::style::Line;
use snippet::theme::theme;
use snippet::ticking::{
    attachment_name, attachment_path, scratch_dir, Attach, Glance, Screenshot, StateRead,
};

fn shown(l: &Line) -> String {
    l.spans.iter().map(|s| s.text.as_str()).collect::<Vec<_>>().concat()
}

fn all_shown(list: &[Line]) -> Vec<String> {
    list.iter().map(shown).collect()
}

fn setup(provider: &str, key: &str, model: &str) -> ModelConfig {
    ModelConfig {
        provider: provider.to_string(),
        api_key: key.to_string(),
        model: model.to_string(),
        base_url: "https://host/v1".to_string(),
        reasoning_effort: None,
        context_window: 100_000,
        compact_at_pct: 80,
    }
}

fn pair(a: &str, b: &str) -> (String, String) {
    (a.to_string(), b.to_string())
}

fn world() -> World {
    World {
        ended: false,
        animating: false,
        signed_in: false,
        sessions: vec![pair("one", "(just now) — first"), pair("two", "(1m ago) — second")],
        profiles: vec![
            ("main".to_string(), Some(setup("openai", "k", "m1"))),
            ("other".to_string(), Some(setup("gemini", "", "m2"))),
        ],
        themes: vec!["Ink".to_string(), "Paper".to_string()],
        theme: 0,
        fresh_name: "fresh".to_string(),
    }
}

fn app() -> App {
    let o = TuiOptions {
        config_path: "/c.toml".to_string(),
        config: SnippetConfig {
            workspace: "/work".to_string(),
            state_path: "/s.json".to_string(),
            theme: None,
            resume_on_start: false,
            manual_approval: false,
            model: setup("openai", "k", "m1"),
        },
        resume: Some("one".to_string()),
        anthropic_models: vec!["large-2".to_string(), "large-1".to_string(), "small-1".to_string()],
    };
    App::new(&o, None, "fresh", false).0
}

fn state(status: HarnessStatus, events: Vec<HarnessEvent>) -> HarnessState {
    HarnessState {
        status,
        title: None,
        user_request: "".to_string(),
        initial_request: None,
        events,
        lanes: vec![],
        checkpoints: vec![],
        pending_question: None,
        manual_approval: false,
        goal: None,
        watching: 0,
        prompt_tokens: 0,
        completion_tokens: 0,
        cache_read_tokens: 0,
        total_tokens: 0,
        last_prompt_tokens: 0,
    }
}

/// A screen with a loop that is at work.
fn busy_app() -> App {
    let mut a = app();
    a.spawn_loop(None, &world());
    a.state = Some(state(HarnessStatus::Running, vec![]));
    a
}

/// A screen with a loop that waits for a message.
fn idle_app() -> App {
    let mut a = busy_app();
    a.state = Some(state(HarnessStatus::Idle, vec![]));
    a
}

fn plain(code: KeyCode) -> Key {
    Key { code, ctrl: false, alt: false, shift: false, command: false }
}

fn ctrl(c: char) -> Key {
    Key { ctrl: true, ..plain(KeyCode::Char(c)) }
}

fn alt(code: KeyCode) -> Key {
    Key { alt: true, ..plain(code) }
}

fn press(a: &mut App, code: KeyCode) -> Vec<Effect> {
    a.handle_key(plain(code), &world())
}

fn type_text(a: &mut App, s: &str) {
    for c in s.chars() {
        press(a, KeyCode::Char(c));
    }
}

fn enter(a: &mut App, s: &str) -> Vec<Effect> {
    a.prompt.set(s.to_string());
    a.submit(&world())
}

fn says(s: &str) -> HarnessEvent {
    HarnessEvent::AssistantText { text: s.to_string() }
}

fn compacted() -> HarnessEvent {
    HarnessEvent::SystemDecision {
        step: "history_compacted".to_string(),
        reasoning: "".to_string(),
    }
}

fn lane(title: &str, status: LaneStatus, started_at: &str) -> LaneRecord {
    LaneRecord { title: title.to_string(), status, started_at: started_at.to_string() }
}

fn waiting_for_approval(total: usize) -> App {
    let mut a = busy_app();
    a.state = Some(state(
        HarnessStatus::WaitingForInput,
        vec![HarnessEvent::ApprovalRequest {
            tool_name: "bash".to_string(),
            summary: "ls".to_string(),
            index: 1,
            total,
        }],
    ));
    a
}

// --- messages ---

#[test]
fn a_first_message_starts_a_loop() {
    let mut a = app();
    type_text(&mut a, "hello");
    let out = press(&mut a, KeyCode::Enter);
    assert!(matches!(out.as_slice(), [Effect::Spawn { initial: Some(t) }] if t == "hello"));
    assert!(a.held && a.linked && a.pending && a.was_busy);
    assert_eq!(a.prompt.input(), "");
}

#[test]
fn a_message_goes_to_the_loop() {
    let mut a = idle_app();
    let out = enter(&mut a, "  more ");
    match out.as_slice() {
        [Effect::Send { input: LoopInput::UserMessage { text }, receipt }] => {
            assert_eq!(text, "more");
            assert_eq!(*receipt, Receipt::Turn);
        }
        _ => panic!("one message is sent"),
    }
    assert!(!a.pending);
    assert!(a.delivered(Receipt::Turn, true).is_empty());
    assert!(a.pending && a.was_busy);
    a.delivered(Receipt::Turn, false);
    assert_eq!(a.error, Some("agent loop is no longer accepting input".to_string()));
    a.state = Some(state(HarnessStatus::WaitingForInput, vec![]));
    a.pending = false;
    let out = enter(&mut a, "yes");
    assert!(matches!(
        out.as_slice(),
        [Effect::Send { input: LoopInput::Answer { text }, .. }] if text == "yes"
    ));
}

#[test]
fn messages_are_held_while_a_turn_goes_on() {
    let mut a = busy_app();
    assert!(enter(&mut a, "one").is_empty());
    assert_eq!(a.status, "queued (1) — sends when the run finishes · Esc to stop & send now");
    enter(&mut a, "two");
    assert_eq!(a.queued, vec!["one", "two"]);
    a.was_busy = true;
    let out = a.end_turn(false);
    match out.as_slice() {
        [Effect::Submit { text: x }, Effect::Submit { text: y }] => {
            assert_eq!((x.as_str(), y.as_str()), ("one", "two"));
        }
        _ => panic!("both are submitted"),
    }
    assert!(a.queued.is_empty());
    a.settle(false);
    assert!(!a.was_busy);
    let mut a = busy_app();
    let w = World { animating: true, ..world() };
    a.prompt.set("x".to_string());
    a.submit(&w);
    assert_eq!(a.status, "compacting context — your message will send once it's done");
}

#[test]
fn held_messages_can_be_cancelled() {
    let mut a = busy_app();
    enter(&mut a, "one");
    a.handle_key(ctrl('x'), &world());
    assert_eq!(a.status, "cancelled 1 queued message");
    assert!(a.queued.is_empty());
    a.was_busy = true;
    assert!(a.end_turn(false).is_empty());
}

#[test]
fn an_empty_message_is_not_sent() {
    let mut a = app();
    assert!(enter(&mut a, "  ").is_empty());
    assert_eq!(a.status, "Enter a task before starting.");
}

// --- keys ---

#[test]
fn control_c_interrupts_or_leaves() {
    let mut a = busy_app();
    let out = a.handle_key(ctrl('c'), &world());
    assert!(matches!(out.as_slice(), [Effect::Send { input: LoopInput::Interrupt, .. }]));
    assert_eq!(a.status, "Interrupting...");
    assert!(!a.quit);
    let mut a = idle_app();
    a.handle_key(ctrl('c'), &world());
    assert!(a.quit);
    let mut a = busy_app();
    a.handle_key(ctrl('q'), &world());
    assert!(a.quit);
}

#[test]
fn a_key_clears_the_error_banner() {
    let mut a = app();
    a.error = Some("seen".to_string());
    press(&mut a, KeyCode::Other);
    assert_eq!(a.error, None);
}

#[test]
fn approval_takes_the_keys() {
    let mut a = waiting_for_approval(1);
    assert!(matches!(
        press(&mut a, KeyCode::Char('y')).as_slice(),
        [Effect::Send { input: LoopInput::Approve, .. }]
    ));
    assert!(press(&mut a, KeyCode::Char('a')).is_empty());
    assert!(matches!(
        press(&mut a, KeyCode::Char('N')).as_slice(),
        [Effect::Send { input: LoopInput::Deny, .. }]
    ));
    assert!(press(&mut a, KeyCode::Char('q')).is_empty());
    assert_eq!(a.prompt.input(), "");
    assert!(matches!(
        press(&mut a, KeyCode::Esc).as_slice(),
        [Effect::Send { input: LoopInput::Interrupt, .. }]
    ));
    assert_eq!(a.status, "Interrupting…");
    let mut a = waiting_for_approval(2);
    assert!(matches!(
        press(&mut a, KeyCode::Char('a')).as_slice(),
        [Effect::Send { input: LoopInput::ApproveAll, .. }]
    ));
    assert_eq!(a.bar_heights(&world()), (0, 6));
    assert_eq!(app().bar_heights(&world()), (0, 0));
}

#[test]
fn the_prompt_is_edited() {
    let mut a = app();
    type_text(&mut a, "one two");
    a.handle_key(ctrl('w'), &world());
    assert_eq!(a.prompt.input(), "one ");
    a.handle_key(alt(KeyCode::Enter), &world());
    assert_eq!(a.prompt.input(), "one \n");
    a.handle_key(ctrl('u'), &world());
    assert_eq!(a.prompt.input(), "");
    type_text(&mut a, "ab cd");
    a.handle_key(alt(KeyCode::Char('b')), &world());
    assert_eq!(a.prompt.cursor(), 3);
    a.handle_key(alt(KeyCode::Char('z')), &world());
    assert_eq!(a.prompt.input(), "ab cd");
    a.handle_key(alt(KeyCode::Char('d')), &world());
    assert_eq!(a.prompt.input(), "ab ");
    press(&mut a, KeyCode::Esc);
    assert_eq!(a.prompt.input(), "");
}

#[test]
fn the_transcript_is_scrolled() {
    let mut a = app();
    a.set_max_scroll(15);
    press(&mut a, KeyCode::PageUp);
    assert_eq!(a.scroll, 10);
    press(&mut a, KeyCode::PageUp);
    assert_eq!(a.scroll, 15);
    press(&mut a, KeyCode::PageDown);
    assert_eq!(a.scroll, 5);
    press(&mut a, KeyCode::Home);
    assert_eq!(a.scroll, 15);
    press(&mut a, KeyCode::End);
    assert_eq!(a.scroll, 0);
    a.scroll_up(3);
    a.scroll_down(9);
    assert_eq!(a.scroll, 0);
    press(&mut a, KeyCode::Up);
    assert_eq!(a.scroll, 1);
}

#[test]
fn a_command_is_completed() {
    let mut a = app();
    type_text(&mut a, "/mo");
    press(&mut a, KeyCode::Down);
    press(&mut a, KeyCode::Tab);
    assert_eq!(a.prompt.input(), "/mode ");
    a.prompt.set("/mo".to_string());
    press(&mut a, KeyCode::Enter);
    assert_eq!(a.prompt.input(), "/model ");
    a.prompt.set("/resume t".to_string());
    let out = press(&mut a, KeyCode::Enter);
    assert!(matches!(out.as_slice(), [Effect::Open, Effect::TryResume]));
    assert_eq!(a.conversation, "two");
}

#[test]
fn a_picked_answer_is_sent() {
    let mut a = idle_app();
    let mut s = state(HarnessStatus::WaitingForInput, vec![]);
    let kind = Json::Object(vec![("kind".to_string(), Json::Text("yes_no".to_string()))]);
    let question = Json::Object(vec![
        ("text".to_string(), Json::Text("sure?".to_string())),
        ("answer_kind".to_string(), kind),
    ]);
    s.pending_question =
        Some(Json::Object(vec![("questions".to_string(), Json::Array(vec![question]))]));
    a.state = Some(s);
    assert_eq!(a.question_height(), 5);
    assert_eq!(
        all_shown(&a.question_lines(40)),
        vec!["", "sure?", "  ▸ Yes", "    No", "  ↑/↓ choose · ↵ select · Esc cancel"]
    );
    type_text(&mut a, "typed");
    assert_eq!(a.prompt.input(), "");
    press(&mut a, KeyCode::Down);
    let out = press(&mut a, KeyCode::Enter);
    assert!(matches!(
        out.as_slice(),
        [Effect::Send { input: LoopInput::Answer { text }, receipt: Receipt::Turn }] if text == "no"
    ));
    assert_eq!(a.asking.token, "");
    assert_eq!(app().question_height(), 0);
    assert!(app().question_lines(40).is_empty());
}

// --- commands ---

#[test]
fn unknown_commands_are_named() {
    let mut a = app();
    assert!(enter(&mut a, "/nope x").is_empty());
    assert_eq!(
        a.status,
        "Unknown command: /nope. Type /new, /resume, /rewind, /model, or /theme."
    );
}

#[test]
fn new_conversations_do_not_take_old_names() {
    let mut a = busy_app();
    assert!(enter(&mut a, "/new one").is_empty());
    assert_eq!(a.status, "`one` already exists — /resume one to open it, or pick another name");
    let out = enter(&mut a, "/new three");
    assert!(matches!(
        out.as_slice(),
        [Effect::Send { input: LoopInput::Interrupt, .. }, Effect::Abort, Effect::Open]
    ));
    assert_eq!(a.conversation, "three");
    enter(&mut a, "/new");
    assert_eq!(a.conversation, "fresh");
}

#[test]
fn conversations_are_resumed() {
    let mut a = app();
    assert!(enter(&mut a, "/resume nope").is_empty());
    assert_eq!(a.status, "no session named `nope` — bare /resume opens the picker");
    assert_eq!(a.conversation, "one");
    assert!(enter(&mut a, "/resume").is_empty());
    assert_eq!(a.screen, Screen::ResumeSelection);
    let out = a.resume(true, &world());
    assert!(matches!(out.as_slice(), [Effect::Spawn { initial: None }]));
    let mut a = app();
    a.resume(false, &world());
    assert_eq!(
        a.status,
        "No saved session to resume. Start a new one with /new or type a task."
    );
    let none = World { sessions: vec![], ..world() };
    let mut a = app();
    let out = a.handle_slash_command("/resume", &none);
    assert!(matches!(out.as_slice(), [Effect::ResumeLast]));
    let out = a.resume_last(false, Some("old"));
    assert!(matches!(out.as_slice(), [Effect::Open, Effect::TryResume]));
    assert_eq!(a.conversation, "old");
    let mut a = idle_app();
    a.handle_slash_command("/resume", &none);
    assert_eq!(a.status, "Agent is already running.");
}

#[test]
fn the_workspace_is_rewound() {
    let mut a = app();
    enter(&mut a, "/rewind abc");
    assert_eq!(a.status, "No active session.");
    let mut s = state(HarnessStatus::Idle, vec![]);
    s.checkpoints = vec![
        Checkpoint { id: "abc1".to_string(), label: "first".to_string() },
        Checkpoint { id: "abc2".to_string(), label: "second".to_string() },
    ];
    a.state = Some(s);
    enter(&mut a, "/rewind");
    assert_eq!(a.status, "2 checkpoint(s). Type /rewind <id> (Tab to pick) to restore.");
    enter(&mut a, "/rewind x");
    assert_eq!(a.status, "No checkpoint matching 'x'.");
    let out = enter(&mut a, "/rewind abc");
    assert!(matches!(
        out.as_slice(),
        [Effect::Rewind { id, label }] if id == "abc2" && label == "second"
    ));
    a.rewound("second", None);
    assert_eq!(a.status, "Rewound workspace to: second");
    a.rewound("second", Some("no"));
    assert_eq!(a.error, Some("rewind failed: no".to_string()));
    let mut a = busy_app();
    enter(&mut a, "/rewind abc");
    assert_eq!(a.status, "Agent is working — stop it (Esc) before rewinding.");
}

#[test]
fn goals_are_set_and_cancelled() {
    let mut a = app();
    enter(&mut a, "/goal");
    assert_eq!(a.status, "Usage: /goal <what to accomplish>   ·   /goal cancel");
    enter(&mut a, "/goal CANCEL");
    assert_eq!(a.status, "No active goal.");
    let out = enter(&mut a, "/goal do all of it");
    assert!(matches!(
        out.as_slice(),
        [
            Effect::Spawn { initial: None },
            Effect::Send { input: LoopInput::SetGoal { text }, receipt: Receipt::Goal }
        ] if text == "do all of it"
    ));
    a.delivered(Receipt::Goal, true);
    assert_eq!(a.status, "Goal set — the agent will drive toward it. /goal cancel to stop.");
    let out = enter(&mut a, "/goal stop");
    assert!(matches!(out.as_slice(), [Effect::Send { input: LoopInput::CancelGoal, .. }]));
    assert_eq!(a.status, "Cancelling the goal…");
}

#[test]
fn histories_are_compacted_on_request() {
    let mut a = app();
    enter(&mut a, "/compact");
    assert_eq!(a.status, "No active session to compact.");
    let mut a = idle_app();
    let out = enter(&mut a, "/compact");
    assert!(matches!(
        out.as_slice(),
        [Effect::Send { input: LoopInput::Compact, receipt: Receipt::Compaction }]
    ));
    let out = a.delivered(Receipt::Compaction, true);
    assert!(matches!(out.as_slice(), [Effect::Stream { text }] if text == "Compacting history…"));
    a.delivered(Receipt::Compaction, false);
    assert_eq!(a.status, "Failed to send compact request to the agent loop.");
}

#[test]
fn approval_by_hand_is_toggled() {
    let mut a = idle_app();
    let out = enter(&mut a, "/mode");
    assert!(matches!(
        out.as_slice(),
        [
            Effect::SetManual { manual: true },
            Effect::Send { input: LoopInput::SetMode { manual: true }, .. }
        ]
    ));
    enter(&mut a, "/mode");
    assert!(!a.manual);
    assert!(!a.is_manual_mode());
}

#[test]
fn palettes_are_previewed() {
    let mut a = app();
    enter(&mut a, "/theme");
    assert_eq!(a.screen, Screen::ThemeSelection);
    assert!(matches!(
        press(&mut a, KeyCode::Up).as_slice(),
        [Effect::ShowTheme { index: 1 }]
    ));
    assert!(matches!(
        press(&mut a, KeyCode::Enter).as_slice(),
        [Effect::ShowTheme { index: 1 }, Effect::PersistTheme]
    ));
    assert_eq!((a.screen, a.status.as_str()), (Screen::Main, "Theme: Paper"));
    enter(&mut a, "/theme");
    press(&mut a, KeyCode::Down);
    assert!(matches!(
        press(&mut a, KeyCode::Esc).as_slice(),
        [Effect::ShowTheme { index: 0 }]
    ));
    assert_eq!(a.screen, Screen::Main);
    assert!(matches!(enter(&mut a, "/theme ink").as_slice(), [Effect::PersistTheme]));
    assert_eq!(a.status, "Theme: ink");
}

// --- the session picker ---

#[test]
fn sessions_are_deleted_with_two_presses() {
    let mut a = app();
    enter(&mut a, "/resume");
    press(&mut a, KeyCode::Down);
    assert!(press(&mut a, KeyCode::Char('d')).is_empty());
    assert_eq!(a.status, "Press d again to delete \"(1m ago) — second\", or Esc/↑↓ to cancel.");
    press(&mut a, KeyCode::Up);
    assert!(press(&mut a, KeyCode::Char('d')).is_empty());
    let out = press(&mut a, KeyCode::Char('d'));
    assert!(matches!(
        out.as_slice(),
        [Effect::DeleteSession { name }, Effect::ListSessions] if name == "one"
    ));
    assert_eq!(a.status, "Session deleted.");
    a.sessions_listed(vec![pair("two", "d")]);
    press(&mut a, KeyCode::Char('d'));
    press(&mut a, KeyCode::Char('d'));
    assert_eq!(a.status, "Session deleted. No saved sessions left.");
    assert_eq!(a.screen, Screen::Main);
}

#[test]
fn sessions_are_renamed() {
    let mut a = app();
    enter(&mut a, "/resume");
    press(&mut a, KeyCode::Char('r'));
    type_text(&mut a, "new namex");
    press(&mut a, KeyCode::Backspace);
    assert_eq!(a.status, "Rename: new name_  (Enter to save · Esc to cancel)");
    let out = press(&mut a, KeyCode::Enter);
    assert!(matches!(
        out.as_slice(),
        [Effect::RenameSession { name, title }, Effect::ListSessions]
            if name == "one" && title == "new name"
    ));
    assert_eq!(a.status, "Renamed to “new name”.");
    press(&mut a, KeyCode::Char('r'));
    press(&mut a, KeyCode::Enter);
    assert_eq!(a.status, "Title cleared.");
    press(&mut a, KeyCode::Char('r'));
    press(&mut a, KeyCode::Esc);
    assert_eq!(a.status, "Rename cancelled.");
    let out = press(&mut a, KeyCode::Enter);
    assert!(matches!(out.as_slice(), [Effect::Open, Effect::TryResume]));
    assert_eq!(a.screen, Screen::Main);
}

// --- profiles and connecting ---

#[test]
fn profiles_are_opened_and_activated() {
    let mut a = app();
    assert!(matches!(enter(&mut a, "/model").as_slice(), [Effect::ListProfiles]));
    a.open_profiles(&vec!["main".to_string(), "other".to_string()], Some("other"));
    assert_eq!((a.screen, a.profile_selected), (Screen::Profiles, 1));
    press(&mut a, KeyCode::Down);
    assert_eq!(a.profile_selected, 2);
    press(&mut a, KeyCode::Down);
    assert_eq!(a.profile_selected, 0);
    let out = press(&mut a, KeyCode::Enter);
    assert!(matches!(out.as_slice(), [Effect::Activate { name }] if name == "main"));
    a.profile_activated("main", None, false, &world());
    assert_eq!(a.status, "profile `main` not found (or already active)");
    let out = a.profile_activated("main", Some(("openai", "m1")), false, &world());
    assert!(matches!(out.as_slice(), [Effect::RefreshModel]));
    assert_eq!((a.screen, a.status.as_str()), (Screen::Main, "✓ openai · m1"));
    a.profile_activated("main", Some(("openai", "m1")), true, &world());
    assert_eq!(
        a.status,
        "✓ global default · openai · m1 (this chat keeps its own model)"
    );
    let mut a = busy_app();
    enter(&mut a, "/model");
    assert!(a.queued.is_empty());
    assert_eq!(a.status, "Agent is working. Stop it (Esc) before changing the model.");
}

#[test]
fn a_chat_takes_its_own_profile() {
    let mut a = idle_app();
    a.open_profiles(&vec!["main".to_string(), "other".to_string()], None);
    press(&mut a, KeyCode::Down);
    let out = press(&mut a, KeyCode::Enter);
    assert!(matches!(
        out.as_slice(),
        [
            Effect::Override { name },
            Effect::Abort,
            Effect::Spawn { initial: None },
            Effect::RefreshModel
        ] if name == "other"
    ));
    assert_eq!(a.status, "✓ this chat · gemini · m2 · resumed");
}

#[test]
fn the_last_profile_is_kept() {
    let mut a = app();
    a.open_profiles(&vec!["main".to_string(), "other".to_string()], None);
    let out = press(&mut a, KeyCode::Char('d'));
    assert!(matches!(out.as_slice(), [Effect::RemoveProfile { name }] if name == "main"));
    assert_eq!(a.status, "Removed profile “main”");
    a.profile_selected = 5;
    a.profile_removed(1);
    assert_eq!(a.profile_selected, 0);
    let mut w = world();
    w.profiles.truncate(1);
    a.handle_key(plain(KeyCode::Char('d')), &w);
    assert_eq!(a.status, "Can't delete the only profile.");
}

#[test]
fn a_profile_is_edited_and_saved() {
    let mut a = app();
    a.open_profiles(&vec!["main".to_string(), "other".to_string()], None);
    let out = press(&mut a, KeyCode::Char('e'));
    assert!(matches!(out.as_slice(), [Effect::KeepConfig]));
    assert!(a.connecting && a.return_to_profiles);
    assert_eq!(a.form.model, "m1");
    // A chord types nothing.
    press(&mut a, KeyCode::Tab);
    assert_eq!(a.form.focus, SettingsField::ApiKey);
    a.handle_key(ctrl('k'), &world());
    assert_eq!(a.form.api_key, "k");
    type_text(&mut a, "2");
    assert_eq!(a.form.api_key, "k2");
    let out = press(&mut a, KeyCode::Enter);
    match out.as_slice() {
        [Effect::SaveProfile { editing, setup, purpose: Purpose::Connect }] => {
            assert_eq!(editing, &Some("main".to_string()));
            assert_eq!(setup.api_key, "k2");
            assert_eq!(setup.context_window, 100_000);
        }
        _ => panic!("the profile is saved"),
    }
    let out = a.profile_saved("main", &Purpose::Connect, Ok(("openai", "m1")), &world());
    assert!(matches!(out.first(), Some(Effect::ForgetConfig)));
    assert!(!a.connecting);
    assert_eq!(a.status, "✓ Connected — openai · m1");
    a.profile_saved("main", &Purpose::Connect, Err("disk full"), &world());
    assert_eq!(a.error, Some("disk full".to_string()));
}

#[test]
fn giving_up_restores_the_configuration() {
    let mut a = app();
    a.open_profiles(&vec!["main".to_string()], None);
    press(&mut a, KeyCode::Char('a'));
    let out = press(&mut a, KeyCode::Esc);
    assert!(matches!(out.as_slice(), [Effect::RestoreConfig, Effect::ListProfiles]));
    assert!(!a.connecting && !a.return_to_profiles);
}

#[test]
fn an_account_signs_in() {
    let mut a = app();
    a.open_profiles(&vec!["main".to_string()], None);
    press(&mut a, KeyCode::Char('a'));
    press(&mut a, KeyCode::Right);
    assert_eq!(a.form.provider, "chatgpt");
    let out = a.handle_key(ctrl('d'), &world());
    assert!(matches!(out.as_slice(), [Effect::SignIn { device: true }]));
    assert_eq!(a.status, "Starting device-code sign-in…");
    let code = DeviceCode {
        user_code: "AB".to_string(),
        verification_url: "https://v".to_string(),
    };
    let out = a.device_code_given(Outcome::Done(code));
    assert!(matches!(
        out.as_slice(),
        [Effect::Copy { text }, Effect::AwaitDevice] if text == "AB"
    ));
    assert_eq!(
        a.status,
        "Code AB copied — open https://v and paste it. Waiting for sign-in…"
    );
    assert!(matches!(
        press(&mut a, KeyCode::Char('u')).as_slice(),
        [Effect::Copy { text }] if text == "https://v"
    ));
    press(&mut a, KeyCode::Enter);
    assert_eq!(a.status, "Sign-in already in progress — finish it in your browser.");
    let out = a.sign_in_over(Outcome::Done(Some("me@x".to_string())));
    assert!(matches!(
        out.as_slice(),
        [Effect::SaveProfile { purpose: Purpose::Account { email: Some(e) }, .. }] if e == "me@x"
    ));
    a.profile_saved(
        "chatgpt",
        &Purpose::Account { email: Some("me@x".to_string()) },
        Ok(("chatgpt", "gpt-5.1-codex")),
        &world(),
    );
    assert_eq!(a.status, "✓ Signed in to ChatGPT as me@x — gpt-5.1-codex");
    a.sign_in_over(Outcome::Failed("no".to_string()));
    assert_eq!(a.status, "ChatGPT sign-in failed: no");
    a.sign_in_over(Outcome::Crashed("no".to_string()));
    assert_eq!(a.status, "ChatGPT sign-in task crashed: no");
    a.device_code_given(Outcome::Failed("no".to_string()));
    assert_eq!(a.status, "device-code start failed: no");
    let out = a.logged_out("chatgpt", None);
    assert!(matches!(out.as_slice(), [Effect::ForgetKey]));
    assert_eq!(a.status, "Signed out of ChatGPT.");
    assert!(a.logged_out("openai", Some("no")).is_empty());
    assert_eq!(a.error, Some("ChatGPT logout failed: no".to_string()));
}

// --- time ---

#[test]
fn state_is_read_when_it_changes() {
    let mut a = app();
    a.pending = true;
    let sight = a.look(Glance::Changed(5));
    assert!(sight.read && sight.committed);
    assert!(!a.pending);
    a.take_state(StateRead::Readable(state(HarnessStatus::Idle, vec![])));
    assert!(a.state.is_some());
    let sight = a.look(Glance::Changed(5));
    assert!(!sight.read && !sight.committed);
    assert!(a.look(Glance::Undated).read);
    a.take_state(StateRead::Unreadable);
    assert!(a.state.is_none());
    assert_eq!(
        a.status,
        "This session's saved state is unreadable — start a new task to replace it."
    );
    a.take_state(StateRead::Failed("no".to_string()));
    assert_eq!(a.error, Some("state read error: no".to_string()));
    assert!(!a.look(Glance::Missing).read);
    assert_eq!(a.stamp, None);
}

#[test]
fn only_new_compactions_are_noticed() {
    let mut a = app();
    a.state = Some(state(HarnessStatus::Idle, vec![compacted()]));
    assert!(!a.notice_compactions());
    a.state = Some(state(HarnessStatus::Idle, vec![compacted(), says("x"), compacted()]));
    assert!(a.notice_compactions());
    assert!(!a.notice_compactions());
}

#[test]
fn frames_are_counted() {
    let mut a = app();
    let every: Vec<bool> = (0..16).map(|_| a.next_frame()).collect();
    assert_eq!(every.iter().filter(|b| **b).count(), 2);
    assert!(every[7] && every[15]);
    a.frame = usize::MAX;
    assert!(a.next_frame());
    assert_eq!(a.frame, 0);
}

#[test]
fn a_loop_comes_to_an_end() {
    let mut a = idle_app();
    a.loop_ended(Outcome::Failed("broke".to_string()));
    assert_eq!((a.status.as_str(), a.error.as_deref()), ("Run failed.", Some("broke")));
    assert!(!a.held && !a.linked);
    a.loop_ended(Outcome::Crashed("panic".to_string()));
    assert_eq!((a.status.as_str(), a.error.as_deref()), ("Run task crashed.", Some("panic")));
    a.loop_ended(Outcome::Done(()));
    assert_eq!(a.status, "");
}

#[test]
fn files_are_attached() {
    assert_eq!(scratch_dir("/w", true), "/w/.snippet/scratch/images");
    assert_eq!(scratch_dir("/w", false), "/w/.snippet/scratch/files");
    assert_eq!(attachment_name("/a/b.png"), "b.png");
    assert_eq!(attachment_name("/"), "file");
    assert_eq!(attachment_path("/w", "/a/b.txt", "id"), "/w/.snippet/scratch/files/id-b.txt");
    let mut a = app();
    a.attach_dropped("/a/b.png", Attach::Copied { path: "/s/b.png".to_string() });
    assert_eq!(a.status, "📎 attached b.png");
    assert_eq!(a.prompt.attachment_count(), 1);
    a.attach_dropped("/a/b.png", Attach::NotCopied { error: "no".to_string() });
    assert_eq!(a.status, "couldn't attach b.png: no");
    a.attach_dropped("/a/b.png", Attach::NoPlace { error: "no".to_string() });
    assert_eq!(a.status, "couldn't attach: no");
    a.attach_image(Screenshot::Taken { path: "/s/x.png".to_string() });
    assert_eq!(a.status, "📎 attached screenshot");
    a.attach_image(Screenshot::NoPlace { error: "no".to_string() });
    assert_eq!(a.status, "couldn't create image temp dir: no");
    a.attach_image(Screenshot::Absent { needs_tool: false });
    assert_eq!(a.status, "No image on the clipboard — copy a screenshot first.");
    press(&mut a, KeyCode::Backspace);
    assert_eq!(a.status, "attachment removed · 📎 1 left");
    a.paste("text");
    assert_eq!(a.prompt.input(), "text");
}

// --- panels ---

#[test]
fn an_approval_is_shown() {
    let p = approval_panel("bash", "rm x", 1, 2);
    assert_eq!(p.title.text, " approve · bash   1/2 ");
    assert_eq!(
        all_shown(&p.body),
        vec![
            "  $ rm x",
            "",
            "  ✓ y approve   ⏩ a approve all   ✗ n deny   esc stop",
        ]
    );
    let p = approval_panel("edit_file", " ", 1, 1);
    assert_eq!(p.title.text, " approve · edit_file ");
    assert_eq!(shown(&p.body[0]), "  (no preview)");
    assert_eq!(shown(&p.body[2]), "  ✓ y approve   ✗ n deny   esc stop");
}

#[test]
fn a_compaction_is_animated() {
    assert_eq!(shown(&compaction_bar(0)), " ✦ compacting context   ▂▄▆▆▄▂ ▂▄▆▆▄▂ ▂");
    assert_eq!(shown(&compaction_bar(2)), " ✦ compacting context  ▁▃▅▇▅▃▁▁▃▅▇▅▃▁▁▃");
}

#[test]
fn errors_hide_the_status() {
    assert_eq!(shown(&status_message_line("fine", None)), "fine");
    assert_eq!(shown(&status_message_line("fine", Some("bad"))), "error: bad");
}

#[test]
fn the_header_is_filled_with_a_rule() {
    assert_eq!(
        shown(&header_line("m1", None, None, 30)),
        format!(" snipett · m1 {}", "─".repeat(15))
    );
    let l = shown(&header_line("m1", Some(GoalStatus::Paused), Some("9.0"), 80));
    assert!(l.starts_with(" snipett · m1 · ◇ goal · paused ─"));
    assert!(l.ends_with("─ ⬆ updated to v9.0 — restart to apply"));
    assert_eq!(shown(&header_line("m1", Some(GoalStatus::Ended), None, 3)), " snipett · m1 ");
}

#[test]
fn the_footer_counts() {
    assert_eq!(shown(&footer_line(&None, &vec![])), "↑0 ↓0 · ctx 0 ");
    let mut s = state(HarnessStatus::Idle, vec![]);
    s.prompt_tokens = 12_000;
    s.completion_tokens = 900;
    s.cache_read_tokens = 3_000_000;
    s.last_prompt_tokens = 128_000;
    s.watching = 2;
    s.lanes = vec![
        lane("a", LaneStatus::Running, ""),
        lane("b", LaneStatus::Completed, ""),
    ];
    assert_eq!(
        shown(&footer_line(&Some(s), &vec![(300, "75".to_string()), (10080, "9".to_string())])),
        "◷ 5h 75% · wk 9% left   ↑12k ↓900  ◆1  ◉2 ↻3M · ctx 128k "
    );
    assert_eq!(shown(&place_line("~/w", true)), " ~/w  ⚠ manual");
    assert_eq!(shown(&place_line("~/w", false)), " ~/w");
}

#[test]
fn the_clipboard_is_reached_by_an_escape() {
    assert_eq!(copy_sequence("hello"), "\u{1b}]52;c;aGVsbG8=\u{7}");
    assert_eq!(copy_sequence(""), "\u{1b}]52;c;\u{7}");
    assert_eq!(copy_sequence("é?>"), "\u{1b}]52;c;w6k/Pg==\u{7}");
    assert_eq!(clipboard_sequence("QQ=="), "\u{1b}]52;c;QQ==\u{7}");
}

#[test]
fn the_selection_stays_in_view() {
    let list: Vec<(String, String)> = (0..10).map(|i| pair(&format!("s{i}"), "d")).collect();
    let lines = all_shown(&session_lines(&list, 6, 8));
    assert_eq!(lines[0], "  ↑ 3 more");
    assert_eq!(lines.len(), 6);
    assert_eq!(lines[4], format!("▍ {:<38} d", "s6"));
    assert_eq!(lines[5], "  ↓ 3 more");
    assert_eq!(
        all_shown(&session_lines(&vec![], 0, 8)),
        vec!["  No saved conversations found."]
    );
    let presets = vec![Preset { label: "Ink".to_string(), theme: theme() }];
    let lines = all_shown(&preset_lines(&presets, 0, 8));
    assert_eq!(lines, vec!["".to_string(), format!("▍ {:<18}● ● ● ● ● ● ", "Ink")]);
}

#[test]
fn profiles_are_cards() {
    let list = world().profiles;
    assert_eq!(
        all_shown(&profile_lines(&list, 1, "main", false, 20)),
        vec![
            "  main   ● active",
            "     m1 · api key set",
            "",
            "▍ other",
            "     m2 · no api key",
            "",
            "  + Add a model",
        ]
    );
    let lines = all_shown(&profile_lines(&list, 2, "", false, 5));
    assert_eq!(lines[0], "  ↑ 1 more");
    assert_eq!(lines[lines.len() - 1], "▍ + Add a model");
    assert_eq!(profile_status(&setup("chatgpt", "", "m"), true), "✓ signed in");
    assert_eq!(
        profile_status(&setup("chatgpt", "", "m"), false),
        "not signed in — Enter to sign in"
    );
    assert_eq!(profile_status(&setup("openai-compatible", "", "m"), false), "host");
    let mut bare = setup("openai-compatible", "", "m");
    bare.base_url = "https:///x".to_string();
    assert_eq!(profile_status(&bare, false), "custom endpoint");
    assert_eq!(shown(&profiles_header(0)), " snippet  ·  models");
    assert_eq!(shown(&profiles_header(2)), " snippet  ·  models  ·  2 active lanes");
    assert_eq!(form_popup(200, 60), (96, 26, 52, 17));
    assert_eq!(form_popup(40, 10), (64, 16, 0, 0));
}

#[test]
fn the_form_is_shown_while_it_is_open() {
    let mut a = app();
    assert!(login_lines(&a, false, 60).is_empty());
    a.open_login(&setup("openai", "abcd", "m1"));
    let shown_with = all_shown(&login_lines(&a, false, 60));
    assert!(!shown_with.is_empty());
    a.open_login(&setup("openai", "wxyz", "m1"));
    assert_eq!(all_shown(&login_lines(&a, false, 60)), shown_with);
    a.close_login(false);
    assert!(login_lines(&a, false, 60).is_empty());
}

#[test]
fn a_turn_to_a_provider_presets_its_model() {
    let mut a = app();
    a.open_login(&setup("openai", "k", "m1"));
    a.form.adjust(true);
    a.form.adjust(true);
    assert_eq!((a.form.provider.as_str(), a.form.model.as_str()), ("anthropic", "large-2"));
    assert_eq!(a.form.candidate_list(), vec!["large-2", "large-1", "small-1"]);
    a.form.adjust(true);
    a.form.adjust(true);
    assert_eq!(
        (a.form.provider.as_str(), a.form.model.as_str()),
        ("openrouter", "anthropic/large-2")
    );
}

#[test]
fn lanes_show_how_long_they_run() {
    // 2026-01-02T03:04:05Z
    let now = 1_767_323_045;
    let lanes = vec![
        lane("quick", LaneStatus::Running, "2026-01-02T03:03:40Z"),
        lane("done", LaneStatus::Completed, "2026-01-02T03:03:40Z"),
        lane("slow", LaneStatus::Running, "2026-01-02T04:00:05+01:00"),
        lane("ahead", LaneStatus::Running, "2026-01-02T05:00:00Z"),
        lane("odd", LaneStatus::Running, "yesterday"),
        lane("more", LaneStatus::Running, "2026-01-02T03:03:40Z"),
    ];
    assert_eq!(
        all_shown(&lane_lines(&lanes, now, 0)),
        vec![
            " │ ◆ quick — running 25s",
            " │ ◆ slow — running 4m",
            " │ ◆ ahead — running 0s",
            " │ ◆ odd — running ",
        ]
    );
    // Parts of a second are dropped, before the start as well.
    let lanes = vec![
        lane("part", LaneStatus::Running, "2026-01-02T03:04:02.750Z"),
        lane("exact", LaneStatus::Running, "2026-01-02T03:04:02.500Z"),
        lane("minute", LaneStatus::Running, "2026-01-02T03:03:05.500Z"),
        lane("leap", LaneStatus::Running, "2025-12-31T23:59:60Z"),
    ];
    assert_eq!(
        all_shown(&lane_lines(&lanes, now, 500_000_000)),
        vec![
            " │ ◆ part — running 2s",
            " │ ◆ exact — running 3s",
            " │ ◆ minute — running 1m",
            " │ ◆ leap — running 1624m",
        ]
    );
    // An instant that is out of range is as good as none.
    assert_eq!(all_shown(&lane_lines(&lanes, i64::MAX, 0))[0], " │ ◆ part — running ");
    assert_eq!(all_shown(&lane_lines(&lanes, now, 2_000_000_000))[0], " │ ◆ part — running ");
    assert_eq!(
        shown(&lane_line(&"x".repeat(49), Some(60))),
        format!(" │ ◆ {}… — running 1m", "x".repeat(48))
    );
}

#[test]
fn held_messages_are_listed() {
    let texts = |n: usize| (0..n).map(|i| format!("m{i}\nmore")).collect::<Vec<_>>();
    assert!(queued_lines(&vec![]).is_empty());
    assert_eq!(
        all_shown(&queued_lines(&vec!["x".repeat(73)])),
        vec![
            " │ queued — sends when the run finishes · Ctrl+X to cancel".to_string(),
            format!(" │ {}…", "x".repeat(72)),
        ]
    );
    let lines = all_shown(&queued_lines(&texts(5)));
    assert_eq!(lines[0], " │ queued (5) — send together when the run finishes · Ctrl+X to cancel");
    assert_eq!(lines[1], " │ m0…");
    assert_eq!(lines[4], " │ … +2 more");
}

#[test]
fn the_input_box_grows() {
    let mut a = app();
    assert_eq!(a.input_height(40), 3);
    let b = a.input_box(40, 3, 0, 0);
    assert_eq!(all_shown(&b.lines), vec![" ❯ Type a prompt or a slash command…"]);
    a.prompt.set("abcdef".to_string());
    assert_eq!(a.input_height(6), 4);
    let b = a.input_box(6, 4, 0, 0);
    assert_eq!(all_shown(&b.lines), vec![" ❯ abc", "   def█"]);
    assert_eq!(b.scroll, 0);
    a.prompt.set("x\n".repeat(20));
    assert_eq!(a.input_height(40), 10);
    let b = a.input_box(40, 10, 0, 0);
    assert_eq!(b.scroll, 13);
    a.prompt.move_home();
    assert_eq!(shown(&a.input_box(40, 10, 0, 0).lines[0]), " ❯ x");
    a.prompt.attach(Attachment {
        image: false,
        path: "/p".to_string(),
        name: "p".to_string(),
    });
    a.queued = vec!["q".to_string()];
    assert_eq!(a.input_height(40), 13);
    assert!(attachment_line(0).is_none());
    assert_eq!(
        attachment_line(2).map(|l| shown(&l)),
        Some("   📎 2 attachments  ·  ⌫ removes".to_string())
    );
}

#[test]
fn the_history_follows_its_end() {
    let mut a = app();
    let h = a.history(&world(), "", "", false, 100, 40);
    assert!(h.max_scroll.is_none());
    let events = (0..30).map(|i| says(&format!("line {i}"))).collect();
    a.state = Some(state(HarnessStatus::Idle, events));
    let h = a.history(&world(), "", "", false, 100, 10);
    assert_eq!(h.max_scroll, Some(20));
    assert_eq!(h.lines.len(), 10);
    assert_eq!(shown(&h.lines[9]), "  line 29");
    a.set_max_scroll(20);
    a.scroll_up(100);
    let h = a.history(&world(), "", "", false, 100, 10);
    assert_eq!(shown(&h.lines[0]), "✦ line 0");
}
