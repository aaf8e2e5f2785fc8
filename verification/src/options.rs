//! How the screen is started, and what is printed when it closes.
use crate::app::{App, Desk, Picker, Picking, Screen, World, spawned, switched};
use crate::asking::{Answering, nothing_asked};
use crate::effects::{Deed, Effect, deeds, no_effects};
use crate::figures::{fmt_si, si};
use crate::form::{Form, ModelConfig, Setup, entry_in_use};
use crate::paths::{is_same_path, join_path, path_joined, same_path};
use crate::prompt::{Draft, Prompt};
use crate::text::{
    blank, cat2, cat3, cat5, is_blank, lines, no_texts, opt_str, opt_text, push_text, same, texts,
};
use crate::theme::set_theme_by_name;
use vstd::prelude::*;

verus! {

/// The configuration, as far as the screen reads it.
pub struct SnippetConfig {
    pub workspace: String,
    pub state_path: String,
    pub theme: Option<String>,
    pub resume_on_start: bool,
    pub manual_approval: bool,
    pub model: ModelConfig,
}

/// How the screen is started.
pub struct TuiOptions {
    pub config_path: String,
    pub config: SnippetConfig,
    /// The conversation to go on with.
    pub resume: Option<String>,
    /// The models of `anthropic` to preset and to suggest, the preset one first.
    pub anthropic_models: Vec<String>,
}

/// How the screen is started, as values.
pub ghost struct Start {
    pub config_path: Seq<char>,
    pub workspace: Seq<char>,
    pub state_path: Seq<char>,
    pub theme: Option<Seq<char>>,
    pub resume: Option<Seq<char>>,
    pub resume_on_start: bool,
    pub manual_approval: bool,
    pub model: Setup,
    pub anthropic_models: Seq<Seq<char>>,
}

impl View for TuiOptions {
    type V = Start;

    open spec fn view(&self) -> Start {
        Start {
            config_path: self.config_path@,
            workspace: self.config.workspace@,
            state_path: self.config.state_path@,
            theme: opt_text(self.config.theme),
            resume: opt_text(self.resume),
            resume_on_start: self.config.resume_on_start,
            manual_approval: self.config.manual_approval,
            model: self.config.model@,
            anthropic_models: texts(self.anthropic_models@),
        }
    }
}

/// The screen before any conversation is opened.
pub open spec fn blank_desk(o: Start) -> Desk {
    Desk {
        draft: Draft {
            input: Seq::empty(),
            cursor: 0,
            history: Seq::empty(),
            recalled: None,
            kept: Seq::empty(),
            pasted: Seq::empty(),
            attached: Seq::empty(),
        },
        status: if o.resume_on_start {
            "Resuming the saved run..."@
        } else {
            "Type a task and press Enter. Type /new for a new session, or /resume to resume the last session."@
        },
        error: None,
        state: None,
        stamp: None,
        held: false,
        linked: false,
        scroll: 0,
        max_scroll: 0,
        frame: 0,
        quit: false,
        conversation: "default"@,
        suggestion: 0,
        screen: Screen::Main,
        picking: Picking { selected: 0, deleting: false, renaming: None, list: None },
        theme_selected: 0,
        theme_original: 0,
        profile_selected: 0,
        editing: None,
        return_to_profiles: false,
        seen_compactions: usize::MAX as nat,
        queued: Seq::empty(),
        was_busy: false,
        pending: false,
        manual: o.manual_approval,
        entry: entry_in_use(o.model, o.anthropic_models),
        connecting: false,
        device: None,
        signing_in: false,
        inquiry: nothing_asked(),
    }
}

/// The conversation that is opened first: the one that was asked for, or the last
/// one where that is configured, or a new one.
pub open spec fn first_conversation(o: Start, last: Option<Seq<char>>, fresh: Seq<char>) -> Option<
    Seq<char>,
> {
    match o.resume {
        Some(id) => Some(id),
        None => if o.resume_on_start {
            last
        } else {
            Some(fresh)
        },
    }
}

/// No model can be used: there is no key, nor an account that is signed in.
pub open spec fn unconnected(model: Setup, signed_in: bool) -> bool {
    blank(model.api_key) && !(model.provider == "chatgpt"@ && signed_in)
}

/// The screen as it is started.
pub open spec fn started(o: Start, last: Option<Seq<char>>, fresh: Seq<char>, signed_in: bool) -> (
    Desk,
    Seq<Deed>,
) {
    let (d, out) = match first_conversation(o, last, fresh) {
        Some(name) => switched(blank_desk(o), name),
        None => (blank_desk(o), Seq::empty()),
    };
    if unconnected(o.model, signed_in) {
        (
            Desk { status: "No model connected yet — type /model to connect one."@, ..d },
            out,
        )
    } else {
        (d, out)
    }
}

fn blank_app(o: &TuiOptions) -> (r: App)
    ensures
        r@ == blank_desk(o@),
{
    let status = if o.config.resume_on_start {
        "Resuming the saved run..."
    } else {
        "Type a task and press Enter. Type /new for a new session, or /resume to resume the last session."
    };
    App {
        prompt: Prompt::new(),
        status: status.to_owned(),
        error: None,
        state: None,
        stamp: None,
        held: false,
        linked: false,
        scroll: 0,
        max_scroll: 0,
        frame: 0,
        quit: false,
        conversation: "default".to_string(),
        suggestion: 0,
        screen: Screen::Main,
        picker: Picker { selected: 0, deleting: false, renaming: None, list: None },
        theme_selected: 0,
        theme_original: 0,
        profile_selected: 0,
        editing: None,
        return_to_profiles: false,
        seen_compactions: usize::MAX,
        queued: no_texts(),
        was_busy: false,
        pending: false,
        manual: o.config.manual_approval,
        form: Form::in_use(&o.config.model, &o.anthropic_models),
        connecting: false,
        device: None,
        signing_in: false,
        asking: Answering::new(),
    }
}

impl App {
    /// The screen as it is started. `last` is the conversation that was active
    /// last, and `fresh` a name that no conversation has.
    pub fn new(o: &TuiOptions, last: Option<&str>, fresh: &str, signed_in: bool) -> (r: (
        App,
        Vec<Effect>,
    ))
        ensures
            (r.0@, deeds(r.1@)) == started(o@, opt_str(last), fresh@, signed_in),
    {
        match &o.config.theme {
            Some(name) => {
                set_theme_by_name(name.as_str());
            },
            None => {},
        }
        let mut app = blank_app(o);
        let first: Option<&str> = match &o.resume {
            Some(id) => Some(id.as_str()),
            None => if o.config.resume_on_start {
                last
            } else {
                Some(fresh)
            },
        };
        let out = match first {
            Some(name) => app.switch_conversation(name),
            None => no_effects(),
        };
        let ready = same(o.config.model.provider.as_str(), "chatgpt") && signed_in;
        if is_blank(o.config.model.api_key.as_str()) && !ready {
            app.say("No model connected yet — type /model to connect one.");
        }
        (app, out)
    }

    /// Goes on with the conversation at once where that was asked for.
    pub fn begin(&mut self, o: &TuiOptions, w: &World) -> (r: Vec<Effect>)
        ensures
            (final(self)@, deeds(r@)) == if o@.resume_on_start || o@.resume is Some {
                spawned(old(self)@, w@, None)
            } else {
                (old(self)@, Seq::empty())
            },
    {
        if o.config.resume_on_start || o.resume.is_some() {
            self.spawn_loop(None, w)
        } else {
            no_effects()
        }
    }
}

// ---------------------------------------------------------------------------
// Closing
// ---------------------------------------------------------------------------

/// What is known when the screen closes.
pub struct ExitInfo {
    pub conversation: String,
    pub config_path: String,
    pub prompt_tokens: u64,
    pub completion_tokens: u64,
    pub cache_read_tokens: u64,
    pub total_tokens: u64,
}

/// The file of the configuration that needs not be named.
pub open spec fn default_config(home: Option<Seq<char>>) -> Seq<char> {
    match home {
        Some(h) => path_joined(h, ".snippet/config.toml"@),
        None => ""@,
    }
}

/// How much was used.
pub open spec fn usage_line(e: ExitInfo) -> Seq<char> {
    "↑"@ + si(e.prompt_tokens as nat) + " in · ↓"@ + si(e.completion_tokens as nat) + " out · ↻"@
        + si(e.cache_read_tokens as nat) + " cached · "@ + si(e.total_tokens as nat) + " total"@
}

/// How to come back to the conversation.
pub open spec fn return_line(e: ExitInfo, home: Option<Seq<char>>) -> Seq<char> {
    "snippet --resume "@ + e.conversation@ + (if same_path(
        e.config_path@,
        default_config(home),
    ) {
        ""@
    } else {
        " --config "@ + e.config_path@
    })
}

/// What is printed when the screen closes.
pub open spec fn parting(e: ExitInfo, home: Option<Seq<char>>) -> Seq<Seq<char>> {
    if e.conversation@.len() == 0 {
        Seq::empty()
    } else if e.total_tokens > 0 {
        seq![usage_line(e), return_line(e, home)]
    } else {
        seq![return_line(e, home)]
    }
}

impl ExitInfo {
    /// What is known now.
    pub fn of(app: &App, config_path: &str) -> (r: ExitInfo)
        ensures
            r.conversation@ == app@.conversation,
            r.config_path@ == config_path@,
            app@.state matches Some(c) ==> {
                &&& r.prompt_tokens == c.prompt_tokens
                &&& r.completion_tokens == c.completion_tokens
                &&& r.cache_read_tokens == c.cache_read_tokens
                &&& r.total_tokens == c.total_tokens
            },
            app@.state is None ==> {
                &&& r.prompt_tokens == 0
                &&& r.completion_tokens == 0
                &&& r.cache_read_tokens == 0
                &&& r.total_tokens == 0
            },
    {
        let (a, b, c, d): (u64, u64, u64, u64) = match &app.state {
            Some(s) => (
                s.prompt_tokens,
                s.completion_tokens,
                s.cache_read_tokens,
                s.total_tokens,
            ),
            None => (0, 0, 0, 0),
        };
        ExitInfo {
            conversation: app.conversation.clone(),
            config_path: config_path.to_owned(),
            prompt_tokens: a,
            completion_tokens: b,
            cache_read_tokens: c,
            total_tokens: d,
        }
    }

    /// The lines that are printed when the screen closes.
    pub fn lines(&self, home: Option<&str>) -> (r: Vec<String>)
        ensures
            texts(r@) == parting(*self, opt_str(home)),
    {
        let mut out = no_texts();
        if self.conversation.as_str().is_empty() {
            return out;
        }
        if self.total_tokens > 0 {
            push_text(&mut out, self.usage());
        }
        let default = match home {
            Some(h) => join_path(h, ".snippet/config.toml"),
            None => "".to_string(),
        };
        let flag = if is_same_path(self.config_path.as_str(), default.as_str()) {
            "".to_string()
        } else {
            cat2(" --config ", self.config_path.as_str())
        };
        push_text(
            &mut out,
            cat3("snippet --resume ", self.conversation.as_str(), flag.as_str()),
        );
        assert(texts(out@) =~= parting(*self, opt_str(home)));
        out
    }

    fn usage(&self) -> (r: String)
        ensures
            r@ == usage_line(*self),
    {
        let a = fmt_si(self.prompt_tokens);
        let b = fmt_si(self.completion_tokens);
        let c = fmt_si(self.cache_read_tokens);
        let d = fmt_si(self.total_tokens);
        let left = cat5("↑", a.as_str(), " in · ↓", b.as_str(), " out · ↻");
        let r = cat5(left.as_str(), c.as_str(), " cached · ", d.as_str(), " total");
        assert(r@ =~= usage_line(*self));
        r
    }
}

} // verus!
