//! Connecting a model: the keys of the form, signing in, and saving.
use crate::app::{App, Around, Desk, World, failing, restarted, resumed_note, saying};
use crate::effects::{
    Deed, Effect, Intent, Purpose, append_effects, deeds, no_effects, one_effect, push_effect,
};
use crate::form::{
    Connect, Entry, Form, ModelConfig, Setup, adjusted, connecting, copy_opt, entry_in_use,
    fetching, field_shortened, focus_moved, focused_for, setup_of, signed_in_entry, typed,
    wants_models,
};
use crate::keys::{Key, KeyCode};
use crate::login::DeviceCode;
use crate::models::{context_defaults, provider_context_defaults};
use crate::prompt::cleared;
use crate::text::{cat2, cat3, cat5, opt_str, opt_text, same};
use vstd::prelude::*;

verus! {

/// The form is closed. The configuration is restored, or what was kept of it is
/// forgotten. Where the form was opened from the profiles, these come back.
pub open spec fn closed(d: Desk, restore: bool) -> (Desk, Seq<Deed>) {
    let first = if restore {
        Deed::RestoreConfig
    } else {
        Deed::ForgetConfig
    };
    if d.return_to_profiles {
        (
            Desk { connecting: false, return_to_profiles: false, editing: None, ..d },
            seq![first, Deed::ListProfiles],
        )
    } else {
        (Desk { connecting: false, ..d }, seq![first])
    }
}

/// An account is in place: the form is filled in for it and saved.
pub open spec fn account_ready(d: Desk, email: Option<Seq<char>>) -> (Desk, Seq<Deed>) {
    let entry = signed_in_entry(d.entry);
    let (window, pct) = context_defaults(entry.provider);
    (
        Desk { entry, device: None, ..d },
        seq![
            Deed::SaveProfile {
                editing: d.editing,
                setup: setup_of(entry, window, pct),
                purpose: Intent::Account { email },
            },
        ],
    )
}

pub open spec fn already_note(device: bool) -> Seq<char> {
    if device {
        "Sign-in already in progress — finish the device-code flow first."@
    } else {
        "Sign-in already in progress — finish it in your browser."@
    }
}

/// Signing in begins, unless it goes on already or the account is in place.
pub open spec fn signing(d: Desk, device: bool, w: Around) -> (Desk, Seq<Deed>) {
    if d.signing_in {
        saying(d, already_note(device))
    } else if w.signed_in {
        account_ready(d, None)
    } else if device {
        (
            Desk { device: None, status: "Starting device-code sign-in…"@, ..d },
            seq![Deed::SignIn { device: true }],
        )
    } else {
        (
            Desk {
                device: None,
                signing_in: true,
                status: "Opening browser — finish signing in to ChatGPT…"@,
                ..d
            },
            seq![Deed::SignIn { device: false }],
        )
    }
}

/// What is entered is saved, or the first thing that is missing is asked for.
pub open spec fn connected(d: Desk, w: Around) -> (Desk, Seq<Deed>) {
    let c = connecting(d.entry);
    let e = Desk { entry: focused_for(d.entry, c), ..d };
    match c {
        Connect::SignIn => signing(e, false, w),
        Connect::NeedKey => saying(e, "An API key is required to connect."@),
        Connect::NeedModel => saying(e, "Pick or type a model to connect."@),
        Connect::Save { context_window, compact_at_pct } => (
            e,
            seq![
                Deed::SaveProfile {
                    editing: d.editing,
                    setup: setup_of(d.entry, context_window, compact_at_pct),
                    purpose: Intent::Connect,
                },
            ],
        ),
    }
}

/// What is said once a configuration is saved.
pub open spec fn saved_note(
    purpose: Intent,
    provider: Seq<char>,
    model: Seq<char>,
    resumed: Seq<char>,
) -> Seq<char> {
    match purpose {
        Intent::Connect => "✓ Connected — "@ + provider + " · "@ + model + resumed,
        Intent::Account { email } => {
            let who = match email {
                Some(e) => " as "@ + e,
                None => ""@,
            };
            "✓ Signed in to ChatGPT"@ + who + " — "@ + model + resumed
        },
    }
}

/// The form closes and the loop takes up the configuration.
pub open spec fn finished(d: Desk, status: Seq<char>, w: Around) -> (Desk, Seq<Deed>) {
    let (shut, first) = closed(d, false);
    let (up, more) = restarted(shut, w);
    (Desk { status, ..up }, first + more)
}

/// A configuration was saved under a name: the form closes and the loop takes it
/// up. Or it could not be saved.
pub open spec fn saved(
    d: Desk,
    key: Seq<char>,
    purpose: Intent,
    outcome: Result<(Seq<char>, Seq<char>), Seq<char>>,
    w: Around,
) -> (Desk, Seq<Deed>) {
    let named = Desk { editing: Some(key), ..d };
    match outcome {
        Err(e) => failing(named, e),
        Ok((provider, model)) => {
            finished(named, saved_note(purpose, provider, model, resumed_note(d, w)), w)
        },
    }
}

/// Nothing is kept of the account.
pub open spec fn without_account(d: Desk) -> Desk {
    Desk {
        device: None,
        entry: if d.entry.provider == "chatgpt"@ {
            Entry { api_key: ""@, base_url: ""@, ..d.entry }
        } else {
            d.entry
        },
        status: "Signed out of ChatGPT."@,
        ..d
    }
}

/// The account was signed out. Where the configuration in use is its own, the key
/// is dropped from it.
pub open spec fn signed_out(d: Desk, provider_in_use: Seq<char>, error: Option<Seq<char>>) -> (
    Desk,
    Seq<Deed>,
) {
    match error {
        Some(e) => failing(d, "ChatGPT logout failed: "@ + e),
        None => (
            without_account(d),
            if provider_in_use == "chatgpt"@ {
                seq![Deed::ForgetKey]
            } else {
                Seq::empty()
            },
        ),
    }
}

/// How something outside turned out that was waited for.
pub enum Outcome<T> {
    Done(T),
    Failed(String),
    Crashed(String),
}

pub ghost enum Ending<T> {
    Done(T),
    Failed(Seq<char>),
    Crashed(Seq<char>),
}

pub open spec fn code_outcome(o: Outcome<DeviceCode>) -> Ending<(Seq<char>, Seq<char>)> {
    match o {
        Outcome::Done(c) => Ending::Done((c.user_code@, c.verification_url@)),
        Outcome::Failed(e) => Ending::Failed(e@),
        Outcome::Crashed(e) => Ending::Crashed(e@),
    }
}

pub open spec fn email_outcome(o: Outcome<Option<String>>) -> Ending<Option<Seq<char>>> {
    match o {
        Outcome::Done(e) => Ending::Done(opt_text(e)),
        Outcome::Failed(e) => Ending::Failed(e@),
        Outcome::Crashed(e) => Ending::Crashed(e@),
    }
}

pub open spec fn code_note(code: Seq<char>, url: Seq<char>) -> Seq<char> {
    "Code "@ + code + " copied — open "@ + url + " and paste it. Waiting for sign-in…"@
}

/// There is a device code: it is copied and shown, and it is waited for.
pub open spec fn code_given(d: Desk, o: Ending<(Seq<char>, Seq<char>)>) -> (Desk, Seq<Deed>) {
    match o {
        Ending::Done((code, url)) => (
            Desk {
                status: code_note(code, url),
                device: Some((code, url)),
                signing_in: true,
                ..d
            },
            seq![Deed::Copy { text: code }, Deed::AwaitDevice],
        ),
        Ending::Failed(e) => saying(d, "device-code start failed: "@ + e),
        Ending::Crashed(e) => saying(d, "device-code task crashed: "@ + e),
    }
}

/// Signing in is over.
pub open spec fn sign_in_over(d: Desk, o: Ending<Option<Seq<char>>>) -> (Desk, Seq<Deed>) {
    let e = Desk { signing_in: false, device: None, ..d };
    match o {
        Ending::Done(email) => account_ready(e, email),
        Ending::Failed(t) => saying(e, "ChatGPT sign-in failed: "@ + t),
        Ending::Crashed(t) => saying(e, "ChatGPT sign-in task crashed: "@ + t),
    }
}

/// The form for the configuration in use.
pub open spec fn form_opened(d: Desk, in_use: Setup) -> (Desk, Seq<Deed>) {
    (
        Desk {
            entry: entry_in_use(in_use, d.entry.anthropic_models),
            connecting: true,
            draft: cleared(d.draft),
            ..d
        },
        seq![Deed::KeepConfig],
    )
}

impl App {
    /// Opens the form for the configuration in use.
    pub fn open_login(&mut self, in_use: &ModelConfig) -> (r: Vec<Effect>)
        ensures
            (final(self)@, deeds(r@)) == form_opened(old(self)@, in_use@),
    {
        self.form = Form::in_use(in_use, &self.form.anthropic_models);
        self.connecting = true;
        self.prompt.clear();
        one_effect(Effect::KeepConfig)
    }

    /// Closes the form.
    pub fn close_login(&mut self, restore: bool) -> (r: Vec<Effect>)
        ensures
            (final(self)@, deeds(r@)) == closed(old(self)@, restore),
    {
        let mut out = if restore {
            one_effect(Effect::RestoreConfig)
        } else {
            one_effect(Effect::ForgetConfig)
        };
        self.connecting = false;
        if self.return_to_profiles {
            self.return_to_profiles = false;
            self.editing = None;
            push_effect(&mut out, Effect::ListProfiles);
        }
        assert(deeds(out@) =~= closed(old(self)@, restore).1);
        out
    }

    fn ask_save(&self, context_window: u64, compact_at_pct: u8, purpose: Purpose) -> (r: Vec<Effect>)
        ensures
            deeds(r@) == seq![
                Deed::SaveProfile {
                    editing: self@.editing,
                    setup: setup_of(self@.entry, context_window, compact_at_pct),
                    purpose: purpose@,
                },
            ],
    {
        one_effect(
            Effect::SaveProfile {
                editing: copy_opt(&self.editing),
                setup: self.form.setup(context_window, compact_at_pct),
                purpose,
            },
        )
    }

    /// An account is in place.
    pub fn finish_chatgpt_login(&mut self, email: Option<String>) -> (r: Vec<Effect>)
        ensures
            (final(self)@, deeds(r@)) == account_ready(old(self)@, opt_text(email)),
    {
        self.form.sign_in();
        self.device = None;
        let (window, pct) = provider_context_defaults(self.form.provider.as_str());
        self.ask_save(window, pct, Purpose::Account { email })
    }

    /// Signs in, with a device code or in the browser.
    pub fn start_chatgpt_login(&mut self, device: bool, w: &World) -> (r: Vec<Effect>)
        ensures
            (final(self)@, deeds(r@)) == signing(old(self)@, device, w@),
    {
        if self.signing_in {
            let note = if device {
                "Sign-in already in progress — finish the device-code flow first."
            } else {
                "Sign-in already in progress — finish it in your browser."
            };
            return self.say(note);
        }
        if w.signed_in {
            return self.finish_chatgpt_login(None);
        }
        self.device = None;
        if device {
            self.status = "Starting device-code sign-in…".to_string();
        } else {
            self.signing_in = true;
            self.status = "Opening browser — finish signing in to ChatGPT…".to_string();
        }
        one_effect(Effect::SignIn { device })
    }

    fn check_form(&mut self) -> (r: Connect)
        ensures
            r == connecting(old(self)@.entry),
            final(self)@ == (Desk { entry: focused_for(old(self)@.entry, r), ..old(self)@ }),
    {
        self.form.check()
    }

    fn edit_as(&mut self, key: &str)
        ensures
            final(self)@ == (Desk { editing: Some(key@), ..old(self)@ }),
    {
        self.editing = Some(key.to_owned());
    }

    fn end_sign_in(&mut self)
        ensures
            final(self)@ == (Desk { signing_in: false, device: None, ..old(self)@ }),
    {
        self.signing_in = false;
        self.device = None;
    }

    /// Connects what is entered, or asks for what is missing.
    pub fn login_connect(&mut self, w: &World) -> (r: Vec<Effect>)
        ensures
            (final(self)@, deeds(r@)) == connected(old(self)@, w@),
    {
        match self.check_form() {
            Connect::SignIn => self.start_chatgpt_login(false, w),
            Connect::NeedKey => self.say("An API key is required to connect."),
            Connect::NeedModel => self.say("Pick or type a model to connect."),
            Connect::Save { context_window, compact_at_pct } => self.ask_save(
                context_window,
                compact_at_pct,
                Purpose::Connect,
            ),
        }
    }

    /// A configuration was saved under a name: the provider and the model that are
    /// used now. Or it could not be saved.
    pub fn profile_saved(
        &mut self,
        key: &str,
        purpose: &Purpose,
        outcome: Result<(&str, &str), &str>,
        w: &World,
    ) -> (r: Vec<Effect>)
        ensures
            (final(self)@, deeds(r@)) == saved(
                old(self)@,
                key@,
                purpose@,
                match outcome {
                    Ok(n) => Ok((n.0@, n.1@)),
                    Err(e) => Err(e@),
                },
                w@,
            ),
    {
        self.edit_as(key);
        match outcome {
            Err(e) => {
                self.fail(e)
            },
            Ok((provider, model)) => {
                let note = say_saved(purpose, provider, model, self.note_resumed(w));
                self.finish_saving(note, w)
            },
        }
    }

    fn finish_saving(&mut self, status: String, w: &World) -> (r: Vec<Effect>)
        ensures
            (final(self)@, deeds(r@)) == finished(old(self)@, status@, w@),
    {
        let mut out = self.close_login(false);
        let more = self.restart_loop_for_config(w);
        append_effects(&mut out, more);
        self.status = status;
        out
    }

    fn drop_account(&mut self)
        ensures
            final(self)@ == without_account(old(self)@),
    {
        self.device = None;
        if same(self.form.provider.as_str(), "chatgpt") {
            self.form.api_key = "".to_string();
            self.form.base_url = "".to_string();
        }
        self.status = "Signed out of ChatGPT.".to_string();
    }

    /// The account was signed out, or it could not be.
    pub fn logged_out(&mut self, provider_in_use: &str, error: Option<&str>) -> (r: Vec<Effect>)
        ensures
            (final(self)@, deeds(r@)) == signed_out(
                old(self)@,
                provider_in_use@,
                opt_str(error),
            ),
    {
        match error {
            Some(e) => {
                self.fail(cat2("ChatGPT logout failed: ", e).as_str())
            },
            None => {
                self.drop_account();
                if same(provider_in_use, "chatgpt") {
                    one_effect(Effect::ForgetKey)
                } else {
                    no_effects()
                }
            },
        }
    }

    /// There is a device code, or none could be had.
    pub fn device_code_given(&mut self, o: Outcome<DeviceCode>) -> (r: Vec<Effect>)
        ensures
            (final(self)@, deeds(r@)) == code_given(old(self)@, code_outcome(o)),
    {
        match o {
            Outcome::Done(c) => {
                self.status = cat5(
                    "Code ",
                    c.user_code.as_str(),
                    " copied — open ",
                    c.verification_url.as_str(),
                    " and paste it. Waiting for sign-in…",
                );
                let mut out = one_effect(Effect::Copy { text: c.user_code.clone() });
                push_effect(&mut out, Effect::AwaitDevice);
                assert(deeds(out@) =~= seq![
                    Deed::Copy { text: c.user_code@ },
                    Deed::AwaitDevice,
                ]);
                self.device = Some(c);
                self.signing_in = true;
                out
            },
            Outcome::Failed(e) => self.say(cat2("device-code start failed: ", e.as_str()).as_str()),
            Outcome::Crashed(e) => self.say(cat2("device-code task crashed: ", e.as_str()).as_str()),
        }
    }

    /// Signing in is over.
    pub fn sign_in_over(&mut self, o: Outcome<Option<String>>) -> (r: Vec<Effect>)
        ensures
            (final(self)@, deeds(r@)) == sign_in_over(old(self)@, email_outcome(o)),
    {
        self.end_sign_in();
        match o {
            Outcome::Done(email) => self.finish_chatgpt_login(email),
            Outcome::Failed(e) => self.say(cat2("ChatGPT sign-in failed: ", e.as_str()).as_str()),
            Outcome::Crashed(e) => self.say(
                cat2("ChatGPT sign-in task crashed: ", e.as_str()).as_str(),
            ),
        }
    }
}

fn say_saved(purpose: &Purpose, provider: &str, model: &str, resumed: &str) -> (r: String)
    ensures
        r@ == saved_note(purpose@, provider@, model@, resumed@),
{
    match purpose {
        Purpose::Connect => cat5("✓ Connected — ", provider, " · ", model, resumed),
        Purpose::Account { email } => {
            let who = match email {
                Some(e) => cat2(" as ", e.as_str()),
                None => "".to_string(),
            };
            cat5("✓ Signed in to ChatGPT", who.as_str(), " — ", model, resumed)
        },
    }
}

// ---------------------------------------------------------------------------
// Keys
// ---------------------------------------------------------------------------

/// The form holds something else.
pub open spec fn filled(d: Desk, entry: Entry) -> (Desk, Seq<Deed>) {
    (Desk { entry, ..d }, Seq::empty())
}

/// Something is copied.
pub open spec fn copied(d: Desk, text: Seq<char>, status: Seq<char>) -> (Desk, Seq<Deed>) {
    (Desk { status, ..d }, seq![Deed::Copy { text }])
}

/// The focus moves, and the models are asked for where that is due.
pub open spec fn focus_key(d: Desk, forward: bool) -> (Desk, Seq<Deed>) {
    let moved = focus_moved(d.entry, forward);
    if wants_models(moved) {
        (Desk { entry: fetching(moved), ..d }, seq![Deed::FetchModels])
    } else {
        (Desk { entry: moved, ..d }, Seq::empty())
    }
}

/// The form is given up.
pub open spec fn given_up(d: Desk) -> (Desk, Seq<Deed>) {
    let (e, out) = closed(d, true);
    (Desk { status: ""@, ..e }, out)
}

/// The device code, or where it is entered.
pub open spec fn device_text(d: Desk, url: bool) -> Seq<char> {
    match d.device {
        Some((c, u)) => if url {
            u
        } else {
            c
        },
        None => ""@,
    }
}

/// A character is typed in the form. A chord is no character.
pub open spec fn form_char(d: Desk, key: Key, c: char, w: Around) -> (Desk, Seq<Deed>) {
    let account = d.entry.provider == "chatgpt"@;
    if c == 'c' && d.device is Some {
        copied(
            d,
            device_text(d, false),
            "Copied code "@ + device_text(d, false) + " to clipboard."@,
        )
    } else if c == 'u' && d.device is Some {
        copied(d, device_text(d, true), "Copied sign-in URL to clipboard."@)
    } else if c == 'c' && key.ctrl {
        given_up(d)
    } else if c == 'd' && key.ctrl && account {
        signing(d, true, w)
    } else if c == 'l' && key.ctrl && account {
        (d, seq![Deed::SignOut])
    } else if !key.ctrl && !key.alt && !key.command {
        filled(d, typed(d.entry, seq![c]))
    } else {
        (d, Seq::empty())
    }
}

/// A key while the form is open.
pub open spec fn form_key(d: Desk, key: Key, w: Around) -> (Desk, Seq<Deed>) {
    match key.code {
        KeyCode::Char(c) => form_char(d, key, c, w),
        KeyCode::Esc => given_up(d),
        KeyCode::Enter => connected(d, w),
        KeyCode::Tab => focus_key(d, true),
        KeyCode::BackTab => focus_key(d, false),
        KeyCode::Down => focus_key(d, true),
        KeyCode::Up => focus_key(d, false),
        KeyCode::Left => filled(d, adjusted(d.entry, false)),
        KeyCode::Right => filled(d, adjusted(d.entry, true)),
        KeyCode::Backspace => filled(d, field_shortened(d.entry)),
        _ => (d, Seq::empty()),
    }
}

impl App {
    fn move_form_focus(&mut self, forward: bool) -> (r: Vec<Effect>)
        ensures
            (final(self)@, deeds(r@)) == focus_key(old(self)@, forward),
    {
        if self.form.move_focus(forward) {
            one_effect(Effect::FetchModels)
        } else {
            no_effects()
        }
    }

    fn device_text(&self, url: bool) -> (r: String)
        ensures
            r@ == device_text(self@, url),
    {
        match &self.device {
            Some(c) => if url {
                c.verification_url.clone()
            } else {
                c.user_code.clone()
            },
            None => "".to_string(),
        }
    }

    fn copy(&mut self, text: String, status: &str) -> (r: Vec<Effect>)
        ensures
            (final(self)@, deeds(r@)) == copied(old(self)@, text@, status@),
    {
        self.status = status.to_owned();
        one_effect(Effect::Copy { text })
    }

    fn type_char(&mut self, c: char) -> (r: Vec<Effect>)
        ensures
            (final(self)@, deeds(r@)) == filled(old(self)@, typed(old(self)@.entry, seq![c])),
    {
        self.form.edit_char(c);
        no_effects()
    }

    fn adjust(&mut self, forward: bool) -> (r: Vec<Effect>)
        ensures
            (final(self)@, deeds(r@)) == filled(
                old(self)@,
                adjusted(old(self)@.entry, forward),
            ),
    {
        self.form.adjust(forward);
        no_effects()
    }

    fn shorten_field(&mut self) -> (r: Vec<Effect>)
        ensures
            (final(self)@, deeds(r@)) == filled(old(self)@, field_shortened(old(self)@.entry)),
    {
        self.form.backspace();
        no_effects()
    }

    fn give_up(&mut self) -> (r: Vec<Effect>)
        ensures
            (final(self)@, deeds(r@)) == given_up(old(self)@),
    {
        let out = self.close_login(true);
        self.status = "".to_string();
        out
    }

    fn type_in_form(&mut self, key: Key, c: char, w: &World) -> (r: Vec<Effect>)
        ensures
            (final(self)@, deeds(r@)) == form_char(old(self)@, key, c, w@),
    {
        let account = same(self.form.provider.as_str(), "chatgpt");
        let code = self.device.is_some();
        if c == 'c' && code {
            let text = self.device_text(false);
            let note = cat3("Copied code ", text.as_str(), " to clipboard.");
            self.copy(text, note.as_str())
        } else if c == 'u' && code {
            let text = self.device_text(true);
            self.copy(text, "Copied sign-in URL to clipboard.")
        } else if c == 'c' && key.ctrl {
            self.give_up()
        } else if c == 'd' && key.ctrl && account {
            self.start_chatgpt_login(true, w)
        } else if c == 'l' && key.ctrl && account {
            one_effect(Effect::SignOut)
        } else if !key.ctrl && !key.alt && !key.command {
            self.type_char(c)
        } else {
            no_effects()
        }
    }

    /// A key while the form is open.
    pub fn handle_login_key(&mut self, key: Key, w: &World) -> (r: Vec<Effect>)
        ensures
            (final(self)@, deeds(r@)) == form_key(old(self)@, key, w@),
    {
        match key.code {
            KeyCode::Char(c) => self.type_in_form(key, c, w),
            KeyCode::Esc => self.give_up(),
            KeyCode::Enter => self.login_connect(w),
            KeyCode::Tab | KeyCode::Down => self.move_form_focus(true),
            KeyCode::BackTab | KeyCode::Up => self.move_form_focus(false),
            KeyCode::Left => self.adjust(false),
            KeyCode::Right => self.adjust(true),
            KeyCode::Backspace => self.shorten_field(),
            _ => no_effects(),
        }
    }
}

} // verus!
