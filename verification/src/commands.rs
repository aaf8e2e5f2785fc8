//! The slash commands, and what is done with what was entered.
use crate::app::{
    App, Around, Desk, Picker, Picking, Screen, World, alive, busy, saying, send_if, spawned,
    switched,
};
use crate::effects::{
    Deed, Effect, LoopInput, Message, Receipt, append_effects, deeds, no_effects, one_effect,
    push_effect, told_loop,
};
use crate::events::{Checkpoint, checkpoints_of};
use crate::suggestions::{after, no_pairs, push_pair, rest_after};
use crate::text::{
    cat2, cat3, cat5, decimal, decimal_string, lowered, opt_str, same, split_whitespace, starts,
    starts_with, texts, to_ascii_lowercase, trim, trimmed, words,
};
use crate::theme::set_theme_by_name;
use crate::vault::pair_texts;
use vstd::prelude::*;

verus! {

/// There is a conversation of that name.
pub open spec fn session_known(sessions: Seq<(Seq<char>, Seq<char>)>, name: Seq<char>) -> bool {
    exists|i: int| 0 <= i < sessions.len() && (#[trigger] sessions[i]).0 == name
}

fn knows_session(sessions: &Vec<(String, String)>, name: &str) -> (r: bool)
    ensures
        r == session_known(pair_texts(sessions@), name@),
{
    let ghost all = pair_texts(sessions@);
    for i in 0..sessions.len()
        invariant
            all == pair_texts(sessions@),
            forall|k: int| 0 <= k < i ==> (#[trigger] all[k]).0 != name@,
    {
        assert(all[i as int].0 == sessions@[i as int].0@);
        if same(sessions[i].0.as_str(), name) {
            return true;
        }
    }
    false
}

// ---------------------------------------------------------------------------
// Conversations
// ---------------------------------------------------------------------------

/// `/new`: a new conversation, under a name that is not taken or one of its own.
pub open spec fn new_command(d: Desk, name: Option<Seq<char>>, w: Around) -> (Desk, Seq<Deed>) {
    match name {
        Some(n) => if session_known(w.sessions, n) {
            saying(d, name_taken_note(n))
        } else {
            switched(d, n)
        },
        None => switched(d, w.fresh_name),
    }
}

pub open spec fn name_taken_note(n: Seq<char>) -> Seq<char> {
    "`"@ + n + "` already exists — /resume "@ + n + " to open it, or pick another name"@
}

pub open spec fn no_session_note(n: Seq<char>) -> Seq<char> {
    "no session named `"@ + n + "` — bare /resume opens the picker"@
}

/// The list from which a conversation is picked.
pub open spec fn picker_opened(d: Desk, list: Seq<(Seq<char>, Seq<char>)>) -> Desk {
    Desk {
        picking: Picking { selected: 0, deleting: false, renaming: None, list: Some(list) },
        screen: Screen::ResumeSelection,
        status: "↑↓ select · Enter resume · r rename · dd delete · Esc cancel"@,
        ..d
    }
}

/// `/resume`: a conversation by its name, or the list of them. Where there is none
/// to list, the present one or the last one goes on.
pub open spec fn resume_command(d: Desk, name: Option<Seq<char>>, w: Around) -> (Desk, Seq<Deed>) {
    match name {
        Some(n) => if !session_known(w.sessions, n) {
            saying(d, no_session_note(n))
        } else {
            let (e, out) = switched(d, n);
            (e, out.push(Deed::TryResume))
        },
        None => if w.sessions.len() > 0 {
            (picker_opened(d, w.sessions), Seq::empty())
        } else if alive(d, w) {
            saying(d, "Agent is already running."@)
        } else {
            (d, seq![Deed::ResumeLast])
        },
    }
}

/// The present conversation goes on, or the last one where the present one is not
/// saved.
pub open spec fn resuming_last(d: Desk, exists_now: bool, last: Option<Seq<char>>) -> (
    Desk,
    Seq<Deed>,
) {
    match last {
        Some(n) => if exists_now {
            (d, seq![Deed::TryResume])
        } else {
            let (e, out) = switched(d, n);
            (e, out.push(Deed::TryResume))
        },
        None => (d, seq![Deed::TryResume]),
    }
}

/// A conversation goes on where it is saved.
pub open spec fn resuming(d: Desk, exists_now: bool, w: Around) -> (Desk, Seq<Deed>) {
    if exists_now {
        spawned(d, w, None)
    } else {
        saying(
            d,
            "No saved session to resume. Start a new one with /new or type a task."@,
        )
    }
}

impl App {
    /// `/new`: a new conversation.
    pub fn command_new(&mut self, name: Option<&str>, w: &World) -> (r: Vec<Effect>)
        ensures
            (final(self)@, deeds(r@)) == new_command(old(self)@, opt_str(name), w@),
    {
        match name {
            Some(n) => {
                if knows_session(&w.sessions, n) {
                    let note = cat5(
                        "`",
                        n,
                        "` already exists — /resume ",
                        n,
                        " to open it, or pick another name",
                    );
                    self.say(note.as_str())
                } else {
                    self.switch_conversation(n)
                }
            },
            None => self.switch_conversation(w.fresh_name.as_str()),
        }
    }

    /// Lists conversations to pick one from.
    pub fn open_picker(&mut self, list: &Vec<(String, String)>)
        ensures
            final(self)@ == picker_opened(old(self)@, pair_texts(list@)),
    {
        let copy = copy_pairs(list);
        self.picker = Picker { selected: 0, deleting: false, renaming: None, list: Some(copy) };
        self.screen = Screen::ResumeSelection;
        self.status = "↑↓ select · Enter resume · r rename · dd delete · Esc cancel".to_string();
    }

    /// `/resume`: a conversation by its name, or the list of them.
    pub fn command_resume(&mut self, name: Option<&str>, w: &World) -> (r: Vec<Effect>)
        ensures
            (final(self)@, deeds(r@)) == resume_command(old(self)@, opt_str(name), w@),
    {
        assert(pair_texts(w.sessions@).len() == w.sessions@.len());
        match name {
            Some(n) => {
                if !knows_session(&w.sessions, n) {
                    let note = cat3("no session named `", n, "` — bare /resume opens the picker");
                    self.say(note.as_str())
                } else {
                    let mut out = self.switch_conversation(n);
                    push_effect(&mut out, Effect::TryResume);
                    out
                }
            },
            None => {
                if w.sessions.len() > 0 {
                    self.open_picker(&w.sessions);
                    no_effects()
                } else if self.agent_alive(w) {
                    self.say("Agent is already running.")
                } else {
                    one_effect(Effect::ResumeLast)
                }
            },
        }
    }

    /// Goes on with the present conversation where it is saved, and else with the
    /// one that was active last.
    pub fn resume_last(&mut self, exists_now: bool, last: Option<&str>) -> (r: Vec<Effect>)
        ensures
            (final(self)@, deeds(r@)) == resuming_last(old(self)@, exists_now, opt_str(last)),
    {
        match last {
            Some(n) => {
                if exists_now {
                    one_effect(Effect::TryResume)
                } else {
                    let mut out = self.switch_conversation(n);
                    push_effect(&mut out, Effect::TryResume);
                    out
                }
            },
            None => one_effect(Effect::TryResume),
        }
    }

    /// Goes on with the conversation where it is saved.
    pub fn resume(&mut self, exists_now: bool, w: &World) -> (r: Vec<Effect>)
        ensures
            (final(self)@, deeds(r@)) == resuming(old(self)@, exists_now, w@),
    {
        if exists_now {
            self.spawn_loop(None, w)
        } else {
            self.say("No saved session to resume. Start a new one with /new or type a task.")
        }
    }
}

/// A copy of a list of pairs.
pub fn copy_pairs(list: &Vec<(String, String)>) -> (r: Vec<(String, String)>)
    ensures
        pair_texts(r@) == pair_texts(list@),
{
    let ghost all = pair_texts(list@);
    let mut out = no_pairs();
    for i in 0..list.len()
        invariant
            all == pair_texts(list@),
            pair_texts(out@) == all.take(i as int),
    {
        push_pair(&mut out, list[i].0.clone(), list[i].1.clone());
        assert(all.take(i + 1) =~= all.take(i as int).push(all[i as int]));
    }
    assert(all.take(all.len() as int) =~= all);
    out
}

// ---------------------------------------------------------------------------
// Checkpoints
// ---------------------------------------------------------------------------

/// The newest checkpoint whose id begins so.
pub open spec fn checkpoint_for(list: Seq<(Seq<char>, Seq<char>)>, prefix: Seq<char>) -> Option<
    (Seq<char>, Seq<char>),
>
    decreases list.len(),
{
    if list.len() == 0 {
        None
    } else if starts(list.last().0, prefix) {
        Some(list.last())
    } else {
        checkpoint_for(list.drop_last(), prefix)
    }
}

fn find_checkpoint(list: &Vec<Checkpoint>, prefix: &str) -> (r: Option<(String, String)>)
    ensures
        checkpoint_for(checkpoints_of(list@), prefix@) == match r {
            Some(c) => Some((c.0@, c.1@)),
            None => None,
        },
{
    let ghost all = checkpoints_of(list@);
    let mut i: usize = list.len();
    assert(all.take(all.len() as int) =~= all);
    while i > 0
        invariant
            i <= list.len(),
            all == checkpoints_of(list@),
            checkpoint_for(all, prefix@) == checkpoint_for(all.take(i as int), prefix@),
        decreases i,
    {
        let c = &list[i - 1];
        proof {
            assert(all.take(i as int).last() == (c.id@, c.label@));
            assert(all.take(i as int).drop_last() =~= all.take(i - 1));
        }
        if starts_with(c.id.as_str(), prefix) {
            return Some((c.id.clone(), c.label.clone()));
        }
        i -= 1;
    }
    None
}

/// `/rewind` with the beginning of an id.
pub open spec fn rewinding(d: Desk, prefix: Seq<char>, w: Around) -> (Desk, Seq<Deed>) {
    if busy(d, w) {
        saying(d, "Agent is working — stop it (Esc) before rewinding."@)
    } else {
        match d.state {
            None => saying(d, "No active session."@),
            Some(c) => match checkpoint_for(c.checkpoints, prefix) {
                None => saying(d, "No checkpoint matching '"@ + prefix + "'."@),
                Some((id, label)) => (d, seq![Deed::Rewind { id, label }]),
            },
        }
    }
}

/// The workspace was restored, or it was not.
pub open spec fn rewound(d: Desk, label: Seq<char>, error: Option<Seq<char>>) -> Desk {
    match error {
        None => Desk { status: "Rewound workspace to: "@ + label, ..d },
        Some(e) => Desk { error: Some("rewind failed: "@ + e), ..d },
    }
}

/// `/rewind` alone tells how many checkpoints there are.
pub open spec fn checkpoint_note(d: Desk) -> Seq<char> {
    let n = match d.state {
        Some(c) => c.checkpoints.len(),
        None => 0,
    };
    if n == 0 {
        "No checkpoints yet — one is taken before each request."@
    } else {
        decimal(n) + " checkpoint(s). Type /rewind <id> (Tab to pick) to restore."@
    }
}

impl App {
    /// Asks for the workspace to be restored to the newest checkpoint whose id
    /// begins so.
    pub fn rewind_to(&mut self, prefix: &str, w: &World) -> (r: Vec<Effect>)
        ensures
            (final(self)@, deeds(r@)) == rewinding(old(self)@, prefix@, w@),
    {
        if self.agent_busy(w) {
            return self.say("Agent is working — stop it (Esc) before rewinding.");
        }
        let found = match &self.state {
            None => {
                return self.say("No active session.");
            },
            Some(s) => find_checkpoint(&s.checkpoints, prefix),
        };
        match found {
            None => {
                let note = cat3("No checkpoint matching '", prefix, "'.");
                self.say(note.as_str())
            },
            Some((id, label)) => one_effect(Effect::Rewind { id, label }),
        }
    }

    /// The workspace was restored, or it was not.
    pub fn rewound(&mut self, label: &str, error: Option<&str>)
        ensures
            final(self)@ == rewound(old(self)@, label@, opt_str(error)),
    {
        match error {
            None => {
                self.status = cat2("Rewound workspace to: ", label);
            },
            Some(e) => {
                self.error = Some(cat2("rewind failed: ", e));
            },
        }
    }

    fn count_checkpoints(&mut self) -> (r: Vec<Effect>)
        ensures
            (final(self)@, deeds(r@)) == saying(old(self)@, checkpoint_note(old(self)@)),
    {
        let n: usize = match &self.state {
            Some(s) => s.checkpoints.len(),
            None => 0,
        };
        if n == 0 {
            self.say("No checkpoints yet — one is taken before each request.")
        } else {
            let d = decimal_string(n as u64);
            let note = cat2(
                d.as_str(),
                " checkpoint(s). Type /rewind <id> (Tab to pick) to restore.",
            );
            self.say(note.as_str())
        }
    }
}

// ---------------------------------------------------------------------------
// Mode, compaction, goal and palette
// ---------------------------------------------------------------------------

/// `/mode`: changes are approved by hand from now on, or no longer.
pub open spec fn mode_command(d: Desk) -> (Desk, Seq<Deed>) {
    let manual = !d.manual;
    (
        Desk { manual, status: ""@, ..d },
        seq![Deed::SetManual { manual }] + send_if(d.linked, Message::SetMode { manual }),
    )
}

/// `/compact`.
pub open spec fn compact_command(d: Desk) -> (Desk, Seq<Deed>) {
    if d.linked {
        (d, seq![Deed::Send { input: Message::Compact, receipt: Receipt::Compaction }])
    } else {
        saying(d, "No active session to compact."@)
    }
}

/// What is entered after `/goal`.
pub open spec fn goal_text(text: Seq<char>) -> Seq<char> {
    trimmed(after(text, "/goal"@))
}

/// `/goal`: sets a goal, for which a loop is started where there is none, or gives
/// it up.
pub open spec fn goal_command(d: Desk, goal: Seq<char>, w: Around) -> (Desk, Seq<Deed>) {
    if lowered(goal) == "cancel"@ || lowered(goal) == "stop"@ {
        if d.linked {
            (
                Desk { status: "Cancelling the goal…"@, ..d },
                seq![told_loop(Message::CancelGoal)],
            )
        } else {
            saying(d, "No active goal."@)
        }
    } else if goal.len() == 0 {
        saying(d, "Usage: /goal <what to accomplish>   ·   /goal cancel"@)
    } else {
        let (e, out) = spawned(d, w, None);
        if e.linked {
            (
                e,
                out.push(
                    Deed::Send {
                        input: Message::SetGoal { text: goal },
                        receipt: Receipt::Goal,
                    },
                ),
            )
        } else {
            (
                Desk { status: "Couldn't start the agent loop for the goal."@, ..e },
                out,
            )
        }
    }
}

/// `/theme`: another palette, by name or from the list.
pub open spec fn theme_command(d: Desk, name: Option<Seq<char>>, w: Around) -> (Desk, Seq<Deed>) {
    match name {
        Some(n) => (Desk { status: "Theme: "@ + n, ..d }, seq![Deed::PersistTheme]),
        None => (
            Desk {
                theme_original: w.theme,
                theme_selected: w.theme,
                screen: Screen::ThemeSelection,
                status: ""@,
                ..d
            },
            Seq::empty(),
        ),
    }
}

/// `/model`: the profiles, unless the agent is at work.
pub open spec fn model_command(d: Desk, w: Around) -> (Desk, Seq<Deed>) {
    if busy(d, w) {
        saying(d, "Agent is working. Stop it (Esc) before changing the model."@)
    } else {
        (Desk { status: ""@, ..d }, seq![Deed::ListProfiles])
    }
}

impl App {
    fn command_mode(&mut self) -> (r: Vec<Effect>)
        ensures
            (final(self)@, deeds(r@)) == mode_command(old(self)@),
    {
        let manual = !self.manual;
        self.manual = manual;
        self.status = "".to_string();
        let mut out = one_effect(Effect::SetManual { manual });
        let more = self.tell(LoopInput::SetMode { manual });
        append_effects(&mut out, more);
        out
    }

    fn command_compact(&mut self) -> (r: Vec<Effect>)
        ensures
            (final(self)@, deeds(r@)) == compact_command(old(self)@),
    {
        if self.linked {
            one_effect(Effect::Send { input: LoopInput::Compact, receipt: Receipt::Compaction })
        } else {
            self.say("No active session to compact.")
        }
    }

    /// `/goal`: sets a goal, or gives it up.
    pub fn command_goal(&mut self, goal: &str, w: &World) -> (r: Vec<Effect>)
        ensures
            (final(self)@, deeds(r@)) == goal_command(old(self)@, goal@, w@),
    {
        let low = to_ascii_lowercase(goal);
        if same(low.as_str(), "cancel") || same(low.as_str(), "stop") {
            if self.linked {
                self.status = "Cancelling the goal…".to_string();
                return one_effect(
                    Effect::Send { input: LoopInput::CancelGoal, receipt: Receipt::Ignored },
                );
            }
            return self.say("No active goal.");
        }
        if goal.is_empty() {
            return self.say("Usage: /goal <what to accomplish>   ·   /goal cancel");
        }
        let mut out = self.spawn_loop(None, w);
        if self.linked {
            push_effect(
                &mut out,
                Effect::Send {
                    input: LoopInput::SetGoal { text: goal.to_owned() },
                    receipt: Receipt::Goal,
                },
            );
        } else {
            self.status = "Couldn't start the agent loop for the goal.".to_string();
        }
        out
    }

    fn command_theme(&mut self, name: Option<&str>, w: &World) -> (r: Vec<Effect>)
        ensures
            (final(self)@, deeds(r@)) == theme_command(old(self)@, opt_str(name), w@),
    {
        match name {
            Some(n) => {
                set_theme_by_name(n);
                self.status = cat2("Theme: ", n);
                one_effect(Effect::PersistTheme)
            },
            None => {
                self.theme_original = w.theme;
                self.theme_selected = w.theme;
                self.screen = Screen::ThemeSelection;
                self.status = "".to_string();
                no_effects()
            },
        }
    }

    fn command_model(&mut self, w: &World) -> (r: Vec<Effect>)
        ensures
            (final(self)@, deeds(r@)) == model_command(old(self)@, w@),
    {
        if self.agent_busy(w) {
            return self.say("Agent is working. Stop it (Esc) before changing the model.");
        }
        self.status = "".to_string();
        one_effect(Effect::ListProfiles)
    }
}

// ---------------------------------------------------------------------------
// All commands
// ---------------------------------------------------------------------------

/// What follows the command.
pub open spec fn argument(parts: Seq<Seq<char>>) -> Option<Seq<char>> {
    if parts.len() > 1 {
        Some(parts[1])
    } else {
        None
    }
}

pub open spec fn unknown_note(name: Seq<char>) -> Seq<char> {
    "Unknown command: "@ + name + ". Type /new, /resume, /rewind, /model, or /theme."@
}

/// A command is carried out.
pub open spec fn commanded(d: Desk, text: Seq<char>, w: Around) -> (Desk, Seq<Deed>) {
    let parts = words(text);
    if parts.len() == 0 {
        (d, Seq::empty())
    } else if parts[0] == "/new"@ {
        new_command(d, argument(parts), w)
    } else if parts[0] == "/resume"@ {
        resume_command(d, argument(parts), w)
    } else if parts[0] == "/model"@ {
        model_command(d, w)
    } else if parts[0] == "/rewind"@ {
        match argument(parts) {
            Some(id) => rewinding(d, id, w),
            None => saying(d, checkpoint_note(d)),
        }
    } else if parts[0] == "/mode"@ {
        mode_command(d)
    } else if parts[0] == "/compact"@ {
        compact_command(d)
    } else if parts[0] == "/goal"@ {
        goal_command(d, goal_text(text), w)
    } else if parts[0] == "/theme"@ {
        theme_command(d, argument(parts), w)
    } else {
        saying(d, unknown_note(parts[0]))
    }
}

impl App {
    /// Carries out a command.
    pub fn handle_slash_command(&mut self, text: &str, w: &World) -> (r: Vec<Effect>)
        ensures
            (final(self)@, deeds(r@)) == commanded(old(self)@, text@, w@),
    {
        let parts = split_whitespace(text);
        let ghost all = texts(parts@);
        assert(all.len() == parts@.len());
        if parts.len() == 0 {
            return no_effects();
        }
        let command = parts[0].as_str();
        assert(all[0] == command@);
        let arg: Option<&str> = if parts.len() > 1 {
            assert(all[1] == parts@[1]@);
            Some(parts[1].as_str())
        } else {
            None
        };
        if same(command, "/new") {
            self.command_new(arg, w)
        } else if same(command, "/resume") {
            self.command_resume(arg, w)
        } else if same(command, "/model") {
            self.command_model(w)
        } else if same(command, "/rewind") {
            match arg {
                Some(id) => self.rewind_to(id, w),
                None => self.count_checkpoints(),
            }
        } else if same(command, "/mode") {
            self.command_mode()
        } else if same(command, "/compact") {
            self.command_compact()
        } else if same(command, "/goal") {
            let rest = rest_after(text, "/goal");
            let goal = trim(rest.as_str());
            self.command_goal(goal.as_str(), w)
        } else if same(command, "/theme") {
            self.command_theme(arg, w)
        } else {
            let note = cat3(
                "Unknown command: ",
                command,
                ". Type /new, /resume, /rewind, /model, or /theme.",
            );
            self.say(note.as_str())
        }
    }
}

} // verus!
