//! What the screen holds, and what it asks for when something happens.
//!
//! Nothing here reads or writes outside: what is read comes in as a value, and
//! what is to be done goes out as a list of effects. Where it matters how an
//! effect turned out, that comes in by a call of its own.
use crate::asking::{Answering, Inquiry, told};
use crate::blocks::{less, smaller};
use crate::effects::{
    Deed, Effect, LoopInput, Message, Receipt, deeds, no_effects, one_effect, push_effect,
    told_loop,
};
use crate::events::{
    Conversation, HarnessState, HarnessStatus, approval, compacting, is_compacting_now, is_working,
    pending_approval, working,
};
use crate::form::{Entry, Form, ModelConfig, Setup};
use crate::login::DeviceCode;
use crate::prompt::{Draft, Prompt};
use crate::style::room;
use crate::text::{no_texts, opt_text, texts};
use crate::vault::pair_texts;
use vstd::prelude::*;

verus! {

#[derive(Clone, Copy, PartialEq, Eq, Structural, Debug)]
pub enum Screen {
    Main,
    ResumeSelection,
    ThemeSelection,
    Profiles,
}

/// The list from which a conversation is picked.
pub struct Picker {
    pub selected: usize,
    /// Deleting was asked for once.
    pub deleting: bool,
    /// The title that is being written.
    pub renaming: Option<String>,
    /// The conversations as they were listed.
    pub list: Option<Vec<(String, String)>>,
}

pub ghost struct Picking {
    pub selected: nat,
    pub deleting: bool,
    pub renaming: Option<Seq<char>>,
    pub list: Option<Seq<(Seq<char>, Seq<char>)>>,
}

impl View for Picker {
    type V = Picking;

    open spec fn view(&self) -> Picking {
        Picking {
            selected: self.selected as nat,
            deleting: self.deleting,
            renaming: opt_text(self.renaming),
            list: match self.list {
                Some(l) => Some(pair_texts(l@)),
                None => None,
            },
        }
    }
}

/// All that the screen holds.
pub struct App {
    pub prompt: Prompt,
    pub status: String,
    pub error: Option<String>,
    /// The conversation, as its file was read.
    pub state: Option<HarnessState>,
    /// When that file had changed, in nanoseconds from the epoch.
    pub stamp: Option<i128>,
    /// There is a loop, which may have ended.
    pub held: bool,
    /// There is a channel to the loop.
    pub linked: bool,
    /// How many lines the transcript is scrolled up.
    pub scroll: usize,
    pub max_scroll: usize,
    pub frame: usize,
    pub quit: bool,
    /// The name of the conversation.
    pub conversation: String,
    pub suggestion: usize,
    pub screen: Screen,
    pub picker: Picker,
    pub theme_selected: usize,
    pub theme_original: usize,
    pub profile_selected: usize,
    /// The profile that is edited.
    pub editing: Option<String>,
    pub return_to_profiles: bool,
    /// How many compactions were seen, the largest number where none were looked
    /// for yet.
    pub seen_compactions: usize,
    /// The messages that are held until the turn is over.
    pub queued: Vec<String>,
    pub was_busy: bool,
    /// A turn was handed over, and the state does not show it yet.
    pub pending: bool,
    /// Changes are approved by hand.
    pub manual: bool,
    pub form: Form,
    /// The form is open.
    pub connecting: bool,
    pub device: Option<DeviceCode>,
    pub signing_in: bool,
    pub asking: Answering,
}

/// All that the screen holds, as values.
pub ghost struct Desk {
    pub draft: Draft,
    pub status: Seq<char>,
    pub error: Option<Seq<char>>,
    pub state: Option<Conversation>,
    pub stamp: Option<i128>,
    pub held: bool,
    pub linked: bool,
    pub scroll: nat,
    pub max_scroll: nat,
    pub frame: usize,
    pub quit: bool,
    pub conversation: Seq<char>,
    pub suggestion: nat,
    pub screen: Screen,
    pub picking: Picking,
    pub theme_selected: nat,
    pub theme_original: nat,
    pub profile_selected: nat,
    pub editing: Option<Seq<char>>,
    pub return_to_profiles: bool,
    pub seen_compactions: nat,
    pub queued: Seq<Seq<char>>,
    pub was_busy: bool,
    pub pending: bool,
    pub manual: bool,
    pub entry: Entry,
    pub connecting: bool,
    pub device: Option<(Seq<char>, Seq<char>)>,
    pub signing_in: bool,
    pub inquiry: Inquiry,
}

impl View for App {
    type V = Desk;

    open spec fn view(&self) -> Desk {
        Desk {
            draft: self.prompt@,
            status: self.status@,
            error: opt_text(self.error),
            state: told(self.state),
            stamp: self.stamp,
            held: self.held,
            linked: self.linked,
            scroll: self.scroll as nat,
            max_scroll: self.max_scroll as nat,
            frame: self.frame,
            quit: self.quit,
            conversation: self.conversation@,
            suggestion: self.suggestion as nat,
            screen: self.screen,
            picking: self.picker@,
            theme_selected: self.theme_selected as nat,
            theme_original: self.theme_original as nat,
            profile_selected: self.profile_selected as nat,
            editing: opt_text(self.editing),
            return_to_profiles: self.return_to_profiles,
            seen_compactions: self.seen_compactions as nat,
            queued: texts(self.queued@),
            was_busy: self.was_busy,
            pending: self.pending,
            manual: self.manual,
            entry: self.form@,
            connecting: self.connecting,
            device: match self.device {
                Some(c) => Some((c.user_code@, c.verification_url@)),
                None => None,
            },
            signing_in: self.signing_in,
            inquiry: self.asking@,
        }
    }
}

/// What is known of the world at the time of a call.
pub struct World {
    /// The loop has ended.
    pub ended: bool,
    /// The animation of a compaction goes on.
    pub animating: bool,
    /// The account is signed in.
    pub signed_in: bool,
    /// The saved conversations.
    pub sessions: Vec<(String, String)>,
    /// The profiles, with their configurations where they have one.
    pub profiles: Vec<(String, Option<ModelConfig>)>,
    /// The labels of the palettes.
    pub themes: Vec<String>,
    /// The palette that is shown.
    pub theme: usize,
    /// A name that no conversation has.
    pub fresh_name: String,
}

pub ghost struct Around {
    pub ended: bool,
    pub animating: bool,
    pub signed_in: bool,
    pub sessions: Seq<(Seq<char>, Seq<char>)>,
    pub profiles: Seq<(Seq<char>, Option<Setup>)>,
    pub themes: Seq<Seq<char>>,
    pub theme: nat,
    pub fresh_name: Seq<char>,
}

pub open spec fn opt_setup(s: Option<ModelConfig>) -> Option<Setup> {
    match s {
        Some(c) => Some(c@),
        None => None,
    }
}

pub open spec fn profiles_of(list: Seq<(String, Option<ModelConfig>)>) -> Seq<
    (Seq<char>, Option<Setup>),
> {
    list.map_values(|p: (String, Option<ModelConfig>)| (p.0@, opt_setup(p.1)))
}

impl View for World {
    type V = Around;

    open spec fn view(&self) -> Around {
        Around {
            ended: self.ended,
            animating: self.animating,
            signed_in: self.signed_in,
            sessions: pair_texts(self.sessions@),
            profiles: profiles_of(self.profiles@),
            themes: texts(self.themes@),
            theme: self.theme as nat,
            fresh_name: self.fresh_name@,
        }
    }
}

// ---------------------------------------------------------------------------
// The loop
// ---------------------------------------------------------------------------

/// There is a loop that has not ended.
pub open spec fn alive(d: Desk, w: Around) -> bool {
    d.held && !w.ended
}

/// A turn is being worked on, or a lane is. Between turns the loop is alive and
/// not busy.
pub open spec fn busy(d: Desk, w: Around) -> bool {
    alive(d, w) && (d.pending || match d.state {
        Some(c) => working(c),
        None => false,
    })
}

/// The history is being compacted, or that is still shown.
pub open spec fn shows_compaction(d: Desk, w: Around) -> bool {
    w.animating || match d.state {
        Some(c) => compacting(c),
        None => false,
    }
}

/// The call that waits for approval.
pub open spec fn waiting_call(d: Desk) -> Option<(Seq<char>, Seq<char>, usize, usize)> {
    match d.state {
        Some(c) => approval(c),
        None => None,
    }
}

/// Changes are approved by hand: as the conversation says, or else as configured.
pub open spec fn by_hand(d: Desk) -> bool {
    match d.state {
        Some(c) => c.manual_approval,
        None => d.manual,
    }
}

/// A loop was started.
pub open spec fn with_loop(d: Desk) -> Desk {
    Desk {
        error: None,
        scroll: 0,
        pending: false,
        status: ""@,
        held: true,
        linked: true,
        ..d
    }
}

/// A loop is started unless there is one.
pub open spec fn spawned(d: Desk, w: Around, initial: Option<Seq<char>>) -> (Desk, Seq<Deed>) {
    if alive(d, w) {
        (d, Seq::empty())
    } else {
        (with_loop(d), seq![Deed::Spawn { initial }])
    }
}

/// The loop is started anew where there is one, so that it takes up a new
/// configuration.
pub open spec fn restarted(d: Desk, w: Around) -> (Desk, Seq<Deed>) {
    if alive(d, w) {
        (with_loop(d), seq![Deed::Abort, Deed::Spawn { initial: None }])
    } else {
        (d, Seq::empty())
    }
}

/// What is said of a loop that was started anew.
pub open spec fn resumed_note(d: Desk, w: Around) -> Seq<char> {
    if alive(d, w) {
        " · resumed"@
    } else {
        ""@
    }
}

/// The message to a channel, where there is one.
pub open spec fn send_if(linked: bool, input: Message) -> Seq<Deed> {
    if linked {
        seq![told_loop(input)]
    } else {
        Seq::empty()
    }
}

/// Another conversation. Nothing of the one before stays: not its loop, nor what
/// was held for it, nor what was said of it.
pub open spec fn switched(d: Desk, name: Seq<char>) -> (Desk, Seq<Deed>) {
    (
        Desk {
            held: false,
            linked: false,
            conversation: name,
            stamp: None,
            state: None,
            scroll: 0,
            status: ""@,
            queued: Seq::empty(),
            was_busy: false,
            pending: false,
            error: None,
            seen_compactions: usize::MAX as nat,
            ..d
        },
        send_if(d.linked, Message::Interrupt) + (if d.held {
            seq![Deed::Abort]
        } else {
            Seq::empty()
        }) + seq![Deed::Open],
    )
}

/// One message goes to the loop: as an answer where the conversation waits for
/// one, and with a loop of its own where there is none.
pub open spec fn submitted(d: Desk, text: Seq<char>, w: Around) -> (Desk, Seq<Deed>) {
    if d.linked && alive(d, w) {
        let waiting = match d.state {
            Some(c) => c.status == HarnessStatus::WaitingForInput,
            None => false,
        };
        let input = if waiting {
            Message::Answer { text }
        } else {
            Message::UserMessage { text }
        };
        (Desk { scroll: 0, ..d }, seq![Deed::Send { input, receipt: Receipt::Turn }])
    } else {
        let (e, out) = spawned(Desk { scroll: 0, ..d }, w, Some(text));
        (turn_begun(e), out)
    }
}

/// The screen says something and asks for nothing.
pub open spec fn saying(d: Desk, status: Seq<char>) -> (Desk, Seq<Deed>) {
    (Desk { status, ..d }, Seq::empty())
}

/// The screen shows an error and asks for nothing.
pub open spec fn failing(d: Desk, error: Seq<char>) -> (Desk, Seq<Deed>) {
    (Desk { error: Some(error), ..d }, Seq::empty())
}

/// A turn was handed over.
pub open spec fn turn_begun(d: Desk) -> Desk {
    Desk { pending: true, was_busy: true, ..d }
}

/// What follows once it is known whether the loop took what it was handed.
pub open spec fn acknowledged(d: Desk, receipt: Receipt, ok: bool) -> (Desk, Seq<Deed>) {
    match receipt {
        Receipt::Ignored => (d, Seq::empty()),
        Receipt::Turn => if ok {
            (turn_begun(d), Seq::empty())
        } else {
            failing(d, "agent loop is no longer accepting input"@)
        },
        Receipt::Goal => if ok {
            saying(d, "Goal set — the agent will drive toward it. /goal cancel to stop."@)
        } else {
            saying(d, "Couldn't start the agent loop for the goal."@)
        },
        Receipt::Compaction => if ok {
            (
                Desk { status: ""@, ..d },
                seq![Deed::Stream { text: "Compacting history…"@ }],
            )
        } else {
            saying(d, "Failed to send compact request to the agent loop."@)
        },
    }
}

/// What is held is submitted, each message for itself and in order.
pub open spec fn flushed(d: Desk) -> (Desk, Seq<Deed>) {
    (
        Desk { queued: Seq::empty(), status: ""@, ..d },
        d.queued.map_values(|t: Seq<char>| Deed::Submit { text: t }),
    )
}

/// A turn is interrupted. Without one it is time to go.
pub open spec fn interrupted(d: Desk, w: Around) -> (Desk, Seq<Deed>) {
    if busy(d, w) {
        (
            Desk { status: "Interrupting..."@, ..d },
            send_if(d.linked, Message::Interrupt),
        )
    } else {
        (Desk { quit: true, ..d }, Seq::empty())
    }
}

impl App {
    pub fn agent_alive(&self, w: &World) -> (r: bool)
        ensures
            r == alive(self@, w@),
    {
        self.held && !w.ended
    }

    pub fn agent_busy(&self, w: &World) -> (r: bool)
        ensures
            r == busy(self@, w@),
    {
        self.agent_alive(w) && (self.pending || match &self.state {
            Some(s) => is_working(s),
            None => false,
        })
    }

    pub fn is_compacting(&self, w: &World) -> (r: bool)
        ensures
            r == shows_compaction(self@, w@),
    {
        w.animating || match &self.state {
            Some(s) => is_compacting_now(s),
            None => false,
        }
    }

    /// The call that waits for approval: its tool, what it is about, and which of
    /// how many it is.
    pub fn pending_approval(&self) -> (r: Option<(String, String, usize, usize)>)
        ensures
            waiting_call(self@) == match r {
                Some(a) => Some((a.0@, a.1@, a.2, a.3)),
                None => None,
            },
    {
        match &self.state {
            Some(s) => pending_approval(s),
            None => None,
        }
    }

    pub fn is_manual_mode(&self) -> (r: bool)
        ensures
            r == by_hand(self@),
    {
        match &self.state {
            Some(s) => s.manual_approval,
            None => self.manual,
        }
    }

    /// Says something.
    pub(crate) fn say(&mut self, status: &str) -> (r: Vec<Effect>)
        ensures
            (final(self)@, deeds(r@)) == saying(old(self)@, status@),
    {
        self.status = status.to_owned();
        no_effects()
    }

    /// Shows an error.
    pub(crate) fn fail(&mut self, error: &str) -> (r: Vec<Effect>)
        ensures
            (final(self)@, deeds(r@)) == failing(old(self)@, error@),
    {
        self.error = Some(error.to_owned());
        no_effects()
    }

    fn begin_turn(&mut self)
        ensures
            final(self)@ == turn_begun(old(self)@),
    {
        self.pending = true;
        self.was_busy = true;
    }

    /// Goes to the end of the transcript.
    pub(crate) fn follow(&mut self)
        ensures
            final(self)@ == (Desk { scroll: 0, ..old(self)@ }),
    {
        self.scroll = 0;
    }

    /// Goes to a screen.
    pub(crate) fn show(&mut self, screen: Screen)
        ensures
            final(self)@ == (Desk { screen, ..old(self)@ }),
    {
        self.screen = screen;
    }

    fn start_loop(&mut self)
        ensures
            final(self)@ == with_loop(old(self)@),
    {
        self.error = None;
        self.scroll = 0;
        self.pending = false;
        self.status = "".to_string();
        self.held = true;
        self.linked = true;
    }

    /// Starts a loop unless there is one.
    pub fn spawn_loop(&mut self, initial: Option<String>, w: &World) -> (r: Vec<Effect>)
        ensures
            (final(self)@, deeds(r@)) == spawned(old(self)@, w@, opt_text(initial)),
    {
        if self.agent_alive(w) {
            return no_effects();
        }
        self.start_loop();
        one_effect(Effect::Spawn { initial })
    }

    /// Starts the loop anew where there is one.
    pub fn restart_loop_for_config(&mut self, w: &World) -> (r: Vec<Effect>)
        ensures
            (final(self)@, deeds(r@)) == restarted(old(self)@, w@),
    {
        if !self.agent_alive(w) {
            return no_effects();
        }
        self.start_loop();
        let mut out = one_effect(Effect::Abort);
        push_effect(&mut out, Effect::Spawn { initial: None });
        assert(deeds(out@) =~= seq![Deed::Abort, Deed::Spawn { initial: None }]);
        out
    }

    /// Hands something to the loop where there is a channel to it, whatever comes
    /// of it.
    pub fn tell(&self, input: LoopInput) -> (r: Vec<Effect>)
        ensures
            deeds(r@) == send_if(self@.linked, input@),
    {
        if self.linked {
            one_effect(Effect::Send { input, receipt: Receipt::Ignored })
        } else {
            no_effects()
        }
    }

    /// Opens another conversation.
    pub fn switch_conversation(&mut self, name: &str) -> (r: Vec<Effect>)
        ensures
            (final(self)@, deeds(r@)) == switched(old(self)@, name@),
    {
        let mut out = self.tell(LoopInput::Interrupt);
        if self.held {
            push_effect(&mut out, Effect::Abort);
        }
        push_effect(&mut out, Effect::Open);
        assert(deeds(out@) =~= switched(self@, name@).1);
        self.held = false;
        self.linked = false;
        self.conversation = name.to_owned();
        self.stamp = None;
        self.state = None;
        self.scroll = 0;
        self.status = "".to_string();
        self.queued = no_texts();
        self.was_busy = false;
        self.pending = false;
        self.error = None;
        self.seen_compactions = usize::MAX;
        out
    }

    pub fn scroll_up(&mut self, lines: usize)
        ensures
            final(self)@ == (Desk {
                scroll: smaller(old(self)@.scroll + lines as nat, old(self)@.max_scroll),
                ..old(self)@
            }),
    {
        self.scroll = if self.scroll >= self.max_scroll || lines >= self.max_scroll - self.scroll {
            self.max_scroll
        } else {
            self.scroll + lines
        };
    }

    pub fn scroll_down(&mut self, lines: usize)
        ensures
            final(self)@ == (Desk {
                scroll: room(old(self)@.scroll, lines as nat),
                ..old(self)@
            }),
    {
        self.scroll = less(self.scroll, lines);
    }

    /// Sends one message to the loop, or starts one with it.
    pub fn submit_text(&mut self, text: String, w: &World) -> (r: Vec<Effect>)
        ensures
            (final(self)@, deeds(r@)) == submitted(old(self)@, text@, w@),
    {
        self.follow();
        if self.linked && self.agent_alive(w) {
            let waiting = match &self.state {
                Some(s) => s.status == HarnessStatus::WaitingForInput,
                None => false,
            };
            let input = if waiting {
                LoopInput::Answer { text }
            } else {
                LoopInput::UserMessage { text }
            };
            one_effect(Effect::Send { input, receipt: Receipt::Turn })
        } else {
            let out = self.spawn_loop(Some(text), w);
            self.begin_turn();
            out
        }
    }

    /// The loop took what it was handed, or it did not.
    pub fn delivered(&mut self, receipt: Receipt, ok: bool) -> (r: Vec<Effect>)
        ensures
            (final(self)@, deeds(r@)) == acknowledged(old(self)@, receipt, ok),
    {
        match receipt {
            Receipt::Ignored => no_effects(),
            Receipt::Turn => {
                if ok {
                    self.begin_turn();
                    no_effects()
                } else {
                    self.fail("agent loop is no longer accepting input")
                }
            },
            Receipt::Goal => {
                if ok {
                    self.say("Goal set — the agent will drive toward it. /goal cancel to stop.")
                } else {
                    self.say("Couldn't start the agent loop for the goal.")
                }
            },
            Receipt::Compaction => {
                if ok {
                    self.say("");
                    one_effect(Effect::Stream { text: "Compacting history…".to_string() })
                } else {
                    self.say("Failed to send compact request to the agent loop.")
                }
            },
        }
    }

    /// Submits what is held, each message for itself and in order.
    pub fn flush_queued_input(&mut self) -> (r: Vec<Effect>)
        ensures
            (final(self)@, deeds(r@)) == flushed(old(self)@),
    {
        let ghost goal = flushed(self@).1;
        let ghost all = self@.queued;
        let mut out = no_effects();
        for i in 0..self.queued.len()
            invariant
                all == texts(self.queued@),
                goal == all.map_values(|t: Seq<char>| Deed::Submit { text: t }),
                deeds(out@) == goal.take(i as int),
        {
            let text = self.queued[i].clone();
            proof {
                assert(all[i as int] == text@);
                assert(goal.take(i + 1) =~= goal.take(i as int).push(goal[i as int]));
            }
            push_effect(&mut out, Effect::Submit { text });
        }
        assert(goal.take(goal.len() as int) =~= goal);
        self.queued = no_texts();
        self.status = "".to_string();
        out
    }

    /// Interrupts a turn. Without one it is time to go.
    pub fn interrupt_or_quit(&mut self, w: &World) -> (r: Vec<Effect>)
        ensures
            (final(self)@, deeds(r@)) == interrupted(old(self)@, w@),
    {
        if self.agent_busy(w) {
            self.status = "Interrupting...".to_string();
            self.tell(LoopInput::Interrupt)
        } else {
            self.quit = true;
            no_effects()
        }
    }
}

} // verus!
