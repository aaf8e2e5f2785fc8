//! What the keys do.
use crate::app::{
    App, Around, Desk, Screen, World, alive, busy, interrupted, saying, send_if, shows_compaction,
    spawned, submitted, waiting_call,
};
use crate::asking::{
    Answering, Inquiry, Replied, Reply, answered, begun, current, nothing_asked,
    pending_question_text, questions, questions_of, waiting_text, what_is_selected_is_there,
};
use crate::blocks::smaller;
use crate::commands::commanded;
use crate::connecting::{connected, form_key};
use crate::effects::{Deed, Effect, LoopInput, Message, Receipt, deeds, no_effects, one_effect};
use crate::events::{Checkpoint, checkpoints_of};
use crate::form::turned_by_one;
use crate::keys::{Key, KeyCode};
use crate::pickers::{resume_key, theme_key};
use crate::profiles::{profiles_key, step};
use crate::prompt::{
    Draft, Prompt, backspaced, cleared, cut, deleted, detached_message, inserted_text, line_end,
    line_start, message, moved_down, moved_up, recalled_next, recalled_prev, remembered, with_input,
    word_after, word_before,
};
use crate::questions::{options, q_options};
use crate::style::room;
use crate::suggestions::{get_suggestions, suggested};
use crate::text::{
    cat2, cat3, cat4, contains_char, decimal, decimal_string, no_texts, push_text, same, starts,
    starts_with, starts_with_char, trim, trimmed,
};
use crate::vault::pair_texts;
use vstd::prelude::*;

verus! {

// ---------------------------------------------------------------------------
// Editing the prompt
// ---------------------------------------------------------------------------

/// A change to the prompt.
#[derive(Clone, Copy, PartialEq, Eq, Structural, Debug)]
pub enum Edit {
    Insert(char),
    Delete,
    WordBack,
    WordForward,
    ToStart,
    ToEnd,
    Home,
    End,
    Left,
    Right,
    PrevWord,
    NextWord,
    Up,
    Down,
    Clear,
}

/// The prompt after a change.
pub open spec fn applied(d: Draft, op: Edit) -> Draft {
    let c = d.cursor as int;
    let n = d.input.len();
    match op {
        Edit::Insert(x) => inserted_text(d, seq![x]),
        Edit::Delete => deleted(d),
        Edit::WordBack => cut(d, word_before(d.input, c), c),
        Edit::WordForward => cut(d, c, word_after(d.input, c)),
        Edit::ToStart => cut(d, 0, c),
        Edit::ToEnd => cut(d, c, n as int),
        Edit::Home => Draft { cursor: 0, ..d },
        Edit::End => Draft { cursor: n, ..d },
        Edit::Left => Draft { cursor: room(d.cursor, 1), ..d },
        Edit::Right => Draft { cursor: smaller(d.cursor + 1, n), ..d },
        Edit::PrevWord => Draft { cursor: word_before(d.input, c) as nat, ..d },
        Edit::NextWord => Draft { cursor: word_after(d.input, c) as nat, ..d },
        Edit::Up => moved_up(d),
        Edit::Down => moved_down(d),
        Edit::Clear => cleared(d),
    }
}

impl Prompt {
    /// Changes the prompt.
    pub fn apply(&mut self, op: Edit)
        ensures
            final(self)@ == applied(old(self)@, op),
    {
        match op {
            Edit::Insert(x) => self.insert(x),
            Edit::Delete => self.delete(),
            Edit::WordBack => self.delete_word_back(),
            Edit::WordForward => self.delete_word_forward(),
            Edit::ToStart => self.delete_to_start(),
            Edit::ToEnd => self.delete_to_end(),
            Edit::Home => self.move_home(),
            Edit::End => self.move_end(),
            Edit::Left => self.move_left(),
            Edit::Right => self.move_right(),
            Edit::PrevWord => self.move_prev_word(),
            Edit::NextWord => self.move_next_word(),
            Edit::Up => self.move_up(),
            Edit::Down => self.move_down(),
            Edit::Clear => self.clear(),
        }
    }
}

/// The prompt is changed.
pub open spec fn edited(d: Desk, op: Edit) -> (Desk, Seq<Deed>) {
    (Desk { draft: applied(d.draft, op), ..d }, Seq::empty())
}

/// The prompt is changed, and the first suggestion is selected again.
pub open spec fn edited_anew(d: Desk, op: Edit) -> (Desk, Seq<Deed>) {
    (Desk { draft: applied(d.draft, op), suggestion: 0, ..d }, Seq::empty())
}

/// The character before the cursor goes, or an attachment.
pub open spec fn backspace_key(d: Desk) -> (Desk, Seq<Deed>) {
    (
        Desk {
            draft: backspaced(d.draft),
            status: match detached_message(d.draft) {
                Some(m) => m,
                None => d.status,
            },
            suggestion: 0,
            ..d
        },
        Seq::empty(),
    )
}

/// The transcript is scrolled up.
pub open spec fn scrolled_up(d: Desk, lines: nat) -> (Desk, Seq<Deed>) {
    (Desk { scroll: smaller(d.scroll + lines, d.max_scroll), ..d }, Seq::empty())
}

/// The transcript is scrolled down.
pub open spec fn scrolled_down(d: Desk, lines: nat) -> (Desk, Seq<Deed>) {
    (Desk { scroll: room(d.scroll, lines), ..d }, Seq::empty())
}

impl App {
    fn edit(&mut self, op: Edit) -> (r: Vec<Effect>)
        ensures
            (final(self)@, deeds(r@)) == edited(old(self)@, op),
    {
        self.prompt.apply(op);
        no_effects()
    }

    fn edit_anew(&mut self, op: Edit) -> (r: Vec<Effect>)
        ensures
            (final(self)@, deeds(r@)) == edited_anew(old(self)@, op),
    {
        self.prompt.apply(op);
        self.suggestion = 0;
        no_effects()
    }

    fn press_backspace(&mut self) -> (r: Vec<Effect>)
        ensures
            (final(self)@, deeds(r@)) == backspace_key(old(self)@),
    {
        match self.prompt.backspace() {
            Some(m) => {
                self.status = m;
            },
            None => {},
        }
        self.suggestion = 0;
        no_effects()
    }

    fn press_up_by(&mut self, lines: usize) -> (r: Vec<Effect>)
        ensures
            (final(self)@, deeds(r@)) == scrolled_up(old(self)@, lines as nat),
    {
        self.scroll_up(lines);
        no_effects()
    }

    fn press_down_by(&mut self, lines: usize) -> (r: Vec<Effect>)
        ensures
            (final(self)@, deeds(r@)) == scrolled_down(old(self)@, lines as nat),
    {
        self.scroll_down(lines);
        no_effects()
    }
}

// ---------------------------------------------------------------------------
// Submitting
// ---------------------------------------------------------------------------

pub open spec fn queue_note(d: Desk, w: Around) -> Seq<char> {
    if shows_compaction(d, w) {
        "compacting context — your message will send once it's done"@
    } else {
        "queued ("@ + decimal(d.queued.len())
            + ") — sends when the run finishes · Esc to stop & send now"@
    }
}

/// A message is held until the turn is over.
pub open spec fn held_back(d: Desk, text: Seq<char>, w: Around) -> (Desk, Seq<Deed>) {
    let e = Desk { queued: d.queued.push(text), ..d };
    saying(e, queue_note(e, w))
}

/// What was sent is remembered, and the prompt is empty.
pub open spec fn sent_off(d: Desk, text: Seq<char>) -> Desk {
    Desk { draft: remembered(d.draft, text), scroll: 0, ..d }
}

/// What is in the prompt is submitted: a command is carried out, and a message is
/// sent, or held while a turn goes on.
pub open spec fn submitting(d: Desk, w: Around) -> (Desk, Seq<Deed>) {
    let text = trimmed(message(d.draft));
    if d.connecting {
        connected(d, w)
    } else if text.len() == 0 {
        if alive(d, w) {
            (d, Seq::empty())
        } else {
            saying(d, "Enter a task before starting."@)
        }
    } else {
        let e = sent_off(d, text);
        if text[0] == '/' {
            commanded(e, text, w)
        } else if busy(e, w) {
            held_back(e, text, w)
        } else {
            submitted(e, text, w)
        }
    }
}

impl App {
    fn send_off(&mut self, text: &str)
        ensures
            final(self)@ == sent_off(old(self)@, text@),
    {
        self.prompt.remember(text);
        self.scroll = 0;
    }

    fn enqueue(&mut self, text: String)
        ensures
            final(self)@ == (Desk { queued: old(self)@.queued.push(text@), ..old(self)@ }),
    {
        push_text(&mut self.queued, text);
    }

    fn hold_back(&mut self, text: String, w: &World) -> (r: Vec<Effect>)
        ensures
            (final(self)@, deeds(r@)) == held_back(old(self)@, text@, w@),
    {
        self.enqueue(text);
        assert(self@.queued.len() == self.queued@.len());
        if self.is_compacting(w) {
            self.say("compacting context — your message will send once it's done")
        } else {
            let n = decimal_string(self.queued.len() as u64);
            let note = cat3(
                "queued (",
                n.as_str(),
                ") — sends when the run finishes · Esc to stop & send now",
            );
            self.say(note.as_str())
        }
    }

    /// Submits what is in the prompt.
    pub fn submit(&mut self, w: &World) -> (r: Vec<Effect>)
        ensures
            (final(self)@, deeds(r@)) == submitting(old(self)@, w@),
    {
        if self.connecting {
            return self.login_connect(w);
        }
        let message = self.prompt.message_for_send();
        let text = trim(message.as_str());
        if text.as_str().is_empty() {
            if self.agent_alive(w) {
                return no_effects();
            }
            return self.say("Enter a task before starting.");
        }
        self.send_off(text.as_str());
        if starts_with_char(text.as_str(), '/') {
            self.handle_slash_command(text.as_str(), w)
        } else if self.agent_busy(w) {
            self.hold_back(text, w)
        } else {
            self.submit_text(text, w)
        }
    }
}

// ---------------------------------------------------------------------------
// Approving and questions
// ---------------------------------------------------------------------------

/// A key while a call waits for approval. All of several can be approved at once.
pub open spec fn approval_key(d: Desk, code: KeyCode, total: usize) -> (Desk, Seq<Deed>) {
    match code {
        KeyCode::Char(c) => if c == 'y' || c == 'Y' {
            (d, send_if(d.linked, Message::Approve))
        } else if (c == 'a' || c == 'A') && total > 1 {
            (d, send_if(d.linked, Message::ApproveAll))
        } else if c == 'n' || c == 'N' {
            (d, send_if(d.linked, Message::Deny))
        } else {
            (d, Seq::empty())
        },
        KeyCode::Esc => (
            Desk { status: "Interrupting…"@, ..d },
            send_if(d.linked, Message::Interrupt),
        ),
        _ => (d, Seq::empty()),
    }
}

/// The answers are complete: they are sent where a loop takes them, and nothing is
/// asked any more.
pub open spec fn answer_sent(d: Desk, text: Seq<char>, w: Around) -> (Desk, Seq<Deed>) {
    (
        Desk { draft: cleared(d.draft), scroll: 0, inquiry: nothing_asked(), ..d },
        if d.linked && alive(d, w) {
            seq![Deed::Send { input: Message::Answer { text }, receipt: Receipt::Turn }]
        } else {
            Seq::empty()
        },
    )
}

/// The question that waits is answered.
pub open spec fn answer_entered(d: Desk, w: Around) -> (Desk, Seq<Deed>) {
    let (q, reply) = answered(d.inquiry, questions(d.state), message(d.draft));
    let e = Desk { inquiry: q, ..d };
    match reply {
        Replied::Nothing => (e, Seq::empty()),
        Replied::NeedText => saying(e, "Type an answer, then press Enter."@),
        Replied::Next { typed } => if typed {
            edited(e, Edit::Clear)
        } else {
            (e, Seq::empty())
        },
        Replied::Complete { text } => answer_sent(e, text, w),
    }
}

/// How many answers can be picked for the question that waits.
pub open spec fn choices(d: Desk) -> nat {
    let list = questions(d.state);
    if list.len() == 0 {
        0
    } else {
        options(current(d.inquiry, list)).len()
    }
}

/// Another answer is selected.
pub open spec fn answer_chosen(d: Desk, i: nat) -> (Desk, Seq<Deed>) {
    (Desk { inquiry: Inquiry { sel: i, ..d.inquiry }, ..d }, Seq::empty())
}

/// A new asking is noticed.
pub open spec fn noticed(d: Desk) -> Desk {
    Desk { inquiry: begun(d.inquiry, d.state), ..d }
}

/// A key while a question waits, and whether it was for the question. Where an
/// answer is typed, only the key that enters it is.
pub open spec fn question_key(d: Desk, code: KeyCode, w: Around) -> ((Desk, Seq<Deed>), bool) {
    if waiting_text(d.state) is None {
        ((d, Seq::empty()), false)
    } else {
        let e = noticed(d);
        let n = choices(e);
        match code {
            KeyCode::Up => if n > 0 {
                (answer_chosen(e, turned_by_one(e.inquiry.sel, n, false)), true)
            } else {
                ((e, Seq::empty()), false)
            },
            KeyCode::Down => if n > 0 {
                (answer_chosen(e, turned_by_one(e.inquiry.sel, n, true)), true)
            } else {
                ((e, Seq::empty()), false)
            },
            KeyCode::Enter => (answer_entered(e, w), true),
            KeyCode::Char(_) => ((e, Seq::empty()), n > 0),
            KeyCode::Backspace => ((e, Seq::empty()), n > 0),
            _ => ((e, Seq::empty()), false),
        }
    }
}

impl App {
    fn handle_approval_key(&mut self, code: KeyCode, total: usize) -> (r: Vec<Effect>)
        ensures
            (final(self)@, deeds(r@)) == approval_key(old(self)@, code, total),
    {
        match code {
            KeyCode::Char(c) => {
                if c == 'y' || c == 'Y' {
                    self.tell(LoopInput::Approve)
                } else if (c == 'a' || c == 'A') && total > 1 {
                    self.tell(LoopInput::ApproveAll)
                } else if c == 'n' || c == 'N' {
                    self.tell(LoopInput::Deny)
                } else {
                    no_effects()
                }
            },
            KeyCode::Esc => {
                self.say("Interrupting…");
                self.tell(LoopInput::Interrupt)
            },
            _ => no_effects(),
        }
    }

    fn forget_questions(&mut self)
        ensures
            final(self)@ == (Desk { inquiry: nothing_asked(), ..old(self)@ }),
    {
        self.asking = Answering::new();
    }

    /// Sends the answers, where a loop takes them, and forgets the questions.
    pub fn finish_answer(&mut self, text: String, w: &World) -> (r: Vec<Effect>)
        ensures
            (final(self)@, deeds(r@)) == answer_sent(old(self)@, text@, w@),
    {
        let open = self.linked && self.agent_alive(w);
        self.edit(Edit::Clear);
        self.follow();
        self.forget_questions();
        if open {
            one_effect(
                Effect::Send { input: LoopInput::Answer { text }, receipt: Receipt::Turn },
            )
        } else {
            no_effects()
        }
    }

    fn take_answer(&mut self) -> (r: Reply)
        requires
            old(self)@.inquiry.index < usize::MAX,
        ensures
            ({
                let d = old(self)@;
                let (q, reply) = answered(d.inquiry, questions(d.state), message(d.draft));
                final(self)@ == (Desk { inquiry: q, ..d }) && r@ == reply
            }),
    {
        let typed = self.prompt.message_for_send();
        self.asking.answer(&self.state, typed.as_str())
    }

    /// Answers the question that waits.
    pub fn answer_current_question(&mut self, w: &World) -> (r: Vec<Effect>)
        requires
            old(self)@.inquiry.index < usize::MAX,
        ensures
            (final(self)@, deeds(r@)) == answer_entered(old(self)@, w@),
    {
        match self.take_answer() {
            Reply::Nothing => no_effects(),
            Reply::NeedText => self.say("Type an answer, then press Enter."),
            Reply::Next { typed } => {
                if typed {
                    self.edit(Edit::Clear)
                } else {
                    no_effects()
                }
            },
            Reply::Complete { text } => self.finish_answer(text, w),
        }
    }

    /// Notices a new asking.
    pub fn ensure_q_init(&mut self)
        ensures
            final(self)@ == noticed(old(self)@),
    {
        self.asking.begin(&self.state);
    }

    /// How many answers can be picked for the question that waits.
    pub(crate) fn count_choices(&self) -> (r: usize)
        ensures
            r == choices(self@),
            questions(self@.state).len() <= usize::MAX,
    {
        let qs = questions_of(&self.state);
        let ghost list = questions(self@.state);
        assert(list.len() == qs@.len());
        let n: usize = qs.len();
        if n == 0 {
            return 0;
        }
        let i: usize = if self.asking.index <= qs.len() - 1 {
            self.asking.index
        } else {
            qs.len() - 1
        };
        assert(list[i as int] == qs@[i as int]@);
        let opts = q_options(&qs[i]);
        assert(pair_texts(opts@).len() == opts@.len());
        opts.len()
    }

    fn choose_answer(&mut self, i: usize) -> (r: Vec<Effect>)
        ensures
            (final(self)@, deeds(r@)) == answer_chosen(old(self)@, i as nat),
    {
        self.asking.sel = i;
        no_effects()
    }

    /// A key while a question may wait. Says whether it was for the question.
    pub fn handle_question_key(&mut self, code: KeyCode, w: &World) -> (r: (Vec<Effect>, bool))
        ensures
            ((final(self)@, deeds(r.0@)), r.1) == question_key(old(self)@, code, w@),
    {
        if pending_question_text(&self.state).is_none() {
            return (no_effects(), false);
        }
        self.ensure_q_init();
        let n = self.count_choices();
        let sel = self.asking.sel;
        match code {
            KeyCode::Up => {
                if n > 0 {
                    (self.choose_answer(step(sel, n, false)), true)
                } else {
                    (no_effects(), false)
                }
            },
            KeyCode::Down => {
                if n > 0 {
                    (self.choose_answer(step(sel, n, true)), true)
                } else {
                    (no_effects(), false)
                }
            },
            KeyCode::Enter => {
                proof {
                    what_is_selected_is_there(old(self)@.inquiry, old(self)@.state);
                }
                (self.answer_current_question(w), true)
            },
            KeyCode::Char(_) | KeyCode::Backspace => (no_effects(), n > 0),
            _ => (no_effects(), false),
        }
    }
}

// ---------------------------------------------------------------------------
// Suggestions
// ---------------------------------------------------------------------------

/// What the prompt can be completed to.
pub open spec fn offered(d: Desk, w: Around) -> Seq<(Seq<char>, Seq<char>)> {
    suggested(
        d.draft.input,
        w.sessions,
        match d.state {
            Some(c) => c.checkpoints,
            None => Seq::empty(),
        },
    )
}

/// The prompt holds a text, and the first suggestion is selected.
pub open spec fn completed(d: Desk, text: Seq<char>) -> (Desk, Seq<Deed>) {
    (Desk { draft: with_input(d.draft, text), suggestion: 0, ..d }, Seq::empty())
}

/// Another suggestion is selected.
pub open spec fn suggestion_chosen(d: Desk, i: nat) -> (Desk, Seq<Deed>) {
    (Desk { suggestion: i, ..d }, Seq::empty())
}

/// A suggestion that is complete as it stands.
pub open spec fn runs_at_once(input: Seq<char>, command: Seq<char>) -> bool {
    input == command || starts(command, "/resume "@) || starts(command, "/rewind "@) || starts(
        command,
        "/profile "@,
    )
}

/// A key while there are suggestions, and whether it was for them.
pub open spec fn suggestion_key(
    d: Desk,
    code: KeyCode,
    list: Seq<(Seq<char>, Seq<char>)>,
    w: Around,
) -> ((Desk, Seq<Deed>), bool) {
    let command = list[d.suggestion as int].0;
    match code {
        KeyCode::Tab => (
            completed(
                d,
                if command.contains(' ') {
                    command
                } else {
                    command + " "@
                },
            ),
            true,
        ),
        KeyCode::Down => (suggestion_chosen(d, turned_by_one(d.suggestion, list.len(), true)), true),
        KeyCode::Up => (suggestion_chosen(d, turned_by_one(d.suggestion, list.len(), false)), true),
        KeyCode::BackTab => (
            suggestion_chosen(d, turned_by_one(d.suggestion, list.len(), false)),
            true,
        ),
        KeyCode::Enter => if runs_at_once(d.draft.input, command) {
            (submitting(Desk { draft: with_input(d.draft, command), ..d }, w), true)
        } else {
            (completed(d, command + " "@), true)
        },
        _ => ((d, Seq::empty()), false),
    }
}

/// A suggestion that is there is selected.
pub open spec fn within(d: Desk, n: nat) -> Desk {
    if d.suggestion >= n {
        Desk { suggestion: 0, ..d }
    } else {
        d
    }
}

impl App {
    /// What the prompt can be completed to.
    pub fn suggestions(&self, w: &World) -> (r: Vec<(String, String)>)
        ensures
            pair_texts(r@) == offered(self@, w@),
    {
        match &self.state {
            Some(s) => get_suggestions(self.prompt.input().as_str(), &w.sessions, &s.checkpoints),
            None => {
                let none: Vec<Checkpoint> = Vec::new();
                assert(checkpoints_of(none@) =~= Seq::empty());
                get_suggestions(self.prompt.input().as_str(), &w.sessions, &none)
            },
        }
    }

    fn complete(&mut self, text: String) -> (r: Vec<Effect>)
        ensures
            (final(self)@, deeds(r@)) == completed(old(self)@, text@),
    {
        self.prompt.set(text);
        self.suggestion = 0;
        no_effects()
    }

    fn choose_suggestion(&mut self, i: usize) -> (r: Vec<Effect>)
        ensures
            (final(self)@, deeds(r@)) == suggestion_chosen(old(self)@, i as nat),
    {
        self.suggestion = i;
        no_effects()
    }

    fn set_input(&mut self, text: &str)
        ensures
            final(self)@ == (Desk {
                draft: with_input(old(self)@.draft, text@),
                ..old(self)@
            }),
    {
        self.prompt.set(text.to_owned());
    }

    fn stay_within(&mut self, n: usize)
        ensures
            final(self)@ == within(old(self)@, n as nat),
    {
        if self.suggestion >= n {
            self.suggestion = 0;
        }
    }

    fn handle_suggestion_key(&mut self, code: KeyCode, list: &Vec<(String, String)>, w: &World) -> (r: (
        Vec<Effect>,
        bool,
    ))
        requires
            old(self)@.suggestion < list@.len(),
        ensures
            ((final(self)@, deeds(r.0@)), r.1) == suggestion_key(
                old(self)@,
                code,
                pair_texts(list@),
                w@,
            ),
    {
        let at = self.suggestion;
        let command = list[at].0.as_str();
        assert(pair_texts(list@)[at as int].0 == command@);
        assert(pair_texts(list@).len() == list@.len());
        match code {
            KeyCode::Tab => {
                let text = if contains_char(command, ' ') {
                    command.to_owned()
                } else {
                    cat2(command, " ")
                };
                (self.complete(text), true)
            },
            KeyCode::Down => (self.choose_suggestion(step(at, list.len(), true)), true),
            KeyCode::Up | KeyCode::BackTab => (
                self.choose_suggestion(step(at, list.len(), false)),
                true,
            ),
            KeyCode::Enter => {
                let now = same(self.prompt.input().as_str(), command) || starts_with(
                    command,
                    "/resume ",
                ) || starts_with(command, "/rewind ") || starts_with(command, "/profile ");
                if now {
                    self.set_input(command);
                    (self.submit(w), true)
                } else {
                    (self.complete(cat2(command, " ")), true)
                }
            },
            _ => (no_effects(), false),
        }
    }
}

// ---------------------------------------------------------------------------
// The prompt and the transcript
// ---------------------------------------------------------------------------

/// Up: what was sent before, from the first line of the prompt; without any, the
/// transcript.
pub open spec fn up_key(d: Desk) -> (Desk, Seq<Deed>) {
    if line_start(d.draft.input, d.draft.cursor as int) != 0 {
        edited(d, Edit::Up)
    } else if d.draft.history.len() > 0 {
        (Desk { draft: recalled_prev(d.draft), ..d }, Seq::empty())
    } else {
        scrolled_up(d, 1)
    }
}

/// Down: what was sent next, from the last line of the prompt; without any, the
/// transcript.
pub open spec fn down_key(d: Desk) -> (Desk, Seq<Deed>) {
    if line_end(d.draft.input, d.draft.cursor as int) != d.draft.input.len() {
        edited(d, Edit::Down)
    } else if d.draft.recalled is Some {
        (Desk { draft: recalled_next(d.draft), ..d }, Seq::empty())
    } else {
        scrolled_down(d, 1)
    }
}

/// Escape: an empty prompt, or else the loop is interrupted.
pub open spec fn escape_key(d: Desk, w: Around) -> (Desk, Seq<Deed>) {
    if d.draft.input.len() > 0 {
        edited_anew(d, Edit::Clear)
    } else if alive(d, w) {
        (
            Desk { status: "Interrupting..."@, ..d },
            send_if(d.linked, Message::Interrupt),
        )
    } else {
        (d, Seq::empty())
    }
}

/// A character is typed. With Alt held, a few of them move or delete by words.
pub open spec fn character_key(d: Desk, c: char, alt: bool) -> (Desk, Seq<Deed>) {
    if !alt {
        edited_anew(d, Edit::Insert(c))
    } else if c == 'b' {
        edited(d, Edit::PrevWord)
    } else if c == 'f' {
        edited(d, Edit::NextWord)
    } else if c == 'd' {
        edited_anew(d, Edit::WordForward)
    } else {
        (d, Seq::empty())
    }
}

/// A key that nothing else took.
pub open spec fn prompt_key(d: Desk, key: Key, w: Around) -> (Desk, Seq<Deed>) {
    let empty = d.draft.input.len() == 0;
    match key.code {
        KeyCode::Enter => if key.alt || key.shift {
            edited_anew(d, Edit::Insert('\n'))
        } else {
            submitting(d, w)
        },
        KeyCode::Up => up_key(d),
        KeyCode::Down => down_key(d),
        KeyCode::PageUp => scrolled_up(d, 10),
        KeyCode::PageDown => scrolled_down(d, 10),
        KeyCode::Home => if empty {
            scrolled_up(d, usize::MAX as nat)
        } else {
            edited(d, Edit::Home)
        },
        KeyCode::End => if empty {
            (Desk { scroll: 0, ..d }, Seq::empty())
        } else {
            edited(d, Edit::End)
        },
        KeyCode::Left => if key.alt {
            edited(d, Edit::PrevWord)
        } else {
            edited(d, Edit::Left)
        },
        KeyCode::Right => if key.alt {
            edited(d, Edit::NextWord)
        } else {
            edited(d, Edit::Right)
        },
        KeyCode::Esc => escape_key(d, w),
        KeyCode::Backspace => if key.alt {
            edited_anew(d, Edit::WordBack)
        } else {
            backspace_key(d)
        },
        KeyCode::Delete => if key.alt {
            edited_anew(d, Edit::WordForward)
        } else {
            edited_anew(d, Edit::Delete)
        },
        KeyCode::Char(c) => character_key(d, c, key.alt),
        _ => (d, Seq::empty()),
    }
}

impl App {
    fn recall_prev(&mut self) -> (r: bool)
        ensures
            final(self)@ == (Desk { draft: recalled_prev(old(self)@.draft), ..old(self)@ }),
            r == (old(self)@.draft.history.len() > 0),
            !r ==> final(self)@ == old(self)@,
    {
        self.prompt.recall_prev()
    }

    fn recall_next(&mut self) -> (r: bool)
        ensures
            final(self)@ == (Desk { draft: recalled_next(old(self)@.draft), ..old(self)@ }),
            r == (old(self)@.draft.recalled is Some),
    {
        self.prompt.recall_next()
    }

    fn press_up(&mut self) -> (r: Vec<Effect>)
        ensures
            (final(self)@, deeds(r@)) == up_key(old(self)@),
    {
        if !self.prompt.on_first_line() {
            return self.edit(Edit::Up);
        }
        if self.recall_prev() {
            no_effects()
        } else {
            self.press_up_by(1)
        }
    }

    fn press_down(&mut self) -> (r: Vec<Effect>)
        ensures
            (final(self)@, deeds(r@)) == down_key(old(self)@),
    {
        if !self.prompt.on_last_line() {
            return self.edit(Edit::Down);
        }
        if self.recall_next() {
            no_effects()
        } else {
            self.press_down_by(1)
        }
    }

    fn press_escape(&mut self, w: &World) -> (r: Vec<Effect>)
        ensures
            (final(self)@, deeds(r@)) == escape_key(old(self)@, w@),
    {
        if !self.prompt.input().as_str().is_empty() {
            self.edit_anew(Edit::Clear)
        } else if self.agent_alive(w) {
            self.say("Interrupting...");
            self.tell(LoopInput::Interrupt)
        } else {
            no_effects()
        }
    }

    fn press_character(&mut self, c: char, alt: bool) -> (r: Vec<Effect>)
        ensures
            (final(self)@, deeds(r@)) == character_key(old(self)@, c, alt),
    {
        if !alt {
            self.edit_anew(Edit::Insert(c))
        } else if c == 'b' {
            self.edit(Edit::PrevWord)
        } else if c == 'f' {
            self.edit(Edit::NextWord)
        } else if c == 'd' {
            self.edit_anew(Edit::WordForward)
        } else {
            no_effects()
        }
    }

    fn handle_prompt_key(&mut self, key: Key, w: &World) -> (r: Vec<Effect>)
        ensures
            (final(self)@, deeds(r@)) == prompt_key(old(self)@, key, w@),
    {
        let empty = self.prompt.input().as_str().is_empty();
        match key.code {
            KeyCode::Enter => {
                if key.alt || key.shift {
                    self.edit_anew(Edit::Insert('\n'))
                } else {
                    self.submit(w)
                }
            },
            KeyCode::Up => self.press_up(),
            KeyCode::Down => self.press_down(),
            KeyCode::PageUp => self.press_up_by(10),
            KeyCode::PageDown => self.press_down_by(10),
            KeyCode::Home => {
                if empty {
                    self.press_up_by(usize::MAX)
                } else {
                    self.edit(Edit::Home)
                }
            },
            KeyCode::End => {
                if empty {
                    self.follow();
                    no_effects()
                } else {
                    self.edit(Edit::End)
                }
            },
            KeyCode::Left => self.edit(
                if key.alt {
                    Edit::PrevWord
                } else {
                    Edit::Left
                },
            ),
            KeyCode::Right => self.edit(
                if key.alt {
                    Edit::NextWord
                } else {
                    Edit::Right
                },
            ),
            KeyCode::Esc => self.press_escape(w),
            KeyCode::Backspace => {
                if key.alt {
                    self.edit_anew(Edit::WordBack)
                } else {
                    self.press_backspace()
                }
            },
            KeyCode::Delete => self.edit_anew(
                if key.alt {
                    Edit::WordForward
                } else {
                    Edit::Delete
                },
            ),
            KeyCode::Char(c) => self.press_character(c, key.alt),
            _ => no_effects(),
        }
    }
}

// ---------------------------------------------------------------------------
// All keys
// ---------------------------------------------------------------------------

pub open spec fn cancelled_note(n: nat) -> Seq<char> {
    "cancelled "@ + decimal(n) + " queued message"@ + (if n == 1 {
        ""@
    } else {
        "s"@
    })
}

/// What is held is dropped.
pub open spec fn queue_cancelled(d: Desk) -> (Desk, Seq<Deed>) {
    if d.queued.len() == 0 {
        (d, Seq::empty())
    } else {
        saying(Desk { queued: Seq::empty(), ..d }, cancelled_note(d.queued.len()))
    }
}

/// A key with Control held that edits the prompt.
pub open spec fn control_edit(d: Desk, code: KeyCode) -> (Desk, Seq<Deed>) {
    match code {
        KeyCode::Char(c) => if c == 'w' {
            edited_anew(d, Edit::WordBack)
        } else if c == 'u' {
            edited_anew(d, Edit::ToStart)
        } else if c == 'k' {
            edited(d, Edit::ToEnd)
        } else if c == 'a' {
            edited(d, Edit::Home)
        } else if c == 'e' {
            edited(d, Edit::End)
        } else {
            (d, Seq::empty())
        },
        KeyCode::Left => edited(d, Edit::PrevWord),
        KeyCode::Right => edited(d, Edit::NextWord),
        _ => (d, Seq::empty()),
    }
}

/// A key with Control held.
pub open spec fn control_key(d: Desk, code: KeyCode, w: Around) -> (Desk, Seq<Deed>) {
    if code == KeyCode::Char('q') || code == KeyCode::Char('d') {
        (Desk { quit: true, ..d }, Seq::empty())
    } else if code == KeyCode::Char('c') {
        interrupted(d, w)
    } else if code == KeyCode::Char('r') {
        spawned(d, w, None)
    } else if code == KeyCode::Char('v') {
        (d, seq![Deed::PasteImage])
    } else if code == KeyCode::Char('x') {
        queue_cancelled(d)
    } else if d.screen == Screen::Main {
        control_edit(d, code)
    } else {
        (d, Seq::empty())
    }
}

/// A key on the main screen that no chord and no approval took.
pub open spec fn main_key(d: Desk, key: Key, w: Around) -> (Desk, Seq<Deed>) {
    let (first, taken) = question_key(d, key.code, w);
    if taken {
        first
    } else {
        let list = offered(first.0, w);
        if list.len() == 0 {
            prompt_key(first.0, key, w)
        } else {
            let (second, taken) = suggestion_key(within(first.0, list.len()), key.code, list, w);
            if taken {
                second
            } else {
                prompt_key(second.0, key, w)
            }
        }
    }
}

/// A key. It clears an error, which has been seen then.
pub open spec fn pressed(d: Desk, key: Key, w: Around) -> (Desk, Seq<Deed>) {
    let e = Desk { error: None, ..d };
    if e.connecting {
        form_key(e, key, w)
    } else if e.screen == Screen::Main && waiting_call(e) is Some {
        approval_key(e, key.code, waiting_total(e))
    } else if key.ctrl {
        control_key(e, key.code, w)
    } else if e.screen == Screen::Profiles {
        profiles_key(e, key.code, w)
    } else if e.screen == Screen::ThemeSelection {
        theme_key(e, key.code, w)
    } else if e.screen == Screen::ResumeSelection {
        resume_key(e, key.code, w)
    } else {
        main_key(e, key, w)
    }
}

/// How many calls wait for approval.
pub open spec fn waiting_total(d: Desk) -> usize {
    match waiting_call(d) {
        Some(a) => a.3,
        None => 0,
    }
}

impl App {
    fn leave(&mut self) -> (r: Vec<Effect>)
        ensures
            (final(self)@, deeds(r@)) == (
                (Desk { quit: true, ..old(self)@ }),
                Seq::<Deed>::empty(),
            ),
    {
        self.quit = true;
        no_effects()
    }

    fn drop_queue(&mut self)
        ensures
            final(self)@ == (Desk { queued: Seq::empty(), ..old(self)@ }),
    {
        self.queued = no_texts();
    }

    /// Drops what is held.
    pub fn cancel_queue(&mut self) -> (r: Vec<Effect>)
        ensures
            (final(self)@, deeds(r@)) == queue_cancelled(old(self)@),
    {
        let n = self.queued.len();
        assert(self@.queued.len() == n);
        if n == 0 {
            return no_effects();
        }
        self.drop_queue();
        let count = decimal_string(n as u64);
        let end = if n == 1 {
            ""
        } else {
            "s"
        };
        let note = cat4("cancelled ", count.as_str(), " queued message", end);
        self.say(note.as_str())
    }

    fn handle_control_edit(&mut self, code: KeyCode) -> (r: Vec<Effect>)
        ensures
            (final(self)@, deeds(r@)) == control_edit(old(self)@, code),
    {
        match code {
            KeyCode::Char(c) => {
                if c == 'w' {
                    self.edit_anew(Edit::WordBack)
                } else if c == 'u' {
                    self.edit_anew(Edit::ToStart)
                } else if c == 'k' {
                    self.edit(Edit::ToEnd)
                } else if c == 'a' {
                    self.edit(Edit::Home)
                } else if c == 'e' {
                    self.edit(Edit::End)
                } else {
                    no_effects()
                }
            },
            KeyCode::Left => self.edit(Edit::PrevWord),
            KeyCode::Right => self.edit(Edit::NextWord),
            _ => no_effects(),
        }
    }

    fn handle_control_key(&mut self, code: KeyCode, w: &World) -> (r: Vec<Effect>)
        ensures
            (final(self)@, deeds(r@)) == control_key(old(self)@, code, w@),
    {
        if code == KeyCode::Char('q') || code == KeyCode::Char('d') {
            self.leave()
        } else if code == KeyCode::Char('c') {
            self.interrupt_or_quit(w)
        } else if code == KeyCode::Char('r') {
            self.spawn_loop(None, w)
        } else if code == KeyCode::Char('v') {
            one_effect(Effect::PasteImage)
        } else if code == KeyCode::Char('x') {
            self.cancel_queue()
        } else if self.screen == Screen::Main {
            self.handle_control_edit(code)
        } else {
            no_effects()
        }
    }

    fn handle_main_key(&mut self, key: Key, w: &World) -> (r: Vec<Effect>)
        ensures
            (final(self)@, deeds(r@)) == main_key(old(self)@, key, w@),
    {
        let (out, taken) = self.handle_question_key(key.code, w);
        if taken {
            return out;
        }
        let list = self.suggestions(w);
        assert(pair_texts(list@).len() == list@.len());
        if list.len() == 0 {
            return self.handle_prompt_key(key, w);
        }
        self.stay_within(list.len());
        let (out, taken) = self.handle_suggestion_key(key.code, &list, w);
        if taken {
            out
        } else {
            self.handle_prompt_key(key, w)
        }
    }

    fn clear_error(&mut self)
        ensures
            final(self)@ == (Desk { error: None, ..old(self)@ }),
    {
        self.error = None;
    }

    /// Takes a key.
    pub fn handle_key(&mut self, key: Key, w: &World) -> (r: Vec<Effect>)
        ensures
            (final(self)@, deeds(r@)) == pressed(old(self)@, key, w@),
    {
        self.clear_error();
        if self.connecting {
            return self.handle_login_key(key, w);
        }
        if self.screen == Screen::Main {
            match self.pending_approval() {
                Some((_, _, _, total)) => {
                    return self.handle_approval_key(key.code, total);
                },
                None => {},
            }
        }
        if key.ctrl {
            return self.handle_control_key(key.code, w);
        }
        match self.screen {
            Screen::Profiles => self.handle_profiles_key(key.code, w),
            Screen::ThemeSelection => self.handle_theme_key(key.code, w),
            Screen::ResumeSelection => self.handle_resume_key(key.code, w),
            Screen::Main => self.handle_main_key(key, w),
        }
    }
}

} // verus!
