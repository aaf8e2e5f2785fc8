//! Answering the questions of a conversation one after the other.
use crate::blocks::smaller;
use crate::events::{Conversation, Happening, HarnessEvent, HarnessState, HarnessStatus, happenings};
use crate::json::{Json, Value, values};
use crate::questions::{
    options, q_options, q_text, question_list, question_text, questions_text, text_of_question,
};
use crate::style::room;
use crate::suggestions::{no_pairs, push_pair};
use crate::table::larger;
use crate::text::{
    blank, cat3, cat5, decimal, decimal_string, decimal_wide, is_blank, join, joined, lemma_decimal,
    lemma_decimal_injective, no_texts, opt_text, push_text, same, texts, trim, trimmed,
};
use crate::vault::pair_texts;
use vstd::prelude::*;

verus! {

/// What a conversation is, where there is one.
pub open spec fn told(state: Option<HarnessState>) -> Option<Conversation> {
    match state {
        Some(s) => Some(s@),
        None => None,
    }
}

/// The questions that wait for an answer.
pub open spec fn questions(c: Option<Conversation>) -> Seq<Value> {
    match c {
        Some(c) => if c.status != HarnessStatus::WaitingForInput {
            Seq::empty()
        } else {
            match c.pending_question {
                Some(p) => match question_list(p) {
                    Some(list) => list,
                    None => Seq::empty(),
                },
                None => Seq::empty(),
            }
        },
        None => Seq::empty(),
    }
}

/// The text of the questions that wait for an answer.
pub open spec fn waiting_text(c: Option<Conversation>) -> Option<Seq<char>> {
    match c {
        Some(c) => if c.status != HarnessStatus::WaitingForInput {
            None
        } else {
            match c.pending_question {
                Some(p) => questions_text(p),
                None => None,
            }
        },
        None => None,
    }
}

/// The questions that wait for an answer.
pub fn questions_of(state: &Option<HarnessState>) -> (r: Vec<Json>)
    ensures
        values(r@) == questions(told(*state)),
{
    let mut out: Vec<Json> = Vec::new();
    assert(values(out@) =~= Seq::empty());
    match state {
        Some(s) => {
            if s.status != HarnessStatus::WaitingForInput {
                return out;
            }
            match &s.pending_question {
                Some(p) => match p.array_at("questions") {
                    Some(list) => {
                        let ghost all = values(list@);
                        for i in 0..list.len()
                            invariant
                                all == values(list@),
                                values(out@) == all.take(i as int),
                        {
                            let ghost before = values(out@);
                            let q = list[i].copy();
                            out.push(q);
                            assert(values(out@) =~= before.push(all[i as int]));
                            assert(all.take(i + 1) =~= all.take(i as int).push(all[i as int]));
                        }
                        assert(all.take(all.len() as int) =~= all);
                    },
                    None => {},
                },
                None => {},
            }
        },
        None => {},
    }
    out
}

/// The text of the questions that wait for an answer, where there is any.
pub fn pending_question_text(state: &Option<HarnessState>) -> (r: Option<String>)
    ensures
        opt_text(r) == waiting_text(told(*state)),
{
    match state {
        Some(s) => {
            if s.status != HarnessStatus::WaitingForInput {
                return None;
            }
            match &s.pending_question {
                Some(p) => question_text(p),
                None => None,
            }
        },
        None => None,
    }
}

/// Where the answering stands.
pub struct Answering {
    /// The question that is answered now.
    pub index: usize,
    /// The answer that is selected.
    pub sel: usize,
    /// The questions answered so far, with their answers.
    pub answers: Vec<(String, String)>,
    /// Tells one asking from another.
    pub token: String,
}

pub ghost struct Inquiry {
    pub index: nat,
    pub sel: nat,
    pub answers: Seq<(Seq<char>, Seq<char>)>,
    pub token: Seq<char>,
}

impl View for Answering {
    type V = Inquiry;

    open spec fn view(&self) -> Inquiry {
        Inquiry {
            index: self.index as nat,
            sel: self.sel as nat,
            answers: pair_texts(self.answers@),
            token: self.token@,
        }
    }
}

/// Nothing is being answered.
pub open spec fn nothing_asked() -> Inquiry {
    Inquiry { index: 0, sel: 0, answers: Seq::empty(), token: ""@ }
}

/// How often questions were asked.
pub open spec fn times_asked(events: Seq<Happening>) -> nat
    decreases events.len(),
{
    if events.len() == 0 {
        0
    } else {
        times_asked(events.drop_last()) + (if events.last() is UserQuestion {
            1nat
        } else {
            0
        })
    }
}

pub open spec fn asked_in(c: Option<Conversation>) -> nat {
    match c {
        Some(c) => times_asked(c.events),
        None => 0,
    }
}

/// What tells one asking from another: how often was asked, and the texts.
pub open spec fn asking_token(c: Option<Conversation>) -> Seq<char> {
    decimal(asked_in(c)) + "\u{1}"@ + joined(
        questions(c).map_values(|q: Value| text_of_question(q)),
        "\u{1}"@,
    )
}

/// A new asking begins with its first question, and what is selected is there.
pub open spec fn begun(q: Inquiry, c: Option<Conversation>) -> Inquiry {
    let list = questions(c);
    let token = asking_token(c);
    let q = if token != q.token {
        Inquiry { index: 0, sel: 0, answers: Seq::empty(), token }
    } else {
        q
    };
    let q = if q.index >= larger(list.len(), 1) {
        Inquiry { index: (larger(list.len(), 1) - 1) as nat, ..q }
    } else {
        q
    };
    if q.index < list.len() {
        let n = options(list[q.index as int]).len();
        if n > 0 && q.sel >= n {
            Inquiry { sel: 0, ..q }
        } else {
            q
        }
    } else {
        q
    }
}

fn count_asked(events: &Vec<HarnessEvent>) -> (r: usize)
    ensures
        r == times_asked(happenings(events@)),
        r <= events.len(),
{
    let ghost all = happenings(events@);
    let mut n: usize = 0;
    for i in 0..events.len()
        invariant
            all == happenings(events@),
            n == times_asked(all.take(i as int)),
            n <= i,
    {
        assert(all.take(i + 1).drop_last() =~= all.take(i as int));
        assert(all.take(i + 1).last() == events@[i as int]@);
        match &events[i] {
            HarnessEvent::UserQuestion { .. } => {
                n += 1;
            },
            _ => {},
        }
    }
    assert(all.take(all.len() as int) =~= all);
    n
}

fn make_token(state: &Option<HarnessState>, qs: &Vec<Json>) -> (r: String)
    requires
        values(qs@) == questions(told(*state)),
    ensures
        r@ == asking_token(told(*state)),
{
    let n: usize = match state {
        Some(s) => count_asked(&s.events),
        None => 0,
    };
    let ghost goal = questions(told(*state)).map_values(|q: Value| text_of_question(q));
    let mut parts = no_texts();
    for i in 0..qs.len()
        invariant
            goal == values(qs@).map_values(|q: Value| text_of_question(q)),
            texts(parts@) == goal.take(i as int),
    {
        push_text(&mut parts, q_text(&qs[i]));
        assert(goal[i as int] == text_of_question(qs@[i as int]@));
        assert(goal.take(i + 1) =~= goal.take(i as int).push(goal[i as int]));
    }
    assert(goal.take(goal.len() as int) =~= goal);
    let d = decimal_string(n as u64);
    let rest = join(&parts, "\u{1}");
    cat3(d.as_str(), "\u{1}", rest.as_str())
}

/// What follows from answering a question.
pub enum Reply {
    /// There is no question.
    Nothing,
    /// An answer has to be typed first.
    NeedText,
    /// There are more questions. What was typed was taken for an answer, or one
    /// was selected.
    Next { typed: bool },
    /// All are answered: what is sent.
    Complete { text: String },
}

pub ghost enum Replied {
    Nothing,
    NeedText,
    Next { typed: bool },
    Complete { text: Seq<char> },
}

impl View for Reply {
    type V = Replied;

    open spec fn view(&self) -> Replied {
        match *self {
            Reply::Nothing => Replied::Nothing,
            Reply::NeedText => Replied::NeedText,
            Reply::Next { typed } => Replied::Next { typed },
            Reply::Complete { text } => Replied::Complete { text: text@ },
        }
    }
}

/// The answer to a question: the one selected, or what was typed where none can be
/// selected.
pub open spec fn answer_to(q: Value, sel: nat, typed: Seq<char>) -> Seq<char> {
    let list = options(q);
    if list.len() == 0 {
        trimmed(typed)
    } else {
        list[smaller(sel, (list.len() - 1) as nat) as int].0
    }
}

/// The answers with their questions, numbered.
pub open spec fn numbered_answers(answers: Seq<(Seq<char>, Seq<char>)>) -> Seq<Seq<char>> {
    Seq::new(
        answers.len(),
        |i: int| decimal((i + 1) as nat) + ". "@ + answers[i].0 + " → "@ + answers[i].1,
    )
}

/// All answers in one text. One alone stands for itself.
pub open spec fn combined(answers: Seq<(Seq<char>, Seq<char>)>) -> Seq<char> {
    if answers.len() == 1 {
        answers[0].1
    } else {
        joined(numbered_answers(answers), "\n"@)
    }
}

/// The question that is answered now.
pub open spec fn current(q: Inquiry, list: Seq<Value>) -> Value {
    list[smaller(q.index, room(list.len(), 1)) as int]
}

/// The current question is answered.
pub open spec fn answered(q: Inquiry, list: Seq<Value>, typed: Seq<char>) -> (Inquiry, Replied) {
    if list.len() == 0 {
        (q, Replied::Nothing)
    } else {
        let question = current(q, list);
        let open = options(question).len() == 0;
        if open && blank(typed) {
            (q, Replied::NeedText)
        } else {
            let answers = q.answers.push(
                (text_of_question(question), answer_to(question, q.sel, typed)),
            );
            if q.index + 1 >= list.len() {
                (nothing_asked(), Replied::Complete { text: combined(answers) })
            } else {
                (
                    Inquiry { index: q.index + 1, sel: 0, answers, ..q },
                    Replied::Next { typed: open },
                )
            }
        }
    }
}

fn combine(answers: &Vec<(String, String)>) -> (r: String)
    ensures
        r@ == combined(pair_texts(answers@)),
{
    let ghost all = pair_texts(answers@);
    if answers.len() == 1 {
        assert(all[0].1 == answers@[0].1@);
        return answers[0].1.clone();
    }
    let ghost goal = numbered_answers(all);
    let mut parts = no_texts();
    for i in 0..answers.len()
        invariant
            all == pair_texts(answers@),
            goal == numbered_answers(all),
            texts(parts@) == goal.take(i as int),
    {
        let (q, a) = &answers[i];
        let d = decimal_wide(i as u128 + 1);
        let line = cat5(d.as_str(), ". ", q.as_str(), " → ", a.as_str());
        proof {
            assert(all[i as int] == (q@, a@));
            assert(goal.take(i + 1) =~= goal.take(i as int).push(goal[i as int]));
        }
        push_text(&mut parts, line);
    }
    assert(goal.take(goal.len() as int) =~= goal);
    join(&parts, "\n")
}

impl Answering {
    pub fn new() -> (r: Answering)
        ensures
            r@ == nothing_asked(),
    {
        Answering { index: 0, sel: 0, answers: no_pairs(), token: "".to_string() }
    }

    /// A new asking begins with its first question, and what is selected is there.
    pub fn begin(&mut self, state: &Option<HarnessState>)
        ensures
            final(self)@ == begun(old(self)@, told(*state)),
    {
        let qs = questions_of(state);
        let token = make_token(state, &qs);
        let ghost list = questions(told(*state));
        assert(list.len() == qs@.len());
        if !same(token.as_str(), self.token.as_str()) {
            self.token = token;
            self.index = 0;
            self.sel = 0;
            self.answers = no_pairs();
        }
        let n: usize = if qs.len() >= 1 {
            qs.len()
        } else {
            1
        };
        if self.index >= n {
            self.index = n - 1;
        }
        if self.index < qs.len() {
            assert(list[self.index as int] == qs@[self.index as int]@);
            let opts = q_options(&qs[self.index]);
            assert(pair_texts(opts@).len() == opts@.len());
            if opts.len() > 0 && self.sel >= opts.len() {
                self.sel = 0;
            }
        }
    }

    /// Takes the answer to the current question: the one selected, or what was
    /// typed where none can be selected.
    pub fn answer(&mut self, state: &Option<HarnessState>, typed: &str) -> (r: Reply)
        requires
            old(self)@.index < usize::MAX,
        ensures
            (final(self)@, r@) == answered(old(self)@, questions(told(*state)), typed@),
    {
        let qs = questions_of(state);
        let ghost list = questions(told(*state));
        assert(list.len() == qs@.len());
        if qs.len() == 0 {
            return Reply::Nothing;
        }
        let i: usize = if self.index <= qs.len() - 1 {
            self.index
        } else {
            qs.len() - 1
        };
        let question = &qs[i];
        assert(list[i as int] == question@);
        let opts = q_options(question);
        assert(pair_texts(opts@).len() == opts@.len());
        let open = opts.len() == 0;
        if open && is_blank(typed) {
            return Reply::NeedText;
        }
        let given = if open {
            trim(typed)
        } else {
            let k: usize = if self.sel <= opts.len() - 1 {
                self.sel
            } else {
                opts.len() - 1
            };
            assert(pair_texts(opts@)[k as int].0 == opts@[k as int].0@);
            opts[k].0.clone()
        };
        push_pair(&mut self.answers, q_text(question), given);
        self.sel = 0;
        self.index += 1;
        if self.index >= qs.len() {
            let text = combine(&self.answers);
            self.token = "".to_string();
            self.index = 0;
            self.answers = no_pairs();
            Reply::Complete { text }
        } else {
            Reply::Next { typed: open }
        }
    }
}

/// Where a question can be selected from, one always is, and the question is one
/// that waits.
pub proof fn what_is_selected_is_there(q: Inquiry, c: Option<Conversation>)
    ensures
        ({
            let list = questions(c);
            let b = begun(q, c);
            &&& b.index < larger(list.len(), 1)
            &&& list.len() > 0 ==> {
                let n = options(list[b.index as int]).len();
                n > 0 ==> b.sel < n
            }
        }),
{
}

/// Beginning twice is beginning once: what was answered stays while one asking
/// goes on.
pub proof fn beginning_again_changes_nothing(q: Inquiry, c: Option<Conversation>)
    ensures
        begun(begun(q, c), c) == begun(q, c),
{
}

/// The same questions asked once more are a new asking, which begins with the
/// first question and without answers.
pub proof fn asking_again_begins_anew(q: Inquiry, c: Conversation, again: Conversation)
    requires
        times_asked(c.events) != times_asked(again.events),
    ensures
        ({
            let b = begun(begun(q, Some(c)), Some(again));
            b.index == 0 && b.sel == 0 && b.answers.len() == 0
        }),
{
    let first = begun(q, Some(c));
    assert(first.token == asking_token(Some(c)));
    let m = times_asked(c.events);
    let n = times_asked(again.events);
    let x = joined(questions(Some(c)).map_values(|q: Value| text_of_question(q)), "\u{1}"@);
    let y = joined(questions(Some(again)).map_values(|q: Value| text_of_question(q)), "\u{1}"@);
    lemma_tokens_differ(m, n, x, y);
}

proof fn lemma_tokens_differ(m: nat, n: nat, x: Seq<char>, y: Seq<char>)
    requires
        m != n,
    ensures
        decimal(m) + "\u{1}"@ + x != decimal(n) + "\u{1}"@ + y,
{
    reveal_strlit("\u{1}");
    lemma_decimal(m);
    lemma_decimal(n);
    let a = decimal(m) + "\u{1}"@ + x;
    let b = decimal(n) + "\u{1}"@ + y;
    if a == b {
        let i = decimal(m).len() as int;
        let j = decimal(n).len() as int;
        assert(a[i] == '\u{1}');
        assert(b[j] == '\u{1}');
        if i < j {
            assert(b[i] == decimal(n)[i]);
        } else if j < i {
            assert(a[j] == decimal(m)[j]);
        }
        assert(a.take(i) =~= decimal(m));
        assert(b.take(j) =~= decimal(n));
        lemma_decimal_injective(m, n);
    }
}

} // verus!
