//! The main screen: the part of the transcript that is shown, the question that
//! waits, and the prompt with what is above it.
use crate::app::{App, Desk, World, alive, shows_compaction, waiting_call};
use crate::asking::{current, questions, questions_of};
use crate::blocks::{less, smaller};
use crate::events::{Lane, LaneRecord, LaneStatus, lanes_of};
use crate::form::Entry;
use crate::json::values;
use crate::keyboard::choices;
use crate::login::{form_lines, keys_are_not_shown, login_rows};
use crate::questions::{options, q_options, q_text, text_of_question};
use crate::style::{
    Color, Line, Piece, Span, append_lines, blank_line, blank_row, colored, copy_line, line1, line2,
    line4, no_lines, piece, push_line, room, rows, span,
};
use crate::table::larger;
use crate::text::{
    blank, cat2, cat3, cat5, decimal, decimal_string, decimal_wide, is_blank, line_list, lines,
    take_chars, texts,
};
use crate::theme::{accent, faint, ink, lane, muted};
use crate::transcript::{
    Activity, Present, empty_state_lines, transcript, transcript_lines, welcome_rows,
};
use crate::vault::pair_texts;
use crate::wrap::{wrap_one, wrapped};
use vstd::prelude::*;

verus! {

// ---------------------------------------------------------------------------
// The transcript
// ---------------------------------------------------------------------------

/// The lines that are shown of `total`, `scroll` from the end, and how far can be
/// scrolled.
pub open spec fn window(total: nat, height: nat, scroll: nat) -> (nat, nat, nat) {
    let max = room(total, height);
    let end = room(total, smaller(scroll, max));
    (room(end, height), end, max)
}

/// What is shown ends where the transcript ends when nothing is scrolled, begins
/// where it begins when all is, and fills the height wherever there is enough.
pub proof fn scrolling_reaches_both_ends(total: nat, height: nat, scroll: nat)
    ensures
        ({
            let (start, end, max) = window(total, height, scroll);
            &&& start <= end <= total
            &&& end - start == smaller(total, height)
            &&& scroll == 0 ==> end == total
            &&& scroll >= max ==> start == 0
        }),
{
}

/// There is nothing to show yet.
pub open spec fn nothing_yet(d: Desk) -> bool {
    !d.connecting && match d.state {
        Some(c) => c.events.len() == 0 && blank(c.user_request),
        None => true,
    }
}

/// The transcript with the form below it, where that is open.
pub open spec fn whole_transcript(
    d: Desk,
    now: Present,
    expanded: bool,
    signed_in: bool,
    width: nat,
) -> Seq<Seq<Piece>> {
    (match d.state {
        Some(c) => transcript(c, now, expanded, d.frame as nat, width),
        None => Seq::empty(),
    }) + login_shown(d, signed_in, width)
}

/// The form in which a model is connected, where it is open.
pub open spec fn login_shown(d: Desk, signed_in: bool, width: nat) -> Seq<Seq<Piece>> {
    if d.connecting {
        login_rows(d.entry, signed_in, d.device, width)
    } else {
        Seq::empty()
    }
}

/// The form shows nothing while it is closed, and never a key: screens that differ
/// only in keys of one length show the same form.
pub proof fn the_form_keeps_keys_to_itself(
    d: Desk,
    key: Seq<char>,
    signed_in: bool,
    width: nat,
)
    requires
        key.len() == d.entry.api_key.len(),
    ensures
        !d.connecting ==> login_shown(d, signed_in, width) == Seq::<Seq<Piece>>::empty(),
        login_shown(d, signed_in, width) == login_shown(
            Desk { entry: Entry { api_key: key, ..d.entry }, ..d },
            signed_in,
            width,
        ),
{
    keys_are_not_shown(d.entry, key, signed_in, d.device, width);
}

/// The form in which a model is connected, where it is open.
pub fn login_lines(app: &App, signed_in: bool, width: usize) -> (r: Vec<Line>)
    ensures
        rows(r@) == login_shown(app@, signed_in, width as nat),
{
    if app.connecting {
        form_lines(&app.form, signed_in, app.device.as_ref(), width)
    } else {
        let none = no_lines();
        assert(rows(none@) =~= Seq::empty());
        none
    }
}

/// The width of the transcript, between its margins.
pub open spec fn inner_width(width: nat) -> nat {
    larger(room(width, 8), 20)
}

/// A conversation in which nothing was said: the welcome in the middle.
pub open spec fn welcome_shown(width: nat, height: nat) -> Seq<Seq<Piece>> {
    let block = welcome_rows(width);
    Seq::new(room(height, block.len()) / 2, |i: int| blank_row()) + block
}

/// The part of the transcript that is shown.
pub struct History {
    pub lines: Vec<Line>,
    /// How far can be scrolled, where there is a transcript.
    pub max_scroll: Option<usize>,
}

fn blank_lines(n: usize) -> (r: Vec<Line>)
    ensures
        rows(r@) == Seq::new(n as nat, |i: int| blank_row()),
{
    let mut out = no_lines();
    for i in 0..n
        invariant
            rows(out@) == Seq::new(i as nat, |k: int| blank_row()),
    {
        push_line(&mut out, blank_line());
        assert(rows(out@) =~= Seq::new((i + 1) as nat, |k: int| blank_row()));
    }
    out
}

fn welcome_lines(width: usize, height: usize) -> (r: Vec<Line>)
    ensures
        rows(r@) == welcome_shown(width as nat, height as nat),
{
    let block = empty_state_lines("", "", width);
    assert(rows(block@).len() == block@.len());
    let mut out = blank_lines(less(height, block.len()) / 2);
    append_lines(&mut out, block);
    out
}

fn lines_between(all: &Vec<Line>, start: usize, end: usize) -> (r: Vec<Line>)
    requires
        start <= end <= all@.len(),
    ensures
        rows(r@) == rows(all@).subrange(start as int, end as int),
{
    let mut out = no_lines();
    let ghost goal = rows(all@).subrange(start as int, end as int);
    for i in start..end
        invariant
            end <= all@.len(),
            goal == rows(all@).subrange(start as int, end as int),
            rows(out@) == goal.take(i - start),
    {
        push_line(&mut out, copy_line(&all[i]));
        assert(goal[i - start] == all@[i as int]@);
        assert(goal.take(i - start + 1) =~= goal.take(i - start).push(goal[i - start]));
    }
    assert(goal.take(end - start) =~= goal);
    out
}

impl App {
    fn whole(&self, now: &Activity, expanded: bool, signed_in: bool, width: usize) -> (r: Vec<Line>)
        ensures
            rows(r@) == whole_transcript(
                self@,
                now.present(),
                expanded,
                signed_in,
                width as nat,
            ),
    {
        let mut out = match &self.state {
            Some(s) => transcript_lines(s, now, expanded, self.frame, width),
            None => no_lines(),
        };
        append_lines(&mut out, login_lines(self, signed_in, width));
        assert(rows(out@) =~= whole_transcript(
            self@,
            now.present(),
            expanded,
            signed_in,
            width as nat,
        ));
        out
    }

    /// The part of the transcript that is shown in an area of this size. `thinking`
    /// and `live` are what is streamed, and `expanded` shows calls in full.
    pub fn history(
        &self,
        w: &World,
        thinking: &str,
        live: &str,
        expanded: bool,
        area_width: usize,
        height: usize,
    ) -> (r: History)
        ensures
            ({
                let width = inner_width(area_width as nat);
                let now = Present {
                    alive: alive(self@, w@),
                    compacting: shows_compaction(self@, w@),
                    thinking: thinking@,
                    live: live@,
                };
                let all = whole_transcript(self@, now, expanded, w@.signed_in, width);
                let (start, end, max) = window(all.len(), height as nat, self@.scroll);
                if nothing_yet(self@) {
                    rows(r.lines@) == welcome_shown(width, height as nat) && r.max_scroll is None
                } else {
                    &&& rows(r.lines@) == all.subrange(start as int, end as int)
                    &&& r.max_scroll matches Some(m) && m == max
                }
            }),
    {
        let inset = less(area_width, 8);
        let width: usize = if inset >= 20 {
            inset
        } else {
            20
        };
        if self.is_empty() {
            return History { lines: welcome_lines(width, height), max_scroll: None };
        }
        let now = Activity {
            alive: self.agent_alive(w),
            compacting: self.is_compacting(w),
            thinking: thinking.to_owned(),
            live: live.to_owned(),
        };
        let all = self.whole(&now, expanded, w.signed_in, width);
        let total = all.len();
        assert(rows(all@).len() == total);
        let max = less(total, height);
        let scroll: usize = if self.scroll <= max {
            self.scroll
        } else {
            max
        };
        let end = less(total, scroll);
        let start = less(end, height);
        History { lines: lines_between(&all, start, end), max_scroll: Some(max) }
    }

    fn is_empty(&self) -> (r: bool)
        ensures
            r == nothing_yet(self@),
    {
        !self.connecting && match &self.state {
            Some(s) => s.events.len() == 0 && is_blank(s.user_request.as_str()),
            None => true,
        }
    }

    /// The rows that the progress of a compaction and an approval take above the
    /// prompt.
    pub fn bar_heights(&self, w: &World) -> (r: (u16, u16))
        ensures
            r.0 == if shows_compaction(self@, w@) {
                1u16
            } else {
                0
            },
            r.1 == if waiting_call(self@) is Some {
                6u16
            } else {
                0
            },
    {
        let progress: u16 = if self.is_compacting(w) {
            1
        } else {
            0
        };
        let approval: u16 = if self.pending_approval().is_some() {
            6
        } else {
            0
        };
        (progress, approval)
    }

    /// How far can be scrolled, as the screen was drawn last.
    pub fn set_max_scroll(&mut self, max: usize)
        ensures
            final(self)@ == (Desk { max_scroll: max as nat, ..old(self)@ }),
    {
        self.max_scroll = max;
    }
}

// ---------------------------------------------------------------------------
// The question
// ---------------------------------------------------------------------------

/// The rows that the question takes.
pub open spec fn question_rows_taken(d: Desk) -> nat {
    if questions(d.state).len() == 0 {
        0
    } else {
        let n = choices(d);
        smaller(
            2 + (if n == 0 {
                2
            } else {
                n + 1
            }),
            16,
        )
    }
}

/// Which of how many questions it is, where there are several.
pub open spec fn question_counter(index: nat, total: nat) -> Seq<char> {
    if total > 1 {
        "  ("@ + decimal(index + 1) + "/"@ + decimal(total) + ")"@
    } else {
        ""@
    }
}

/// An answer that can be picked.
pub open spec fn option_row(label: Seq<char>, focused: bool) -> Seq<Piece> {
    seq![
        piece(
            if focused {
                "  ▸ "@
            } else {
                "    "@
            },
            colored(accent()).bolded(),
        ),
        piece(
            label,
            if focused {
                colored(ink()).bolded()
            } else {
                colored(muted())
            },
        ),
    ]
}

/// The answers that can be picked, or how one is typed.
pub open spec fn answer_rows(list: Seq<(Seq<char>, Seq<char>)>, sel: nat) -> Seq<Seq<Piece>> {
    if list.len() == 0 {
        seq![
            seq![
                piece("  ↳ "@, colored(accent())),
                piece("type your answer below, then press ↵"@, colored(faint())),
            ],
            seq![piece("  ↵ submit · Esc cancel"@, colored(faint()))],
        ]
    } else {
        Seq::new(
            list.len(),
            |i: int| option_row(list[i].1, i == smaller(sel, (list.len() - 1) as nat)),
        ).push(seq![piece("  ↑/↓ choose · ↵ select · Esc cancel"@, colored(faint()))])
    }
}

/// The first line of a question, as far as there is room beside the counter.
pub open spec fn question_line(text: Seq<char>, counter: Seq<char>, width: nat) -> Seq<char> {
    let parts = wrapped(text, room(larger(width, 20), counter.len() + 3));
    if parts.len() == 0 {
        ""@
    } else {
        parts[0]
    }
}

/// The question that waits.
pub open spec fn question_shown(d: Desk, width: nat) -> Seq<Seq<Piece>> {
    let list = questions(d.state);
    if list.len() == 0 {
        Seq::empty()
    } else {
        let q = current(d.inquiry, list);
        let counter = question_counter(d.inquiry.index, list.len());
        seq![
            blank_row(),
            seq![
                piece(
                    question_line(text_of_question(q), counter, width),
                    colored(ink()).bolded(),
                ),
                piece(counter, colored(faint())),
            ],
        ] + answer_rows(options(q), d.inquiry.sel)
    }
}

fn say_counter(index: usize, total: usize) -> (r: String)
    ensures
        r@ == question_counter(index as nat, total as nat),
{
    if total > 1 {
        let i = decimal_wide(index as u128 + 1);
        let n = decimal_string(total as u64);
        cat5("  (", i.as_str(), "/", n.as_str(), ")")
    } else {
        "".to_string()
    }
}

fn answer_lines(list: &Vec<(String, String)>, sel: usize) -> (r: Vec<Line>)
    ensures
        rows(r@) == answer_rows(pair_texts(list@), sel as nat),
{
    let mut out = no_lines();
    let ghost all = pair_texts(list@);
    assert(all.len() == list@.len());
    if list.len() == 0 {
        push_line(
            &mut out,
            line2(
                span("  ↳ ", colored(accent())),
                span("type your answer below, then press ↵", colored(faint())),
            ),
        );
        push_line(&mut out, line1(span("  ↵ submit · Esc cancel", colored(faint()))));
        assert(rows(out@) =~= answer_rows(all, sel as nat));
        return out;
    }
    let at: usize = if sel <= list.len() - 1 {
        sel
    } else {
        list.len() - 1
    };
    let ghost goal = Seq::new(all.len(), |i: int| option_row(all[i].1, i == at));
    for i in 0..list.len()
        invariant
            all == pair_texts(list@),
            goal == Seq::new(all.len(), |i: int| option_row(all[i].1, i == at)),
            rows(out@) == goal.take(i as int),
    {
        let label = list[i].1.as_str();
        assert(all[i as int].1 == label@);
        assert(goal.take(i + 1) =~= goal.take(i as int).push(goal[i as int]));
        if i == at {
            push_line(
                &mut out,
                line2(
                    span("  ▸ ", colored(accent()).bolded()),
                    span(label, colored(ink()).bolded()),
                ),
            );
        } else {
            push_line(
                &mut out,
                line2(span("    ", colored(accent()).bolded()), span(label, colored(muted()))),
            );
        }
    }
    assert(goal.take(goal.len() as int) =~= goal);
    push_line(
        &mut out,
        line1(span("  ↑/↓ choose · ↵ select · Esc cancel", colored(faint()))),
    );
    assert(rows(out@) =~= answer_rows(all, sel as nat));
    out
}

fn first_part(text: &str, counter: &str, width: usize) -> (r: String)
    ensures
        r@ == question_line(text@, counter@, width as nat),
{
    let w: usize = if width >= 20 {
        width
    } else {
        20
    };
    let parts = wrap_one(text, less(less(w, counter.unicode_len()), 3));
    assert(texts(parts@).len() == parts@.len());
    if parts.len() == 0 {
        "".to_string()
    } else {
        assert(texts(parts@)[0] == parts@[0]@);
        parts[0].clone()
    }
}

impl App {
    /// The rows that the question takes.
    pub fn question_height(&self) -> (r: u16)
        ensures
            r == question_rows_taken(self@),
    {
        let qs = questions_of(&self.state);
        assert(values(qs@).len() == qs@.len());
        if qs.len() == 0 {
            return 0;
        }
        let n = self.count_choices();
        if n == 0 {
            4
        } else if n >= 13 {
            16
        } else {
            (n + 3) as u16
        }
    }

    /// The question that waits, as lines.
    pub fn question_lines(&self, width: usize) -> (r: Vec<Line>)
        ensures
            rows(r@) == question_shown(self@, width as nat),
    {
        let mut out = no_lines();
        let qs = questions_of(&self.state);
        let ghost list = questions(self@.state);
        assert(list.len() == qs@.len());
        if qs.len() == 0 {
            return out;
        }
        let i: usize = if self.asking.index <= qs.len() - 1 {
            self.asking.index
        } else {
            qs.len() - 1
        };
        assert(list[i as int] == qs@[i as int]@);
        let q = &qs[i];
        let counter = say_counter(self.asking.index, qs.len());
        let text = q_text(q);
        let first = first_part(text.as_str(), counter.as_str(), width);
        push_line(&mut out, blank_line());
        push_line(
            &mut out,
            line2(
                Span { text: first, style: colored(ink()).bolded() },
                Span { text: counter, style: colored(faint()) },
            ),
        );
        let opts = q_options(q);
        append_lines(&mut out, answer_lines(&opts, self.asking.sel));
        assert(rows(out@) =~= question_shown(self@, width as nat));
        out
    }
}

// ---------------------------------------------------------------------------
// Lanes
// ---------------------------------------------------------------------------

/// The seconds and nanoseconds from the epoch to a time in the notation of RFC
/// 3339; none where the text is no such time. Nanoseconds from a thousand million
/// on stand for a leap second.
pub uninterp spec fn instant(text: Seq<char>) -> Option<(i64, u32)>;

/// `chrono::DateTime::parse_from_rfc3339`, with the seconds and nanoseconds that
/// `timestamp` and `timestamp_subsec_nanos` give of the parsed time. The result
/// depends on the text alone; which texts are times is not stated.
#[verifier::external_body]
fn parse_instant(text: &str) -> (r: Option<(i64, u32)>)
    ensures
        r == instant(text@),
{
    let time = chrono::DateTime::parse_from_rfc3339(text).ok()?;
    Some((time.timestamp(), time.timestamp_subsec_nanos()))
}

/// An instant outside leap seconds, within some quarter of a million years of the
/// epoch.
pub open spec fn ordinary(seconds: i64, nanos: u32) -> bool {
    -8_000_000_000_000 <= seconds <= 8_000_000_000_000 && nanos < 1_000_000_000
}

/// The whole seconds from one ordinary instant to another, a part of a second
/// dropped.
pub open spec fn whole_seconds(from: (i64, u32), to: (i64, u32)) -> int {
    let d = (to.0 - from.0) * 1_000_000_000 + (to.1 - from.1);
    if d >= 0 {
        d / 1_000_000_000
    } else {
        -((-d) / 1_000_000_000)
    }
}

/// The whole seconds from one instant to another, whatever the two are.
pub uninterp spec fn seconds_between(
    from_seconds: i64,
    from_nanos: u32,
    to_seconds: i64,
    to_nanos: u32,
) -> Option<i64>;

/// The difference of two instants of `chrono`, each made by
/// `chrono::DateTime::from_timestamp`, in whole seconds by `TimeDelta::num_seconds`.
/// Of ordinary instants it is the difference, rounded towards zero. Of others the
/// result is only named: there is none where an instant is out of range or its
/// nanoseconds are not those of a leap second, and how a leap second counts is not
/// stated.
#[verifier::external_body]
fn difference(
    from_seconds: i64,
    from_nanos: u32,
    to_seconds: i64,
    to_nanos: u32,
) -> (r: Option<i64>)
    ensures
        r == seconds_between(from_seconds, from_nanos, to_seconds, to_nanos),
        ordinary(from_seconds, from_nanos) && ordinary(to_seconds, to_nanos) ==> r == Some(
            whole_seconds((from_seconds, from_nanos), (to_seconds, to_nanos)) as i64,
        ),
{
    let from = chrono::DateTime::from_timestamp(from_seconds, from_nanos)?;
    let to = chrono::DateTime::from_timestamp(to_seconds, to_nanos)?;
    Some((to - from).num_seconds())
}

/// The whole seconds from a time in the notation of RFC 3339 to an instant, given
/// in seconds and nanoseconds from the epoch; none where the text is no time.
pub open spec fn elapsed(started: Seq<char>, seconds: i64, nanos: u32) -> Option<i64> {
    match instant(started) {
        None => None,
        Some(from) => if ordinary(from.0, from.1) && ordinary(seconds, nanos) {
            Some(whole_seconds(from, (seconds, nanos)) as i64)
        } else {
            seconds_between(from.0, from.1, seconds, nanos)
        },
    }
}

fn seconds_elapsed(started: &str, seconds: i64, nanos: u32) -> (r: Option<i64>)
    ensures
        r == elapsed(started@, seconds, nanos),
{
    match parse_instant(started) {
        None => None,
        Some(from) => difference(from.0, from.1, seconds, nanos),
    }
}

/// A time in seconds, or in minutes from one on.
pub open spec fn span_note(seconds: Option<i64>) -> Seq<char> {
    match seconds {
        Some(n) => if n < 0 {
            "0s"@
        } else if n < 60 {
            decimal(n as nat) + "s"@
        } else {
            decimal((n / 60) as nat) + "m"@
        },
        None => ""@,
    }
}

/// At most so many characters of a text, with a mark where there are more.
pub open spec fn clipped(s: Seq<char>, n: nat) -> Seq<char> {
    if s.len() > n {
        s.take(n as int) + "…"@
    } else {
        s
    }
}

/// A lane that is at work.
pub open spec fn lane_row(title: Seq<char>, seconds: Option<i64>) -> Seq<Piece> {
    seq![
        piece(" │ "@, colored(faint())),
        piece("◆ "@, colored(lane())),
        piece(clipped(title, 48), colored(muted())),
        piece(" — running "@ + span_note(seconds), colored(faint())),
    ]
}

/// The lanes that are at work, in order.
pub open spec fn running(lanes: Seq<Lane>) -> Seq<Lane> {
    lanes.filter(|l: Lane| l.status == LaneStatus::Running)
}

/// At most four of the lanes that are at work.
pub open spec fn lane_rows(lanes: Seq<Lane>, seconds: i64, nanos: u32) -> Seq<Seq<Piece>> {
    running(lanes).take(smaller(running(lanes).len(), 4) as int).map_values(
        |l: Lane| lane_row(l.title, elapsed(l.started_at, seconds, nanos)),
    )
}

fn say_span(seconds: Option<i64>) -> (r: String)
    ensures
        r@ == span_note(seconds),
{
    match seconds {
        Some(n) => {
            if n < 0 {
                "0s".to_string()
            } else if n < 60 {
                let d = decimal_string(n as u64);
                cat2(d.as_str(), "s")
            } else {
                let d = decimal_string((n / 60) as u64);
                cat2(d.as_str(), "m")
            }
        },
        None => "".to_string(),
    }
}

fn clip(s: &str, n: usize) -> (r: String)
    ensures
        r@ == clipped(s@, n as nat),
{
    if s.unicode_len() > n {
        let head = take_chars(s, n);
        cat2(head.as_str(), "…")
    } else {
        s.to_owned()
    }
}

/// A lane that is at work, and for how many seconds, where that is known.
pub fn lane_line(title: &str, seconds: Option<i64>) -> (r: Line)
    ensures
        r@ == lane_row(title@, seconds),
{
    let name = clip(title, 48);
    let time = say_span(seconds);
    line4(
        span(" │ ", colored(faint())),
        span("◆ ", colored(lane())),
        Span { text: name, style: colored(muted()) },
        Span { text: cat2(" — running ", time.as_str()), style: colored(faint()) },
    )
}

/// The lanes that are at work, as lines; `seconds` and `nanos` are the time now.
pub fn lane_lines(lanes: &Vec<LaneRecord>, seconds: i64, nanos: u32) -> (r: Vec<Line>)
    ensures
        rows(r@) == lane_rows(lanes_of(lanes@), seconds, nanos),
{
    let ghost all = lanes_of(lanes@);
    let ghost p = |l: Lane| l.status == LaneStatus::Running;
    let ghost f = |l: Lane| lane_row(l.title, elapsed(l.started_at, seconds, nanos));
    let mut out = no_lines();
    let mut n: usize = 0;
    proof {
        reveal(Seq::filter);
        assert(all.take(0).filter(p) =~= Seq::empty());
        assert(all.take(0).filter(p).take(0).map_values(f) =~= Seq::empty());
    }
    for i in 0..lanes.len()
        invariant
            all == lanes_of(lanes@),
            p == (|l: Lane| l.status == LaneStatus::Running),
            f == (|l: Lane| lane_row(l.title, elapsed(l.started_at, seconds, nanos))),
            n == smaller(all.take(i as int).filter(p).len(), 4),
            rows(out@) == all.take(i as int).filter(p).take(n as int).map_values(f),
    {
        let l = &lanes[i];
        let ghost before = all.take(i as int).filter(p);
        let ghost m = n as int;
        proof {
            assert(all[i as int] == l@);
            assert(all.take(i + 1) =~= all.take(i as int).push(all[i as int]));
            all.take(i as int).lemma_filter_push(all[i as int], p);
        }
        if l.status == LaneStatus::Running {
            if n < 4 {
                let time = seconds_elapsed(l.started_at.as_str(), seconds, nanos);
                push_line(&mut out, lane_line(l.title.as_str(), time));
                n += 1;
                proof {
                    assert(before.take(m) =~= before);
                    assert(before.push(l@).take(m + 1) =~= before.push(l@));
                    assert(before.push(l@).map_values(f) =~= before.map_values(f).push(f(l@)));
                }
            } else {
                assert(before.push(l@).take(m) =~= before.take(m));
            }
        }
    }
    assert(all.take(all.len() as int) =~= all);
    out
}

// ---------------------------------------------------------------------------
// What is held
// ---------------------------------------------------------------------------

pub open spec fn queue_title(n: nat) -> Seq<char> {
    if n == 1 {
        "queued — sends when the run finishes · Ctrl+X to cancel"@
    } else {
        "queued ("@ + decimal(n) + ") — send together when the run finishes · Ctrl+X to cancel"@
    }
}

/// The beginning of a message.
pub open spec fn preview(text: Seq<char>) -> Seq<char> {
    let list = line_list(text);
    let first = if list.len() == 0 {
        ""@
    } else {
        list[0]
    };
    first.take(smaller(first.len(), 72) as int) + (if first.len() > 72 || list.len() > 1 {
        "…"@
    } else {
        ""@
    })
}

pub open spec fn railed(text: Seq<char>, c: Color) -> Seq<Piece> {
    seq![piece(" │ "@, colored(faint())), piece(text, colored(c))]
}

/// The messages that are held: the first three, and how many more.
pub open spec fn queue_rows(queued: Seq<Seq<char>>) -> Seq<Seq<Piece>> {
    let n = queued.len();
    if n == 0 {
        Seq::empty()
    } else {
        seq![railed(queue_title(n), faint())] + queued.take(smaller(n, 3) as int).map_values(
            |q: Seq<char>| railed(preview(q), muted()),
        ) + (if n > 3 {
            seq![railed("… +"@ + decimal((n - 3) as nat) + " more"@, faint())]
        } else {
            Seq::empty()
        })
    }
}

fn say_preview(text: &str) -> (r: String)
    ensures
        r@ == preview(text@),
{
    let list = lines(text);
    assert(texts(list@).len() == list@.len());
    let first = if list.len() == 0 {
        ""
    } else {
        assert(texts(list@)[0] == list@[0]@);
        list[0].as_str()
    };
    let head = take_chars(first, 72);
    if first.unicode_len() > 72 || list.len() > 1 {
        cat2(head.as_str(), "…")
    } else {
        cat2(head.as_str(), "")
    }
}

fn rail_line(text: &str, c: Color) -> (r: Line)
    ensures
        r@ == railed(text@, c),
{
    line2(span(" │ ", colored(faint())), span(text, colored(c)))
}

/// The messages that are held, as lines.
pub fn queued_lines(queued: &Vec<String>) -> (r: Vec<Line>)
    ensures
        rows(r@) == queue_rows(texts(queued@)),
{
    let n = queued.len();
    let ghost all = texts(queued@);
    assert(all.len() == n);
    let mut out = no_lines();
    if n == 0 {
        return out;
    }
    let d = decimal_string(n as u64);
    let title = if n == 1 {
        "queued — sends when the run finishes · Ctrl+X to cancel".to_string()
    } else {
        cat3("queued (", d.as_str(), ") — send together when the run finishes · Ctrl+X to cancel")
    };
    push_line(&mut out, rail_line(title.as_str(), faint()));
    let ghost head = rows(out@);
    assert(head =~= seq![railed(queue_title(n as nat), faint())]);
    let m: usize = if n <= 3 {
        n
    } else {
        3
    };
    let ghost goal = all.take(m as int).map_values(|q: Seq<char>| railed(preview(q), muted()));
    assert(head + goal.take(0) =~= head);
    for i in 0..m
        invariant
            m <= queued@.len(),
            all == texts(queued@),
            goal == all.take(m as int).map_values(|q: Seq<char>| railed(preview(q), muted())),
            rows(out@) == head + goal.take(i as int),
    {
        let text = say_preview(queued[i].as_str());
        proof {
            assert(all[i as int] == queued@[i as int]@);
            assert(goal.take(i + 1) =~= goal.take(i as int).push(goal[i as int]));
            assert((head + goal.take(i as int)).push(goal[i as int]) =~= head + goal.take(i + 1));
        }
        push_line(&mut out, rail_line(text.as_str(), muted()));
    }
    assert(goal.take(m as int) =~= goal);
    if n > 3 {
        let d = decimal_string((n - 3) as u64);
        let text = cat3("… +", d.as_str(), " more");
        push_line(&mut out, rail_line(text.as_str(), faint()));
    }
    assert(rows(out@) =~= queue_rows(all));
    out
}

} // verus!
