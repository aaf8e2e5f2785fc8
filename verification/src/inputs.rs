//! The box in which the prompt is written, with what is above it.
use crate::app::{App, Desk};
use crate::asking::{questions, questions_of};
use crate::bars::{count_running, lanes_running};
use crate::blocks::{less, smaller};
use crate::json::values;
use crate::keyboard::choices;
use crate::panels::{lane_lines, lane_rows, queue_rows, queued_lines};
use crate::prompt::{layout, layout_input};
use crate::style::{
    Color, Line, Piece, Span, append_lines, append_spans, colored, line2, line3, line_of, no_lines,
    no_spans, piece, pieces_of, push_line, push_span, raw, raw_span, room, rows, span,
};
use crate::table::larger;
use crate::text::{cat4, chars_of, decimal, decimal_string, string_of, texts};
use crate::theme::{accent, blue, faint, ink};
use crate::wrap::row_text;
use vstd::prelude::*;

verus! {

/// How many files are attached.
pub open spec fn attachments_row(n: nat) -> Seq<Piece> {
    seq![
        raw("   "@),
        piece(
            "📎 "@ + decimal(n) + " attachment"@ + (if n == 1 {
                ""@
            } else {
                "s"@
            }),
            colored(accent()),
        ),
        piece("  ·  ⌫ removes"@, colored(faint())),
    ]
}

/// How many files are attached, where there are any.
pub fn attachment_line(n: usize) -> (r: Option<Line>)
    ensures
        match r {
            Some(l) => n > 0 && l@ == attachments_row(n as nat),
            None => n == 0,
        },
{
    if n == 0 {
        return None;
    }
    let d = decimal_string(n as u64);
    let end = if n == 1 {
        ""
    } else {
        "s"
    };
    let text = cat4("📎 ", d.as_str(), " attachment", end);
    Some(
        line3(
            raw_span("   "),
            Span { text, style: colored(accent()) },
            span("  ·  ⌫ removes", colored(faint())),
        ),
    )
}

// ---------------------------------------------------------------------------
// How high the box is
// ---------------------------------------------------------------------------

/// The rows above the prompt: lanes, what is held, and attachments.
pub open spec fn rows_above(d: Desk) -> nat {
    let held = d.queued.len();
    let lanes = match d.state {
        Some(c) => lanes_running(c.lanes),
        None => 0,
    };
    (if d.draft.attached.len() == 0 {
        0nat
    } else {
        1
    }) + (if held == 0 {
        0nat
    } else {
        1 + smaller(held, 3) + (if held > 3 {
            1nat
        } else {
            0
        })
    }) + smaller(lanes, 4)
}

/// The rows of the box with its two rules. It grows with the prompt, up to eight
/// rows of it.
pub open spec fn box_rows(d: Desk, width: nat) -> nat {
    if d.draft.input.len() == 0 {
        3 + rows_above(d)
    } else {
        let n = layout(d.draft.input, d.draft.cursor, larger(room(width, 3), 1)).0.len();
        smaller(larger(n, 1), 8) + 2 + rows_above(d)
    }
}

/// The box is never higher than this, however much is written, held or attached.
pub proof fn the_box_stays_low(d: Desk, width: nat)
    ensures
        3 <= box_rows(d, width) <= 20,
{
}

fn up_to(n: usize, max: u16) -> (r: u16)
    ensures
        r == smaller(n as nat, max as nat),
{
    if n <= max as usize {
        n as u16
    } else {
        max
    }
}

impl App {
    fn count_above(&self) -> (r: u16)
        ensures
            r == rows_above(self@),
            r <= 10,
    {
        let attached: u16 = up_to(self.prompt.attachment_count(), 1);
        let held = self.queued.len();
        assert(self@.queued.len() == held);
        let queued: u16 = if held == 0 {
            0
        } else if held > 3 {
            5
        } else {
            1 + up_to(held, 3)
        };
        let lanes: u16 = match &self.state {
            Some(s) => up_to(count_running(&s.lanes), 4),
            None => 0,
        };
        attached + queued + lanes
    }

    /// The rows of the box with its two rules.
    pub fn input_height(&self, width: u16) -> (r: u16)
        ensures
            r == box_rows(self@, width as nat),
    {
        let above = self.count_above();
        if self.prompt.input().as_str().is_empty() {
            return 3 + above;
        }
        let text_w = text_width(width as usize);
        let (rows, _) = layout_input(
            self.prompt.input().as_str(),
            self.prompt.cursor(),
            text_w,
        );
        assert(texts(rows@).len() == rows@.len());
        let n: u16 = up_to(rows.len(), 8);
        let n: u16 = if n >= 1 {
            n
        } else {
            1
        };
        n + 2 + above
    }
}

fn text_width(width: usize) -> (r: usize)
    ensures
        r == larger(room(width as nat, 3), 1),
        r > 0,
{
    let w = less(width, 3);
    if w >= 1 {
        w
    } else {
        1
    }
}

// ---------------------------------------------------------------------------
// What the box shows
// ---------------------------------------------------------------------------

pub open spec fn prompt_mark() -> Piece {
    piece(" ❯ "@, colored(accent()).bolded())
}

/// The row of the prompt that the cursor is in.
pub open spec fn cursor_row(row: Seq<char>, column: nat) -> Seq<Piece> {
    let at = smaller(column, row.len());
    seq![piece(row.take(at as int), colored(ink()))] + (if at < row.len() {
        seq![
            piece(seq![row[at as int]], colored(Color::Black).on(blue())),
            piece(row.skip(at as int + 1), colored(ink())),
        ]
    } else {
        seq![piece("█"@, colored(blue()))]
    })
}

/// One row of the prompt.
pub open spec fn prompt_row(row: Seq<char>, k: nat, cursor: (nat, nat)) -> Seq<Piece> {
    seq![
        if k == 0 {
            prompt_mark()
        } else {
            raw("   "@)
        },
    ] + (if k == cursor.0 {
        cursor_row(row, cursor.1)
    } else {
        seq![piece(row, colored(ink()))]
    })
}

pub open spec fn prompt_rows(list: Seq<Seq<char>>, cursor: (nat, nat)) -> Seq<Seq<Piece>> {
    Seq::new(list.len(), |k: int| prompt_row(list[k], k as nat, cursor))
}

/// Whatever row the cursor is in, a row of the prompt shows its text, with a block
/// behind it where the cursor is at its end.
pub proof fn prompt_rows_show_the_text(row: Seq<char>, k: nat, cursor: (nat, nat))
    ensures
        ({
            let shown = row_text(prompt_row(row, k, cursor).skip(1));
            if k == cursor.0 && cursor.1 >= row.len() {
                shown == row + "█"@
            } else {
                shown == row
            }
        }),
{
    let rest = prompt_row(row, k, cursor).skip(1);
    reveal_with_fuel(row_text, 4);
    if k == cursor.0 {
        let at = smaller(cursor.1, row.len()) as int;
        assert(rest =~= cursor_row(row, cursor.1));
        if at < row.len() {
            assert(row.take(at) + seq![row[at]] + row.skip(at + 1) =~= row);
            assert(rest.drop_last().drop_last().drop_last() =~= Seq::empty());
            assert(row_text(rest) =~= row);
        } else {
            assert(row.take(at) =~= row);
            assert(rest.drop_last().drop_last() =~= Seq::empty());
            assert(row_text(rest) =~= row + "█"@);
        }
    } else {
        assert(rest =~= seq![piece(row, colored(ink()))]);
        assert(rest.drop_last() =~= Seq::empty());
        assert(row_text(rest) =~= row);
    }
}

/// The hint in an empty prompt.
pub open spec fn placeholder(d: Desk) -> Seq<char> {
    if questions(d.state).len() > 0 && choices(d) == 0 {
        "Type your answer, then press ↵…"@
    } else {
        "Type a prompt or a slash command…"@
    }
}

/// What is above the prompt; `seconds` and `nanos` are the time now.
pub open spec fn shown_above(d: Desk, seconds: i64, nanos: u32) -> Seq<Seq<Piece>> {
    (match d.state {
        Some(c) => lane_rows(c.lanes, seconds, nanos),
        None => Seq::empty(),
    }) + queue_rows(d.queued) + (if d.draft.attached.len() > 0 {
        seq![attachments_row(d.draft.attached.len())]
    } else {
        Seq::empty()
    })
}

/// What the box shows.
pub open spec fn box_shown(d: Desk, width: nat, seconds: i64, nanos: u32) -> Seq<Seq<Piece>> {
    if d.connecting {
        seq![
            seq![
                prompt_mark(),
                piece("Tab next · ←/→ change · Enter connect · Esc cancel"@, colored(faint())),
            ],
        ]
    } else if d.draft.input.len() == 0 {
        shown_above(d, seconds, nanos) + seq![
            seq![prompt_mark(), piece(placeholder(d), colored(faint()))],
        ]
    } else {
        let (list, cursor) = layout(d.draft.input, d.draft.cursor, larger(room(width, 3), 1));
        shown_above(d, seconds, nanos) + prompt_rows(list, cursor)
    }
}

/// How far the box is scrolled, so that the cursor is in it.
pub open spec fn box_scroll(d: Desk, width: nat, height: nat, seconds: i64, nanos: u32) -> nat {
    if d.connecting || d.draft.input.len() == 0 {
        0
    } else {
        let cursor = layout(d.draft.input, d.draft.cursor, larger(room(width, 3), 1)).1;
        let visible = larger(room(height, 2), 1);
        room(cursor.0 + shown_above(d, seconds, nanos).len(), (visible - 1) as nat)
    }
}

fn cursor_spans(row: &str, column: usize) -> (r: Vec<Span>)
    ensures
        pieces_of(r@) == cursor_row(row@, column as nat),
{
    let v = chars_of(row);
    let n = v.len();
    let at: usize = if column <= n {
        column
    } else {
        n
    };
    let mut spans = no_spans();
    let before = string_of(&v, 0, at);
    assert(before@ =~= row@.take(at as int));
    push_span(&mut spans, Span { text: before, style: colored(ink()) });
    if at < n {
        let one = string_of(&v, at, at + 1);
        let rest = string_of(&v, at + 1, n);
        assert(one@ =~= seq![row@[at as int]]);
        assert(rest@ =~= row@.skip(at + 1));
        push_span(&mut spans, Span { text: one, style: colored(Color::Black).on(blue()) });
        push_span(&mut spans, Span { text: rest, style: colored(ink()) });
    } else {
        push_span(&mut spans, span("█", colored(blue())));
    }
    assert(pieces_of(spans@) =~= cursor_row(row@, column as nat));
    spans
}

fn prompt_line(row: &str, k: usize, cursor: (usize, usize)) -> (r: Line)
    ensures
        r@ == prompt_row(row@, k as nat, (cursor.0 as nat, cursor.1 as nat)),
{
    let mut spans = no_spans();
    if k == 0 {
        push_span(&mut spans, span(" ❯ ", colored(accent()).bolded()));
    } else {
        push_span(&mut spans, raw_span("   "));
    }
    if k == cursor.0 {
        let more = line_of(cursor_spans(row, cursor.1));
        append_spans(&mut spans, more);
    } else {
        push_span(&mut spans, span(row, colored(ink())));
    }
    let r = line_of(spans);
    assert(r@ =~= prompt_row(row@, k as nat, (cursor.0 as nat, cursor.1 as nat)));
    r
}

fn push_prompt_rows(lines: &mut Vec<Line>, list: &Vec<String>, cursor: (usize, usize))
    ensures
        rows(final(lines)@) == rows(old(lines)@) + prompt_rows(
            texts(list@),
            (cursor.0 as nat, cursor.1 as nat),
        ),
{
    let ghost at = (cursor.0 as nat, cursor.1 as nat);
    let ghost head = rows(lines@);
    let ghost goal = prompt_rows(texts(list@), at);
    assert(head + goal.take(0) =~= head);
    for k in 0..list.len()
        invariant
            at == (cursor.0 as nat, cursor.1 as nat),
            goal == prompt_rows(texts(list@), at),
            rows(lines@) == head + goal.take(k as int),
    {
        let line = prompt_line(list[k].as_str(), k, cursor);
        proof {
            assert(texts(list@)[k as int] == list@[k as int]@);
            assert(goal[k as int] == line@);
            assert(goal.take(k + 1) =~= goal.take(k as int).push(goal[k as int]));
            assert((head + goal.take(k as int)).push(goal[k as int]) =~= head + goal.take(k + 1));
        }
        push_line(lines, line);
    }
    assert(goal.take(goal.len() as int) =~= goal);
}

/// What the box shows, and how far it is scrolled.
pub struct InputBox {
    pub lines: Vec<Line>,
    pub scroll: usize,
}

impl App {
    fn lines_above(&self, seconds: i64, nanos: u32) -> (r: Vec<Line>)
        ensures
            rows(r@) == shown_above(self@, seconds, nanos),
    {
        let mut out = match &self.state {
            Some(s) => lane_lines(&s.lanes, seconds, nanos),
            None => no_lines(),
        };
        append_lines(&mut out, queued_lines(&self.queued));
        match attachment_line(self.prompt.attachment_count()) {
            Some(l) => {
                push_line(&mut out, l);
            },
            None => {},
        }
        assert(rows(out@) =~= shown_above(self@, seconds, nanos));
        out
    }

    fn hint(&self) -> (r: &'static str)
        ensures
            r@ == placeholder(self@),
    {
        let qs = questions_of(&self.state);
        assert(values(qs@).len() == qs@.len());
        if qs.len() > 0 && self.count_choices() == 0 {
            "Type your answer, then press ↵…"
        } else {
            "Type a prompt or a slash command…"
        }
    }

    /// The box in an area of this size; `seconds` and `nanos` are the time now.
    pub fn input_box(&self, width: usize, height: usize, seconds: i64, nanos: u32) -> (r: InputBox)
        ensures
            rows(r.lines@) == box_shown(self@, width as nat, seconds, nanos),
            r.scroll == smaller(
                box_scroll(self@, width as nat, height as nat, seconds, nanos),
                usize::MAX as nat,
            ),
    {
        if self.connecting {
            let mut out = no_lines();
            push_line(
                &mut out,
                line2(
                    span(" ❯ ", colored(accent()).bolded()),
                    span("Tab next · ←/→ change · Enter connect · Esc cancel", colored(faint())),
                ),
            );
            assert(rows(out@) =~= box_shown(self@, width as nat, seconds, nanos));
            return InputBox { lines: out, scroll: 0 };
        }
        let mut out = self.lines_above(seconds, nanos);
        if self.prompt.input().as_str().is_empty() {
            push_line(
                &mut out,
                line2(
                    span(" ❯ ", colored(accent()).bolded()),
                    span(self.hint(), colored(faint())),
                ),
            );
            assert(rows(out@) =~= box_shown(self@, width as nat, seconds, nanos));
            return InputBox { lines: out, scroll: 0 };
        }
        let offset: usize = out.len();
        assert(rows(out@).len() == offset);
        let (list, cursor) = layout_input(
            self.prompt.input().as_str(),
            self.prompt.cursor(),
            text_width(width),
        );
        push_prompt_rows(&mut out, &list, cursor);
        let visible = less(height, 2);
        let hidden = less(visible, 1);
        let place: u128 = cursor.0 as u128 + offset as u128;
        let scroll: usize = if place <= hidden as u128 {
            0
        } else if place - hidden as u128 <= usize::MAX as u128 {
            (place - hidden as u128) as usize
        } else {
            usize::MAX
        };
        InputBox { lines: out, scroll }
    }
}

} // verus!
