//! Styled text: what a screen shows, as plain values.
//!
//! A line is a sequence of spans, a span a text in one style. Colours and the
//! emphasis of a style are values, so two styles are the same exactly when they
//! look the same.
use crate::text::{repeat_char, repeated};
use vstd::prelude::*;

verus! {

#[derive(Clone, Copy, PartialEq, Eq, Structural, Debug)]
pub enum Color {
    Rgb(u8, u8, u8),
    Black,
}

#[derive(Clone, Copy, PartialEq, Eq, Structural, Debug)]
pub struct Style {
    pub fg: Option<Color>,
    pub bg: Option<Color>,
    pub bold: bool,
    pub italic: bool,
    pub dim: bool,
}

/// No colour and no emphasis.
#[verifier::allow_in_spec]
pub fn unstyled() -> Style
    returns
        (Style { fg: None, bg: None, bold: false, italic: false, dim: false }),
{
    Style { fg: None, bg: None, bold: false, italic: false, dim: false }
}

/// Text in the given colour.
#[verifier::allow_in_spec]
pub fn colored(c: Color) -> Style
    returns
        (Style { fg: Some(c), bg: None, bold: false, italic: false, dim: false }),
{
    Style { fg: Some(c), bg: None, bold: false, italic: false, dim: false }
}

impl Style {
    #[verifier::allow_in_spec]
    pub fn bolded(self) -> Style
        returns
            (Style { bold: true, ..self }),
    {
        Style { bold: true, ..self }
    }

    #[verifier::allow_in_spec]
    pub fn slanted(self) -> Style
        returns
            (Style { italic: true, ..self }),
    {
        Style { italic: true, ..self }
    }

    #[verifier::allow_in_spec]
    pub fn dimmed(self) -> Style
        returns
            (Style { dim: true, ..self }),
    {
        Style { dim: true, ..self }
    }

    /// On a background of the given colour.
    #[verifier::allow_in_spec]
    pub fn on(self, c: Color) -> Style
        returns
            (Style { bg: Some(c), ..self }),
    {
        Style { bg: Some(c), ..self }
    }
}

/// A text in one style.
pub struct Span {
    pub text: String,
    pub style: Style,
}

/// What a span shows.
pub ghost struct Piece {
    pub text: Seq<char>,
    pub style: Style,
}

pub open spec fn piece(text: Seq<char>, style: Style) -> Piece {
    Piece { text, style }
}

/// A text without a style of its own.
pub open spec fn raw(text: Seq<char>) -> Piece {
    Piece { text, style: unstyled() }
}

impl View for Span {
    type V = Piece;

    open spec fn view(&self) -> Piece {
        Piece { text: self.text@, style: self.style }
    }
}

/// What a list of spans shows.
pub open spec fn pieces_of(spans: Seq<Span>) -> Seq<Piece> {
    spans.map_values(|s: Span| s@)
}

pub struct Line {
    pub spans: Vec<Span>,
}

impl View for Line {
    type V = Seq<Piece>;

    open spec fn view(&self) -> Seq<Piece> {
        pieces_of(self.spans@)
    }
}

/// What a list of lines shows.
pub open spec fn rows(lines: Seq<Line>) -> Seq<Seq<Piece>> {
    lines.map_values(|l: Line| l@)
}

/// A line that shows nothing.
pub open spec fn blank_row() -> Seq<Piece> {
    Seq::empty()
}

pub fn span(text: &str, style: Style) -> (r: Span)
    ensures
        r@ == piece(text@, style),
{
    Span { text: text.to_owned(), style }
}

pub fn raw_span(text: &str) -> (r: Span)
    ensures
        r@ == raw(text@),
{
    Span { text: text.to_owned(), style: unstyled() }
}

pub fn copy_span(s: &Span) -> (r: Span)
    ensures
        r@ == s@,
{
    Span { text: s.text.clone(), style: s.style }
}

pub fn push_span(spans: &mut Vec<Span>, s: Span)
    ensures
        pieces_of(final(spans)@) == pieces_of(old(spans)@).push(s@),
{
    let ghost before = pieces_of(spans@);
    spans.push(s);
    assert(pieces_of(spans@) =~= before.push(s@));
}

/// The spans of a line with one more in front.
pub fn prefixed(first: Span, rest: Line) -> (r: Line)
    ensures
        r@ == seq![first@] + rest@,
{
    let mut spans: Vec<Span> = Vec::new();
    let mut rest = rest;
    let ghost tail = rest@;
    spans.push(first);
    spans.append(&mut rest.spans);
    let r = Line { spans };
    assert(r@ =~= seq![first@] + tail);
    r
}

/// The spans of a line with one more at the end.
pub fn suffixed(first: Line, last: Span) -> (r: Line)
    ensures
        r@ == first@.push(last@),
{
    let mut line = first;
    push_span(&mut line.spans, last);
    line
}

pub fn append_spans(spans: &mut Vec<Span>, more: Line)
    ensures
        pieces_of(final(spans)@) == pieces_of(old(spans)@) + more@,
{
    let ghost before = pieces_of(spans@);
    let ghost tail = more@;
    let mut more = more;
    spans.append(&mut more.spans);
    assert(pieces_of(spans@) =~= before + tail);
}

pub fn line_of(spans: Vec<Span>) -> (r: Line)
    ensures
        r@ == pieces_of(spans@),
{
    Line { spans }
}

pub fn line1(a: Span) -> (r: Line)
    ensures
        r@ == seq![a@],
{
    let mut spans: Vec<Span> = Vec::new();
    spans.push(a);
    let r = Line { spans };
    assert(r@ =~= seq![a@]);
    r
}

pub fn line2(a: Span, b: Span) -> (r: Line)
    ensures
        r@ == seq![a@, b@],
{
    let r = suffixed(line1(a), b);
    assert(r@ =~= seq![a@, b@]);
    r
}

pub fn line3(a: Span, b: Span, c: Span) -> (r: Line)
    ensures
        r@ == seq![a@, b@, c@],
{
    let r = suffixed(line2(a, b), c);
    assert(r@ =~= seq![a@, b@, c@]);
    r
}

pub fn line4(a: Span, b: Span, c: Span, d: Span) -> (r: Line)
    ensures
        r@ == seq![a@, b@, c@, d@],
{
    let r = suffixed(line3(a, b, c), d);
    assert(r@ =~= seq![a@, b@, c@, d@]);
    r
}

pub fn blank_line() -> (r: Line)
    ensures
        r@ == blank_row(),
{
    line_of(no_spans())
}

pub fn no_lines() -> (r: Vec<Line>)
    ensures
        rows(r@) == Seq::<Seq<Piece>>::empty(),
{
    let r: Vec<Line> = Vec::new();
    assert(rows(r@) =~= Seq::empty());
    r
}

pub fn no_spans() -> (r: Vec<Span>)
    ensures
        pieces_of(r@) == Seq::<Piece>::empty(),
{
    let r: Vec<Span> = Vec::new();
    assert(pieces_of(r@) =~= Seq::empty());
    r
}

pub fn push_line(lines: &mut Vec<Line>, line: Line)
    ensures
        rows(final(lines)@) == rows(old(lines)@).push(line@),
{
    let ghost before = rows(lines@);
    lines.push(line);
    assert(rows(lines@) =~= before.push(line@));
}

pub fn append_lines(lines: &mut Vec<Line>, more: Vec<Line>)
    ensures
        rows(final(lines)@) == rows(old(lines)@) + rows(more@),
{
    let ghost before = rows(lines@);
    let ghost tail = rows(more@);
    let mut more = more;
    lines.append(&mut more);
    assert(rows(lines@) =~= before + tail);
}

pub fn copy_line(l: &Line) -> (r: Line)
    ensures
        r@ == l@,
{
    let mut spans = no_spans();
    for i in 0..l.spans.len()
        invariant
            pieces_of(spans@) == l@.take(i as int),
    {
        push_span(&mut spans, copy_span(&l.spans[i]));
        assert(l@.take(i + 1) =~= l@.take(i as int).push(l@[i as int]));
    }
    assert(l@.take(l@.len() as int) =~= l@);
    Line { spans }
}

// ---------------------------------------------------------------------------
// Width on the screen
// ---------------------------------------------------------------------------

/// Characters that take one column: the printable ones of ASCII, and those that
/// the bars and rules of a table are made of.
pub open spec fn narrow(c: char) -> bool {
    ' ' <= c <= '~' || c == '─' || c == '│' || c == '┼'
}

pub open spec fn all_narrow(text: Seq<char>) -> bool {
    forall|i: int| 0 <= i < text.len() ==> narrow(#[trigger] text[i])
}

/// How many columns `ratatui::text::Span::width` counts for a text.
pub uninterp spec fn display_columns(text: Seq<char>) -> usize;

/// `ratatui::text::Span::width`: the number of terminal columns that a text takes.
/// It follows from the text. A text of narrow characters takes a column for each of
/// them; of other texts nothing more is stated.
#[verifier::external_body]
pub(crate) fn width_of(text: &str) -> (r: usize)
    ensures
        r == display_columns(text@),
        all_narrow(text@) ==> r == text@.len(),
{
    ratatui::text::Span::raw(text).width()
}

/// The columns that a text takes.
pub open spec fn columns(text: Seq<char>) -> nat {
    if all_narrow(text) {
        text.len()
    } else {
        display_columns(text) as nat
    }
}

/// The columns that a line takes: those of its spans together.
pub open spec fn row_width(row: Seq<Piece>) -> nat
    decreases row.len(),
{
    if row.len() == 0 {
        0
    } else {
        row_width(row.drop_last()) + columns(row.last().text)
    }
}

/// What is left of `width` columns beside a line that takes `taken`.
pub open spec fn room(width: nat, taken: nat) -> nat {
    if taken >= width {
        0
    } else {
        (width - taken) as nat
    }
}

/// How many of `width` columns a line leaves free.
pub fn room_beside(line: &Line, width: usize) -> (r: usize)
    ensures
        r == room(width as nat, row_width(line@)),
{
    let mut left: usize = width;
    let ghost row = line@;
    assert(row_width(row.take(0)) == 0);
    for i in 0..line.spans.len()
        invariant
            row == line@,
            left == room(width as nat, row_width(row.take(i as int))),
    {
        let w: usize = width_of(line.spans[i].text.as_str());
        assert(w == columns(line.spans@[i as int].text@));
        assert(row.take(i + 1).drop_last() =~= row.take(i as int));
        assert(row.take(i + 1).last() == line.spans@[i as int]@);
        left = if w >= left {
            0
        } else {
            left - w
        };
    }
    assert(row.take(row.len() as int) =~= row);
    left
}

/// `n` spaces.
pub open spec fn spaces(n: nat) -> Seq<char> {
    repeated(' ', n)
}

pub fn spaces_span(n: usize) -> (r: Span)
    ensures
        r@ == raw(spaces(n as nat)),
{
    let s = repeat_char(' ', n);
    Span { text: s, style: unstyled() }
}

} // verus!
