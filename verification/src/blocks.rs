//! Blocks of lines: text behind a gutter, behind a glyph, between rules.
use crate::prose::{lead_lines, led, style_lines, styled_rows};
use crate::style::{
    Color, Line, Piece, Span, blank_line, blank_row, colored, line2, line3, no_lines, piece,
    pieces_of, push_line, raw, room, rows, spaces, spaces_span, span,
};
use crate::text::{cat2, repeat_char, repeated, texts};
use crate::theme::{faint, muted};
use crate::wrap::{code_wrapped, wrap_code_line, wrap_one, wrapped};
use vstd::prelude::*;

verus! {

// ---------------------------------------------------------------------------
// Output behind a bar
// ---------------------------------------------------------------------------

/// The lines of one item, in its style but dimmed.
pub open spec fn item_pieces(item: Piece, width: nat, verbatim: bool) -> Seq<Piece> {
    let segs = if verbatim {
        code_wrapped(item.text, room(width, 4))
    } else {
        wrapped(item.text, room(width, 4))
    };
    segs.map_values(|s: Seq<char>| piece(s, item.style.dimmed()))
}

pub open spec fn items_pieces(items: Seq<Piece>, width: nat, verbatim: bool) -> Seq<Piece>
    decreases items.len(),
{
    if items.len() == 0 {
        Seq::empty()
    } else {
        items_pieces(items.drop_last(), width, verbatim) + item_pieces(
            items.last(),
            width,
            verbatim,
        )
    }
}

/// What stands in front of line `k`: a light bar in front of the first.
pub open spec fn gutter(k: int) -> Piece {
    piece(
        if k == 0 {
            "  │ "@
        } else {
            "    "@
        },
        colored(faint()).dimmed(),
    )
}

/// Items one below the other, wrapped or verbatim, behind a gutter.
pub open spec fn block(items: Seq<Piece>, width: nat, verbatim: bool) -> Seq<Seq<Piece>> {
    items_pieces(items, width, verbatim).map(|k: int, p: Piece| seq![gutter(k), p])
}

/// Columns less than the given ones, none where there are not so many.
pub fn less(width: usize, n: usize) -> (r: usize)
    ensures
        r == room(width as nat, n as nat),
{
    if width >= n {
        width - n
    } else {
        0
    }
}

pub fn result_block_inner(items: &Vec<Span>, width: usize, verbatim: bool) -> (r: Vec<Line>)
    ensures
        rows(r@) == block(pieces_of(items@), width as nat, verbatim),
{
    let ghost all = pieces_of(items@);
    let ghost f = |k: int, p: Piece| seq![gutter(k), p];
    let mut lines = no_lines();
    let ghost mut done: Seq<Piece> = Seq::empty();
    assert(rows(lines@) =~= done.map(f));
    for i in 0..items.len()
        invariant
            all == pieces_of(items@),
            f == (|k: int, p: Piece| seq![gutter(k), p]),
            done == items_pieces(all.take(i as int), width as nat, verbatim),
            rows(lines@) == done.map(f),
    {
        let segs = if verbatim {
            wrap_code_line(items[i].text.as_str(), less(width, 4))
        } else {
            wrap_one(items[i].text.as_str(), less(width, 4))
        };
        let style = items[i].style.dimmed();
        let ghost before = done;
        let ghost more = item_pieces(all[i as int], width as nat, verbatim);
        assert(texts(segs@).len() == segs@.len());
        assert(more.len() == segs@.len());
        assert(before + more.take(0) =~= before);
        for j in 0..segs.len()
            invariant
                f == (|k: int, p: Piece| seq![gutter(k), p]),
                more.len() == segs@.len(),
                forall|k: int| 0 <= k < more.len() ==> #[trigger] more[k] == piece(segs@[k]@, style),
                done == before + more.take(j as int),
                rows(lines@) == done.map(f),
        {
            let prefix = if lines.len() == 0 {
                "  │ "
            } else {
                "    "
            };
            let line = line2(
                span(prefix, colored(faint()).dimmed()),
                span(segs[j].as_str(), style),
            );
            proof {
                assert(rows(lines@).len() == lines@.len());
                let p = more[j as int];
                let k = done.len() as int;
                assert(line@ == f(k, p));
                assert(done.push(p).map(f) =~= done.map(f).push(f(k, p)));
                assert(more.take(j + 1) =~= more.take(j as int).push(p));
                assert(before + more.take(j + 1) =~= done.push(p));
                done = done.push(p);
            }
            push_line(&mut lines, line);
        }
        proof {
            assert(more.take(more.len() as int) =~= more);
            assert(all.take(i + 1).drop_last() =~= all.take(i as int));
        }
    }
    assert(all.take(all.len() as int) =~= all);
    lines
}

pub fn result_block(items: &Vec<Span>, width: usize) -> (r: Vec<Line>)
    ensures
        rows(r@) == block(pieces_of(items@), width as nat, false),
{
    result_block_inner(items, width, false)
}

/// Items with all their white space, for code and differences.
pub fn result_block_verbatim(items: &Vec<Span>, width: usize) -> (r: Vec<Line>)
    ensures
        rows(r@) == block(pieces_of(items@), width as nat, true),
{
    result_block_inner(items, width, true)
}

// ---------------------------------------------------------------------------
// Text behind a glyph
// ---------------------------------------------------------------------------

pub open spec fn glyph_piece(glyph: Seq<char>, color: Color) -> Piece {
    piece(glyph + " "@, colored(color).bolded())
}

pub fn agent_gutter(glyph: &str, color: Color) -> (r: Span)
    ensures
        r@ == glyph_piece(glyph@, color),
{
    Span { text: cat2(glyph, " "), style: colored(color).bolded() }
}

/// A glyph, then wrapped text in one colour.
pub open spec fn marked_block(glyph: Seq<char>, color: Color, text: Seq<char>, width: nat) -> Seq<
    Seq<Piece>,
> {
    led(
        styled_rows(wrapped(text, room(width, 2)), colored(color)),
        glyph_piece(glyph, color),
        raw(spaces(2)),
    )
}

pub fn marker_block(glyph: &str, color: Color, text: &str, width: usize) -> (r: Vec<Line>)
    ensures
        rows(r@) == marked_block(glyph@, color, text@, width as nat),
{
    let lines = style_lines(&wrap_one(text, less(width, 2)), colored(color));
    lead_lines(&lines, &agent_gutter(glyph, color), &spaces_span(2))
}

// ---------------------------------------------------------------------------
// Dividers
// ---------------------------------------------------------------------------

pub open spec fn smaller(a: nat, b: nat) -> nat {
    if a <= b {
        a
    } else {
        b
    }
}

/// A label between two rules, with a blank line above and below.
pub open spec fn divider(width: nat, label: Seq<char>) -> Seq<Seq<Piece>> {
    let rule = piece(
        repeated('─', smaller(room(width, label.len()) / 2, 36)),
        colored(faint()),
    );
    seq![blank_row(), seq![rule, piece(label, colored(muted())), rule], blank_row()]
}

pub fn centered_divider(width: usize, label: &str) -> (r: Vec<Line>)
    ensures
        rows(r@) == divider(width as nat, label@),
{
    let side: usize = less(width, label.unicode_len()) / 2;
    let dash = repeat_char(
        '─',
        if side <= 36 {
            side
        } else {
            36
        },
    );
    let mut lines = no_lines();
    push_line(&mut lines, blank_line());
    push_line(
        &mut lines,
        line3(
            span(dash.as_str(), colored(faint())),
            span(label, colored(muted())),
            span(dash.as_str(), colored(faint())),
        ),
    );
    push_line(&mut lines, blank_line());
    assert(rows(lines@) =~= divider(width as nat, label@));
    lines
}

/// Where history was compacted.
pub fn compaction_divider(width: usize) -> (r: Vec<Line>)
    ensures
        rows(r@) == divider(width as nat, " ✦ context compacted "@),
{
    centered_divider(width, " ✦ context compacted ")
}

/// Where older tool output was pruned.
pub fn tool_prune_divider(width: usize) -> (r: Vec<Line>)
    ensures
        rows(r@) == divider(width as nat, " ▸ older tools pruned "@),
{
    centered_divider(width, " ▸ older tools pruned ")
}

} // verus!
