//! Tables: rows of cells between vertical bars, set in columns.
use crate::markdown::{
    inline_runs, lemma_row_text_concat, markup_only_takes_away, parse_inline_md,
    plain_text_is_one_run,
};
use crate::style::{
    Line, Piece, Span, Style, all_narrow, append_lines, append_spans, blank_row, colored, columns,
    copy_line, line_of, narrow, no_lines, no_spans, piece, pieces_of, prefixed, push_line,
    push_span, raw, room, room_beside, row_width, rows, spaces, spaces_span, span, suffixed,
};
use crate::text::{
    chars_of, ends_with_char, join, joined, no_texts, pieces, push_text, repeat_char, repeated,
    split, starts_with_char, string_of, texts, trim, trimmed,
};
use crate::theme::{faint, ink};
use crate::wrap::{
    all_within, narrow_row, narrow_rows_take_a_column_each, narrow_runs_stay_narrow,
    one_run_is_not_stretched, row_text, row_texts, run_wrapping_keeps_the_text, runs_wrapped,
    wrap_runs,
};
use vstd::prelude::*;

verus! {

#[derive(Clone, Copy, PartialEq, Eq, Structural, Debug)]
pub enum CellAlign {
    Left,
    Right,
    Center,
}

// ---------------------------------------------------------------------------
// Reading
// ---------------------------------------------------------------------------

/// Without a bar at the front, if there is one.
pub open spec fn no_front_bar(s: Seq<char>) -> Seq<char> {
    if s.len() > 0 && s[0] == '|' {
        s.skip(1)
    } else {
        s
    }
}

/// Without a bar at the end, if there is one.
pub open spec fn no_end_bar(s: Seq<char>) -> Seq<char> {
    if s.len() > 0 && s.last() == '|' {
        s.drop_last()
    } else {
        s
    }
}

/// The cells of a row, each without the white space around it.
pub open spec fn table_cells(line: Seq<char>) -> Seq<Seq<char>> {
    pieces(no_end_bar(no_front_bar(trimmed(line))), '|').map_values(|c: Seq<char>| trimmed(c))
}

pub fn split_table_cells(line: &str) -> (r: Vec<String>)
    ensures
        texts(r@) == table_cells(line@),
        r@.len() > 0,
{
    let t = trim(line);
    let v = chars_of(t.as_str());
    let from: usize = if v.len() > 0 && v[0] == '|' {
        1
    } else {
        0
    };
    let to: usize = if v.len() > from && v[v.len() - 1] == '|' {
        v.len() - 1
    } else {
        v.len()
    };
    let inner = string_of(&v, from, to);
    assert(inner@ =~= no_end_bar(no_front_bar(v@)));
    let parts = split(inner.as_str(), '|');
    let ghost all = texts(parts@);
    let mut out = no_texts();
    for i in 0..parts.len()
        invariant
            all == texts(parts@),
            texts(out@) == all.take(i as int).map_values(|c: Seq<char>| trimmed(c)),
    {
        let cell = trim(parts[i].as_str());
        push_text(&mut out, cell);
        proof {
            assert(all[i as int] == parts@[i as int]@);
            assert(all.take(i + 1) =~= all.take(i as int).push(all[i as int]));
            assert(all.take(i + 1).map_values(|c: Seq<char>| trimmed(c)) =~= all.take(
                i as int,
            ).map_values(|c: Seq<char>| trimmed(c)).push(trimmed(all[i as int])));
        }
    }
    assert(all.take(all.len() as int) =~= all);
    assert(texts(out@).len() == out@.len());
    out
}

/// Where the dashes begin: behind the colon in front, if there is one.
pub open spec fn dashes_from(t: Seq<char>) -> int {
    if t.len() > 0 && t[0] == ':' {
        1
    } else {
        0
    }
}

/// Where the dashes end: before the colon at the end, if there is another one.
pub open spec fn dashes_to(t: Seq<char>) -> int {
    if t.len() > dashes_from(t) && t.last() == ':' {
        t.len() - 1
    } else {
        t.len() as int
    }
}

/// One dash or more, with an optional colon at each end.
pub open spec fn separator_cell(cell: Seq<char>) -> bool {
    let t = trimmed(cell);
    &&& dashes_from(t) < dashes_to(t)
    &&& forall|i: int| dashes_from(t) <= i < dashes_to(t) ==> #[trigger] t[i] == '-'
}

/// The row between the head and the body of a table.
pub open spec fn table_separator(line: Seq<char>) -> bool {
    forall|i: int|
        0 <= i < table_cells(line).len() ==> separator_cell(#[trigger] table_cells(line)[i])
}

fn is_separator_cell(cell: &str) -> (r: bool)
    ensures
        r == separator_cell(cell@),
{
    let t = trim(cell);
    let v = chars_of(t.as_str());
    let n = v.len();
    let from: usize = if n > 0 && v[0] == ':' {
        1
    } else {
        0
    };
    let to: usize = if n > from && v[n - 1] == ':' {
        n - 1
    } else {
        n
    };
    if from >= to {
        return false;
    }
    for i in from..to
        invariant
            v@ == trimmed(cell@),
            from == dashes_from(v@),
            to == dashes_to(v@),
            to <= v.len(),
            forall|k: int| from <= k < i ==> #[trigger] v@[k] == '-',
    {
        if v[i] != '-' {
            assert(trimmed(cell@)[i as int] == v@[i as int]);
            return false;
        }
    }
    true
}

pub fn is_table_separator(line: &str) -> (r: bool)
    ensures
        r == table_separator(line@),
{
    let cells = split_table_cells(line);
    let ghost all = table_cells(line@);
    for i in 0..cells.len()
        invariant
            all == texts(cells@),
            all == table_cells(line@),
            forall|k: int| 0 <= k < i ==> separator_cell(#[trigger] all[k]),
    {
        assert(all[i as int] == cells@[i as int]@);
        if !is_separator_cell(cells[i].as_str()) {
            return false;
        }
    }
    true
}

/// A colon at the end aligns right, colons at both ends center.
pub open spec fn align_of(sep: Seq<char>) -> CellAlign {
    let s = trimmed(sep);
    if s.len() > 0 && s.last() == ':' {
        if s[0] == ':' {
            CellAlign::Center
        } else {
            CellAlign::Right
        }
    } else {
        CellAlign::Left
    }
}

pub fn cell_align(sep: &str) -> (r: CellAlign)
    ensures
        r == align_of(sep@),
{
    let s = trim(sep);
    if ends_with_char(s.as_str(), ':') {
        if starts_with_char(s.as_str(), ':') {
            CellAlign::Center
        } else {
            CellAlign::Right
        }
    } else {
        CellAlign::Left
    }
}

// ---------------------------------------------------------------------------
// Column widths
// ---------------------------------------------------------------------------

pub open spec fn total(w: Seq<nat>) -> nat
    decreases w.len(),
{
    if w.len() == 0 {
        0
    } else {
        total(w.drop_last()) + w.last()
    }
}

/// The last of the widest columns.
pub open spec fn widest(w: Seq<nat>) -> int
    decreases w.len(),
{
    if w.len() <= 1 {
        0
    } else {
        let before = widest(w.drop_last());
        if w.last() >= w[before] {
            w.len() - 1
        } else {
            before
        }
    }
}

/// No column is wider than the widest.
pub proof fn lemma_widest(w: Seq<nat>)
    requires
        w.len() > 0,
    ensures
        0 <= widest(w) < w.len(),
        forall|i: int| 0 <= i < w.len() ==> #[trigger] w[i] <= w[widest(w)],
    decreases w.len(),
{
    if w.len() > 1 {
        lemma_widest(w.drop_last());
        let before = widest(w.drop_last());
        assert forall|i: int| 0 <= i < w.len() implies #[trigger] w[i] <= w[widest(w)] by {
            if i < w.len() - 1 {
                assert(w.drop_last()[i] <= w.drop_last()[before]);
            }
        }
    }
}

/// Changing one width changes the total by as much.
pub proof fn lemma_total_update(w: Seq<nat>, i: int, x: nat)
    requires
        0 <= i < w.len(),
    ensures
        total(w.update(i, x)) == total(w) - w[i] + x,
        total(w) >= w[i],
    decreases w.len(),
{
    if i == w.len() - 1 {
        assert(w.update(i, x).drop_last() =~= w.drop_last());
    } else {
        lemma_total_update(w.drop_last(), i, x);
        assert(w.update(i, x).drop_last() =~= w.drop_last().update(i, x));
    }
}

/// One column less in the widest column.
pub open spec fn shaved_once(w: Seq<nat>) -> Seq<nat> {
    w.update(widest(w), (w[widest(w)] - 1) as nat)
}

/// Columns that do not fit are narrowed one at a time, always the widest, down
/// to three.
pub open spec fn shaved(w: Seq<nat>, avail: nat) -> Seq<nat>
    decreases total(w),
{
    if w.len() == 0 || total(w) <= avail || w[widest(w)] <= 3 {
        w
    } else {
        proof {
            lemma_widest(w);
            lemma_total_update(w, widest(w), (w[widest(w)] - 1) as nat);
        }
        shaved(shaved_once(w), avail)
    }
}

/// Narrowed columns fit, or none is wider than three. No column grew, none that
/// was narrowed is more than one narrower than any other, and none but columns
/// wider than three were narrowed.
pub proof fn shaving_takes_from_the_widest(w: Seq<nat>, avail: nat)
    ensures
        ({
            let r = shaved(w, avail);
            &&& r.len() == w.len()
            &&& total(r) <= avail || forall|i: int| 0 <= i < r.len() ==> #[trigger] r[i] <= 3
            &&& forall|i: int| 0 <= i < r.len() ==> #[trigger] r[i] <= w[i]
            &&& forall|i: int| 0 <= i < r.len() && #[trigger] r[i] < w[i] ==> r[i] >= 3
            &&& forall|i: int, j: int|
                0 <= i < r.len() && 0 <= j < r.len() && #[trigger] r[i] < w[i] ==> r[i] + 1
                    >= #[trigger] r[j]
        }),
    decreases total(w),
{
    if w.len() == 0 || total(w) <= avail || w[widest(w)] <= 3 {
        if w.len() > 0 {
            lemma_widest(w);
        }
    } else {
        let m = widest(w);
        let next = shaved_once(w);
        lemma_widest(w);
        lemma_total_update(w, m, (w[m] - 1) as nat);
        shaving_takes_from_the_widest(next, avail);
        let r = shaved(w, avail);
        assert forall|i: int| 0 <= i < r.len() implies #[trigger] r[i] <= w[i] by {
            assert(r[i] <= next[i]);
        }
        assert forall|i: int| 0 <= i < r.len() && #[trigger] r[i] < w[i] implies r[i] >= 3 by {
            if r[i] == next[i] {
                assert(i == m);
            }
        }
        assert forall|i: int, j: int|
            0 <= i < r.len() && 0 <= j < r.len() && #[trigger] r[i] < w[i] implies r[i] + 1
            >= #[trigger] r[j] by {
            if r[i] == next[i] {
                assert(i == m);
                assert(r[j] <= next[j] <= w[j] <= w[m]);
            }
        }
    }
}

pub open spec fn nats(v: Seq<usize>) -> Seq<nat> {
    v.map_values(|x: usize| x as nat)
}

fn widest_column(w: &Vec<usize>) -> (r: usize)
    requires
        w.len() > 0,
    ensures
        r == widest(nats(w@)),
        r < w.len(),
{
    let ghost all = nats(w@);
    let mut best: usize = 0;
    assert(all.take(1).len() == 1);
    for i in 1..w.len()
        invariant
            all == nats(w@),
            1 <= i <= w.len(),
            best < i,
            best == widest(all.take(i as int)),
    {
        assert(all.take(i + 1).drop_last() =~= all.take(i as int));
        assert(all.take(i + 1).last() == w@[i as int]);
        assert(all.take(i as int)[best as int] == w@[best as int]);
        if w[i] >= w[best] {
            best = i;
        }
    }
    assert(all.take(all.len() as int) =~= all);
    best
}

fn sum(w: &Vec<usize>) -> (r: u128)
    ensures
        r == total(nats(w@)),
        r <= w@.len() * (usize::MAX as nat),
{
    let ghost all = nats(w@);
    let mut s: u128 = 0;
    for i in 0..w.len()
        invariant
            all == nats(w@),
            s == total(all.take(i as int)),
            s <= i * (usize::MAX as nat),
    {
        assert(all.take(i + 1).drop_last() =~= all.take(i as int));
        assert(all.take(i + 1).last() == w@[i as int]);
        assert(i * (usize::MAX as nat) + (usize::MAX as nat) == (i + 1) * (usize::MAX as nat))
            by (nonlinear_arith);
        assert((i + 1) * (usize::MAX as nat) <= u128::MAX) by (nonlinear_arith)
            requires
                i + 1 <= usize::MAX,
                usize::MAX <= 0xffff_ffff_ffff_ffff,
        ;
        s = s + w[i] as u128;
    }
    assert(all.take(all.len() as int) =~= all);
    s
}

/// Narrows columns that do not fit.
fn shave(w: Vec<usize>, avail: u128) -> (r: Vec<usize>)
    ensures
        nats(r@) == shaved(nats(w@), avail as nat),
        r@.len() == w@.len(),
{
    let mut w = w;
    let ghost first = nats(w@);
    let mut left: u128 = sum(&w);
    while left > avail
        invariant
            left == total(nats(w@)),
            w@.len() == first.len(),
            shaved(nats(w@), avail as nat) == shaved(first, avail as nat),
        ensures
            nats(w@) == shaved(first, avail as nat),
            w@.len() == first.len(),
        decreases left,
    {
        proof {
            if w@.len() == 0 {
                assert(total(nats(w@)) == 0);
            }
        }
        let m = widest_column(&w);
        assert(nats(w@)[m as int] == w@[m as int]);
        if w[m] <= 3 {
            break;
        }
        let ghost before = nats(w@);
        let x: usize = w[m] - 1;
        w.set(m, x);
        proof {
            lemma_total_update(before, m as int, x as nat);
            assert(nats(w@) =~= before.update(m as int, x as nat));
        }
        left -= 1;
    }
    w
}

// ---------------------------------------------------------------------------
// Rows
// ---------------------------------------------------------------------------

pub open spec fn cell_texts(rows: Seq<Vec<String>>) -> Seq<Seq<Seq<char>>> {
    rows.map_values(|r: Vec<String>| texts(r@))
}

/// A row with too many cells has the rest in its last one.
pub open spec fn fitted(row: Seq<Seq<char>>, n: nat) -> Seq<Seq<char>> {
    if row.len() > n {
        row.take(n - 1).push(joined(row.skip(n - 1), " "@))
    } else {
        row
    }
}

fn fit_row(row: &Vec<String>, n: usize) -> (r: Vec<String>)
    requires
        n > 0,
    ensures
        texts(r@) == fitted(texts(row@), n as nat),
{
    let ghost all = texts(row@);
    let mut out = no_texts();
    if row.len() > n {
        for i in 0..n - 1
            invariant
                n > 0,
                row.len() > n,
                all == texts(row@),
                texts(out@) == all.take(i as int),
        {
            push_text(&mut out, row[i].clone());
            assert(all.take(i + 1) =~= all.take(i as int).push(all[i as int]));
        }
        let mut rest = no_texts();
        for i in n - 1..row.len()
            invariant
                n > 0,
                row.len() > n,
                n - 1 <= i <= row.len(),
                all == texts(row@),
                texts(rest@) == all.subrange(n - 1, i as int),
        {
            push_text(&mut rest, row[i].clone());
            assert(all.subrange(n - 1, i + 1) =~= all.subrange(n - 1, i as int).push(
                all[i as int],
            ));
        }
        assert(all.subrange(n - 1, all.len() as int) =~= all.skip(n - 1));
        push_text(&mut out, join(&rest, " "));
    } else {
        for i in 0..row.len()
            invariant
                all == texts(row@),
                texts(out@) == all.take(i as int),
        {
            push_text(&mut out, row[i].clone());
            assert(all.take(i + 1) =~= all.take(i as int).push(all[i as int]));
        }
        assert(all.take(all.len() as int) =~= all);
    }
    out
}

#[verifier::allow_in_spec]
pub fn cell_style(head: bool) -> Style
    returns
        (if head {
            colored(ink()).bolded()
        } else {
            colored(ink())
        }),
{
    if head {
        colored(ink()).bolded()
    } else {
        colored(ink())
    }
}

pub proof fn lemma_joined_concat(a: Seq<Seq<char>>, b: Seq<Seq<char>>, sep: Seq<char>)
    requires
        a.len() > 0,
        b.len() > 0,
    ensures
        joined(a + b, sep) == joined(a, sep) + sep + joined(b, sep),
    decreases b.len(),
{
    let all = a + b;
    assert(all.last() == b.last());
    if b.len() == 1 {
        assert(all.drop_last() =~= a);
    } else {
        assert(all.drop_last() =~= a + b.drop_last());
        lemma_joined_concat(a, b.drop_last(), sep);
        assert(joined(a, sep) + sep + joined(b.drop_last(), sep) + sep + b.last() =~= joined(a, sep)
            + sep + (joined(b.drop_last(), sep) + sep + b.last()));
    }
}

/// A row never has more cells than the table has columns, and none of its text is
/// lost.
pub proof fn ragged_rows_are_folded(row: Seq<Seq<char>>, n: nat)
    requires
        n > 0,
    ensures
        fitted(row, n).len() <= n,
        joined(fitted(row, n), " "@) == joined(row, " "@),
{
    if row.len() > n {
        let rest = row.skip(n - 1);
        let last = joined(rest, " "@);
        assert(row.take(n - 1) + rest =~= row);
        assert(fitted(row, n) =~= row.take(n - 1) + seq![last]);
        if n > 1 {
            lemma_joined_concat(row.take(n - 1), rest, " "@);
            lemma_joined_concat(row.take(n - 1), seq![last], " "@);
        } else {
            assert(rest =~= row);
        }
    }
}

/// The text of a cell, empty where the row is too short.
pub open spec fn cell(row: Seq<Seq<char>>, c: int) -> Seq<char> {
    if 0 <= c < row.len() {
        row[c]
    } else {
        Seq::empty()
    }
}

/// How many characters a cell shows.
pub open spec fn cell_size(text: Seq<char>, head: bool) -> nat {
    row_text(inline_runs(text, cell_style(head))).len()
}

pub open spec fn larger(a: nat, b: nat) -> nat {
    if a >= b {
        a
    } else {
        b
    }
}

/// The width of a column after some rows: enough for each of its cells.
pub open spec fn column_width(first: nat, body: Seq<Seq<Seq<char>>>, c: int) -> nat
    decreases body.len(),
{
    if body.len() == 0 {
        first
    } else {
        let before = column_width(first, body.drop_last(), c);
        if c < body.last().len() {
            larger(before, cell_size(body.last()[c], false))
        } else {
            before
        }
    }
}

/// The widths that the cells ask for, at least one.
pub open spec fn natural_widths(header: Seq<Seq<char>>, body: Seq<Seq<Seq<char>>>, n: nat) -> Seq<
    nat,
> {
    Seq::new(
        n,
        |c: int|
            column_width(
                if c < header.len() {
                    larger(1, cell_size(header[c], true))
                } else {
                    1
                },
                body,
                c,
            ),
    )
}

/// The columns that are left for cells, at least three for each.
pub open spec fn table_room(n: nat, width: nat) -> nat {
    larger(room(width, (3 * (n - 1)) as nat), 3 * n)
}

fn size_of_cell(text: &str, head: bool) -> (r: usize)
    ensures
        r == cell_size(text@, head),
{
    let runs = parse_inline_md(text, cell_style(head));
    let ghost all = pieces_of(runs@);
    let limit = chars_of(text).len();
    proof {
        markup_only_takes_away(text@, cell_style(head));
    }
    let mut n: usize = 0;
    assert(row_text(all.take(0)).len() == 0);
    for i in 0..runs.len()
        invariant
            all == pieces_of(runs@),
            row_text(all).len() <= limit,
            n == row_text(all.take(i as int)).len(),
    {
        proof {
            assert(all.take(i + 1).drop_last() =~= all.take(i as int));
            assert(all.take(i + 1).last() == runs@[i as int]@);
            lemma_row_text_concat(all.take(i + 1), all.skip(i + 1));
            assert(all.take(i + 1) + all.skip(i + 1) =~= all);
        }
        n = n + runs[i].text.as_str().unicode_len();
    }
    assert(all.take(all.len() as int) =~= all);
    n
}

fn natural_width(header: &Vec<String>, body: &Vec<Vec<String>>, c: usize) -> (r: usize)
    ensures
        r == column_width(
            if c < header@.len() {
                larger(1, cell_size(texts(header@)[c as int], true))
            } else {
                1
            },
            cell_texts(body@),
            c as int,
        ),
{
    let mut w: usize = 1;
    if c < header.len() {
        let n = size_of_cell(header[c].as_str(), true);
        if n > w {
            w = n;
        }
    }
    let ghost first = w as nat;
    let ghost all = cell_texts(body@);
    for i in 0..body.len()
        invariant
            all == cell_texts(body@),
            w == column_width(first, all.take(i as int), c as int),
    {
        assert(all.take(i + 1).drop_last() =~= all.take(i as int));
        assert(all.take(i + 1).last() == texts(body@[i as int]@));
        if c < body[i].len() {
            let n = size_of_cell(body[i][c].as_str(), false);
            if n > w {
                w = n;
            }
        }
    }
    assert(all.take(all.len() as int) =~= all);
    w
}

/// The widths of the columns of a table.
pub open spec fn table_widths(
    header: Seq<Seq<char>>,
    body: Seq<Seq<Seq<char>>>,
    width: nat,
) -> Seq<nat> {
    let n = larger(header.len(), 1);
    shaved(natural_widths(header, body, n), table_room(n, width))
}

fn column_widths(header: &Vec<String>, body: &Vec<Vec<String>>, n: usize, width: usize) -> (r: Vec<
    usize,
>)
    requires
        n == larger(header@.len(), 1),
    ensures
        nats(r@) == table_widths(texts(header@), cell_texts(body@), width as nat),
        r@.len() == n,
{
    let ghost goal = natural_widths(texts(header@), cell_texts(body@), n as nat);
    let mut w: Vec<usize> = Vec::new();
    for c in 0..n
        invariant
            goal == natural_widths(texts(header@), cell_texts(body@), n as nat),
            w@.len() == c,
            forall|k: int| 0 <= k < c ==> (#[trigger] w@[k]) as nat == goal[k],
    {
        w.push(natural_width(header, body, c));
    }
    assert(nats(w@) =~= goal);
    let gaps: u128 = 3 * (n as u128 - 1);
    let least: u128 = 3 * (n as u128);
    let left: u128 = if gaps >= width as u128 {
        0
    } else {
        width as u128 - gaps
    };
    shave(w, if left >= least { left } else { least })
}

/// A line brought to `w` columns.
pub open spec fn padded(row: Seq<Piece>, w: nat, align: CellAlign) -> Seq<Piece> {
    let pad = room(w, row_width(row));
    if pad == 0 {
        row
    } else {
        match align {
            CellAlign::Left => row.push(raw(spaces(pad))),
            CellAlign::Right => seq![raw(spaces(pad))] + row,
            CellAlign::Center => (seq![raw(spaces(pad / 2))] + row).push(
                raw(spaces((pad - pad / 2) as nat)),
            ),
        }
    }
}

pub fn pad_table_line(line: Line, w: usize, align: CellAlign) -> (r: Line)
    ensures
        r@ == padded(line@, w as nat, align),
{
    let pad = room_beside(&line, w);
    if pad == 0 {
        return line;
    }
    match align {
        CellAlign::Left => suffixed(line, spaces_span(pad)),
        CellAlign::Right => prefixed(spaces_span(pad), line),
        CellAlign::Center => {
            let l: usize = pad / 2;
            suffixed(prefixed(spaces_span(l), line), spaces_span(pad - l))
        },
    }
}

/// The lines of one cell.
pub open spec fn cell_rows(text: Seq<char>, head: bool, w: nat, align: CellAlign) -> Seq<
    Seq<Piece>,
> {
    runs_wrapped(inline_runs(text, cell_style(head)), larger(w, 1)).map_values(
        |row: Seq<Piece>| padded(row, w, align),
    )
}

fn render_cell(text: &str, head: bool, w: usize, align: CellAlign) -> (r: Vec<Line>)
    ensures
        rows(r@) == cell_rows(text@, head, w as nat, align),
{
    let runs = parse_inline_md(text, cell_style(head));
    let lines = wrap_runs(&runs, if w >= 1 { w } else { 1 });
    let ghost all = rows(lines@);
    let ghost pad = |row: Seq<Piece>| padded(row, w as nat, align);
    let mut out = no_lines();
    for i in 0..lines.len()
        invariant
            all == rows(lines@),
            pad == (|row: Seq<Piece>| padded(row, w as nat, align)),
            rows(out@) == all.take(i as int).map_values(pad),
    {
        assert(all[i as int] == lines@[i as int]@);
        push_line(&mut out, pad_table_line(copy_line(&lines[i]), w, align));
        assert(all.take(i + 1) =~= all.take(i as int).push(all[i as int]));
        assert(all.take(i + 1).map_values(pad) =~= all.take(i as int).map_values(pad).push(
            pad(all[i as int]),
        ));
    }
    assert(all.take(all.len() as int) =~= all);
    out
}

/// The alignment of a column, left where none is given.
pub open spec fn align_at(aligns: Seq<CellAlign>, c: int) -> CellAlign {
    if c < aligns.len() {
        aligns[c]
    } else {
        CellAlign::Left
    }
}

/// The cells of a row, each as lines.
pub open spec fn row_cells(
    row: Seq<Seq<char>>,
    head: bool,
    widths: Seq<nat>,
    aligns: Seq<CellAlign>,
) -> Seq<Seq<Seq<Piece>>> {
    Seq::new(
        widths.len(),
        |c: int| cell_rows(cell(row, c), head, widths[c], align_at(aligns, c)),
    )
}

/// The number of lines of the tallest cell.
pub open spec fn height(cells: Seq<Seq<Seq<Piece>>>) -> nat
    decreases cells.len(),
{
    if cells.len() == 0 {
        0
    } else {
        larger(height(cells.drop_last()), cells.last().len())
    }
}

/// Line `k` of the first `n` cells, with bars between them. A cell that is not
/// as tall is filled up.
pub open spec fn row_line(cells: Seq<Seq<Seq<Piece>>>, widths: Seq<nat>, k: int, n: int) -> Seq<
    Piece,
>
    decreases n,
{
    if n <= 0 {
        Seq::empty()
    } else {
        let before = row_line(cells, widths, k, n - 1);
        let bar = if n > 1 {
            seq![piece(" │ "@, colored(faint()))]
        } else {
            Seq::empty()
        };
        let here = if k < cells[n - 1].len() {
            cells[n - 1][k]
        } else {
            seq![raw(spaces(widths[n - 1]))]
        };
        before + bar + here
    }
}

/// The lines of a row.
pub open spec fn row_lines(cells: Seq<Seq<Seq<Piece>>>, widths: Seq<nat>) -> Seq<Seq<Piece>> {
    Seq::new(
        height(cells),
        |k: int| row_line(cells, widths, k, widths.len() as int),
    )
}

pub open spec fn line_lists(v: Seq<Vec<Line>>) -> Seq<Seq<Seq<Piece>>> {
    v.map_values(|l: Vec<Line>| rows(l@))
}

fn tallest(cells: &Vec<Vec<Line>>) -> (r: usize)
    ensures
        r == height(line_lists(cells@)),
{
    let ghost all = line_lists(cells@);
    let mut h: usize = 0;
    for c in 0..cells.len()
        invariant
            all == line_lists(cells@),
            h == height(all.take(c as int)),
    {
        assert(all.take(c + 1).drop_last() =~= all.take(c as int));
        assert(all.take(c + 1).last() == rows(cells@[c as int]@));
        if cells[c].len() > h {
            h = cells[c].len();
        }
    }
    assert(all.take(all.len() as int) =~= all);
    h
}

fn join_cells(cells: &Vec<Vec<Line>>, widths: &Vec<usize>, k: usize) -> (r: Line)
    requires
        cells.len() == widths.len(),
    ensures
        r@ == row_line(
            line_lists(cells@),
            nats(widths@),
            k as int,
            widths@.len() as int,
        ),
{
    let ghost all = line_lists(cells@);
    let mut spans = no_spans();
    for c in 0..widths.len()
        invariant
            all == line_lists(cells@),
            cells.len() == widths.len(),
            pieces_of(spans@) == row_line(all, nats(widths@), k as int, c as int),
    {
        let ghost before = pieces_of(spans@);
        if c > 0 {
            push_span(&mut spans, span(" │ ", colored(faint())));
        }
        let ghost bar = if c > 0 {
            seq![piece(" │ "@, colored(faint()))]
        } else {
            Seq::empty()
        };
        assert(pieces_of(spans@) =~= before + bar);
        assert(all[c as int] == rows(cells@[c as int]@));
        assert(nats(widths@)[c as int] == widths@[c as int]);
        if k < cells[c].len() {
            assert(all[c as int][k as int] == cells@[c as int]@[k as int]@);
            append_spans(&mut spans, copy_line(&cells[c][k]));
        } else {
            push_span(&mut spans, spaces_span(widths[c]));
            assert(pieces_of(spans@) =~= before + bar + seq![raw(spaces(widths@[c as int] as nat))]);
        }
    }
    line_of(spans)
}

fn render_row(row: &Vec<String>, head: bool, widths: &Vec<usize>, aligns: &Vec<CellAlign>) -> (r: Vec<
    Line,
>)
    ensures
        rows(r@) == row_lines(
            row_cells(texts(row@), head, nats(widths@), aligns@),
            nats(widths@),
        ),
{
    let ghost goal = row_cells(texts(row@), head, nats(widths@), aligns@);
    let mut cells: Vec<Vec<Line>> = Vec::new();
    for c in 0..widths.len()
        invariant
            goal == row_cells(texts(row@), head, nats(widths@), aligns@),
            cells@.len() == c,
            forall|i: int| 0 <= i < c ==> rows((#[trigger] cells@[i])@) == goal[i],
    {
        let align = if c < aligns.len() {
            aligns[c]
        } else {
            CellAlign::Left
        };
        assert(nats(widths@)[c as int] == widths@[c as int]);
        let lines = if c < row.len() {
            assert(texts(row@)[c as int] == row@[c as int]@);
            render_cell(row[c].as_str(), head, widths[c], align)
        } else {
            let empty = String::new();
            assert(empty@ =~= cell(texts(row@), c as int));
            render_cell(empty.as_str(), head, widths[c], align)
        };
        cells.push(lines);
    }
    assert(line_lists(cells@) =~= goal);
    let h = tallest(&cells);
    let mut out = no_lines();
    for k in 0..h
        invariant
            line_lists(cells@) == goal,
            cells.len() == widths.len(),
            rows(out@).len() == k,
            forall|i: int|
                0 <= i < k ==> #[trigger] rows(out@)[i] == row_line(
                    goal,
                    nats(widths@),
                    i,
                    widths@.len() as int,
                ),
    {
        push_line(&mut out, join_cells(&cells, widths, k));
    }
    assert(rows(out@) =~= row_lines(goal, nats(widths@)));
    out
}

/// The rule between the head and the body.
pub open spec fn rule(widths: Seq<nat>) -> Seq<Piece>
    decreases widths.len(),
{
    if widths.len() == 0 {
        Seq::empty()
    } else {
        let before = rule(widths.drop_last());
        let part = piece(repeated('─', widths.last()), colored(faint()));
        if widths.len() > 1 {
            before.push(piece("─┼─"@, colored(faint()))).push(part)
        } else {
            before.push(part)
        }
    }
}

fn render_rule(widths: &Vec<usize>) -> (r: Line)
    ensures
        r@ == rule(nats(widths@)),
{
    let ghost all = nats(widths@);
    let mut spans = no_spans();
    for c in 0..widths.len()
        invariant
            all == nats(widths@),
            pieces_of(spans@) == rule(all.take(c as int)),
    {
        assert(all.take(c + 1).drop_last() =~= all.take(c as int));
        assert(all.take(c + 1).last() == widths@[c as int]);
        if c > 0 {
            push_span(&mut spans, span("─┼─", colored(faint())));
        }
        let dashes = repeat_char('─', widths[c]);
        push_span(&mut spans, Span { text: dashes, style: colored(faint()) });
    }
    assert(all.take(all.len() as int) =~= all);
    line_of(spans)
}

/// The lines of the rows of a body.
pub open spec fn body_lines(
    body: Seq<Seq<Seq<char>>>,
    widths: Seq<nat>,
    aligns: Seq<CellAlign>,
) -> Seq<Seq<Piece>>
    decreases body.len(),
{
    if body.len() == 0 {
        Seq::empty()
    } else {
        body_lines(body.drop_last(), widths, aligns) + row_lines(
            row_cells(body.last(), false, widths, aligns),
            widths,
        )
    }
}

/// A table: the head in bold, a rule, and the body, set in columns. The head
/// decides how many columns there are.
pub open spec fn table(
    header: Seq<Seq<char>>,
    aligns: Seq<CellAlign>,
    body: Seq<Seq<Seq<char>>>,
    width: nat,
) -> Seq<Seq<Piece>> {
    let n = larger(header.len(), 1);
    let fitted_body = body.map_values(|row: Seq<Seq<char>>| fitted(row, n));
    let widths = table_widths(header, fitted_body, width);
    row_lines(row_cells(header, true, widths, aligns), widths).push(rule(widths)) + body_lines(
        fitted_body,
        widths,
        aligns,
    )
}

pub fn render_md_table(
    header: &Vec<String>,
    aligns: &Vec<CellAlign>,
    body: &Vec<Vec<String>>,
    width: usize,
) -> (r: Vec<Line>)
    ensures
        rows(r@) == table(texts(header@), aligns@, cell_texts(body@), width as nat),
{
    let n: usize = if header.len() >= 1 {
        header.len()
    } else {
        1
    };
    let ghost given = cell_texts(body@);
    let ghost goal = given.map_values(|row: Seq<Seq<char>>| fitted(row, n as nat));
    let mut fit: Vec<Vec<String>> = Vec::new();
    for i in 0..body.len()
        invariant
            n > 0,
            given == cell_texts(body@),
            goal == given.map_values(|row: Seq<Seq<char>>| fitted(row, n as nat)),
            fit@.len() == i,
            forall|k: int| 0 <= k < i ==> texts((#[trigger] fit@[k])@) == goal[k],
    {
        assert(given[i as int] == texts(body@[i as int]@));
        fit.push(fit_row(&body[i], n));
    }
    assert(cell_texts(fit@) =~= goal);
    let widths = column_widths(header, &fit, n, width);
    let mut out = render_row(header, true, &widths, aligns);
    push_line(&mut out, render_rule(&widths));
    let ghost head = rows(out@);
    assert(head + body_lines(goal.take(0), nats(widths@), aligns@) =~= head);
    for i in 0..fit.len()
        invariant
            cell_texts(fit@) == goal,
            rows(out@) == head + body_lines(goal.take(i as int), nats(widths@), aligns@),
    {
        assert(goal.take(i + 1).drop_last() =~= goal.take(i as int));
        assert(goal[i as int] == texts(fit@[i as int]@));
        let more = render_row(&fit[i], false, &widths, aligns);
        let ghost tail = rows(more@);
        append_lines(&mut out, more);
        assert(head + body_lines(goal.take(i as int), nats(widths@), aligns@) + tail =~= head + (
        body_lines(goal.take(i as int), nats(widths@), aligns@) + tail));
    }
    assert(goal.take(goal.len() as int) =~= goal);
    out
}

// ---------------------------------------------------------------------------
// Columns that line up
// ---------------------------------------------------------------------------

/// A cell shows narrow characters only, and none of its lines is wider than the
/// column.
pub open spec fn cell_in_order(text: Seq<char>, head: bool, w: nat) -> bool {
    let runs = inline_runs(text, cell_style(head));
    &&& narrow_row(runs)
    &&& all_within(row_texts(runs_wrapped(runs, larger(w, 1))), w)
}

pub open spec fn row_in_order(row: Seq<Seq<char>>, head: bool, widths: Seq<nat>) -> bool {
    forall|c: int|
        0 <= c < widths.len() ==> cell_in_order(#[trigger] cell(row, c), head, widths[c])
}

/// The columns that a table takes, bars included.
pub open spec fn table_columns(widths: Seq<nat>) -> nat {
    total(widths) + 3 * room(widths.len(), 1)
}

proof fn lemma_row_width_concat(a: Seq<Piece>, b: Seq<Piece>)
    ensures
        row_width(a + b) == row_width(a) + row_width(b),
    decreases b.len(),
{
    if b.len() == 0 {
        assert(a + b =~= a);
    } else {
        lemma_row_width_concat(a, b.drop_last());
        assert((a + b).drop_last() =~= a + b.drop_last());
        assert((a + b).last() == b.last());
    }
}

proof fn lemma_row_width_one(p: Piece)
    ensures
        row_width(seq![p]) == columns(p.text),
{
    assert(seq![p].drop_last() =~= Seq::<Piece>::empty());
    assert(row_width(seq![p].drop_last()) == 0);
}

proof fn lemma_repeated_columns(c: char, n: nat)
    requires
        narrow(c),
    ensures
        columns(repeated(c, n)) == n,
{
    assert forall|i: int| 0 <= i < repeated(c, n).len() implies narrow(
        #[trigger] repeated(c, n)[i],
    ) by {}
}

/// A line that fits is brought to the width of its column.
pub proof fn lemma_padded(row: Seq<Piece>, w: nat, align: CellAlign)
    requires
        row_width(row) <= w,
    ensures
        row_width(padded(row, w, align)) == w,
{
    let pad = room(w, row_width(row));
    let l = pad / 2;
    let r = (pad - pad / 2) as nat;
    lemma_repeated_columns(' ', pad);
    lemma_repeated_columns(' ', l);
    lemma_repeated_columns(' ', r);
    let a = raw(spaces(pad));
    let b = raw(spaces(l));
    let c = raw(spaces(r));
    lemma_row_width_one(a);
    lemma_row_width_one(b);
    lemma_row_width_one(c);
    assert(row.push(a) =~= row + seq![a]);
    assert((seq![b] + row).push(c) =~= (seq![b] + row) + seq![c]);
    lemma_row_width_concat(row, seq![a]);
    lemma_row_width_concat(seq![a], row);
    lemma_row_width_concat(seq![b], row);
    lemma_row_width_concat(seq![b] + row, seq![c]);
}

proof fn lemma_cell_columns(text: Seq<char>, head: bool, w: nat, align: CellAlign, k: int)
    requires
        cell_in_order(text, head, w),
        0 <= k < cell_rows(text, head, w, align).len(),
    ensures
        row_width(cell_rows(text, head, w, align)[k]) == w,
{
    let runs = inline_runs(text, cell_style(head));
    let list = runs_wrapped(runs, larger(w, 1));
    narrow_runs_stay_narrow(runs, larger(w, 1));
    assert(narrow_row(list[k]));
    narrow_rows_take_a_column_each(list[k]);
    assert(row_texts(list)[k] == row_text(list[k]));
    lemma_padded(list[k], w, align);
}

proof fn lemma_bars()
    ensures
        columns(" │ "@) == 3,
        columns("─┼─"@) == 3,
{
    reveal_strlit(" │ ");
    reveal_strlit("─┼─");
}

proof fn lemma_row_line_columns(
    row: Seq<Seq<char>>,
    head: bool,
    widths: Seq<nat>,
    aligns: Seq<CellAlign>,
    k: int,
    n: int,
)
    requires
        row_in_order(row, head, widths),
        0 <= n <= widths.len(),
        0 <= k,
    ensures
        row_width(row_line(row_cells(row, head, widths, aligns), widths, k, n)) == table_columns(
            widths.take(n),
        ),
    decreases n,
{
    let cells = row_cells(row, head, widths, aligns);
    assert(total(widths.take(0)) == 0);
    if n > 0 {
        lemma_row_line_columns(row, head, widths, aligns, k, n - 1);
        lemma_bars();
        let before = row_line(cells, widths, k, n - 1);
        let bar = piece(" │ "@, colored(faint()));
        let blank = raw(spaces(widths[n - 1]));
        let here = if k < cells[n - 1].len() {
            cells[n - 1][k]
        } else {
            seq![blank]
        };
        assert(cell_in_order(cell(row, n - 1), head, widths[n - 1]));
        if k < cells[n - 1].len() {
            lemma_cell_columns(cell(row, n - 1), head, widths[n - 1], align_at(aligns, n - 1), k);
        } else {
            lemma_row_width_one(blank);
            lemma_repeated_columns(' ', widths[n - 1]);
        }
        assert(widths.take(n).drop_last() =~= widths.take(n - 1));
        assert(widths.take(n).last() == widths[n - 1]);
        lemma_row_width_one(bar);
        if n > 1 {
            lemma_row_width_concat(before, seq![bar]);
            lemma_row_width_concat(before + seq![bar], here);
        } else {
            lemma_row_width_concat(before, Seq::empty());
            lemma_row_width_concat(before + Seq::<Piece>::empty(), here);
        }
    }
}

proof fn lemma_row_lines_columns(
    row: Seq<Seq<char>>,
    head: bool,
    widths: Seq<nat>,
    aligns: Seq<CellAlign>,
    k: int,
)
    requires
        row_in_order(row, head, widths),
        0 <= k < row_lines(row_cells(row, head, widths, aligns), widths).len(),
    ensures
        row_width(row_lines(row_cells(row, head, widths, aligns), widths)[k]) == table_columns(
            widths,
        ),
{
    lemma_row_line_columns(row, head, widths, aligns, k, widths.len() as int);
    assert(widths.take(widths.len() as int) =~= widths);
}

proof fn lemma_rule_columns(widths: Seq<nat>)
    ensures
        row_width(rule(widths)) == table_columns(widths),
    decreases widths.len(),
{
    if widths.len() > 0 {
        let rest = widths.drop_last();
        lemma_rule_columns(rest);
        lemma_bars();
        lemma_repeated_columns('─', widths.last());
        let before = rule(rest);
        let part = piece(repeated('─', widths.last()), colored(faint()));
        let cross = piece("─┼─"@, colored(faint()));
        assert(before.push(cross).drop_last() =~= before);
        assert(before.push(cross).push(part).drop_last() =~= before.push(cross));
        assert(before.push(part).drop_last() =~= before);
        assert(row_width(before.push(cross)) == row_width(before) + 3);
        assert(row_width(before.push(cross).push(part)) == row_width(before.push(cross))
            + widths.last());
        assert(row_width(before.push(part)) == row_width(before) + widths.last());
    }
}

proof fn lemma_body_columns(
    body: Seq<Seq<Seq<char>>>,
    widths: Seq<nat>,
    aligns: Seq<CellAlign>,
    k: int,
)
    requires
        forall|i: int| 0 <= i < body.len() ==> row_in_order(#[trigger] body[i], false, widths),
        0 <= k < body_lines(body, widths, aligns).len(),
    ensures
        row_width(body_lines(body, widths, aligns)[k]) == table_columns(widths),
    decreases body.len(),
{
    if body.len() > 0 {
        let rest = body.drop_last();
        let before = body_lines(rest, widths, aligns);
        let last = body[body.len() - 1];
        assert(last == body.last());
        if k < before.len() {
            assert forall|i: int| 0 <= i < rest.len() implies row_in_order(
                #[trigger] rest[i],
                false,
                widths,
            ) by {
                assert(rest[i] == body[i]);
            }
            lemma_body_columns(rest, widths, aligns, k);
        } else {
            assert(row_in_order(last, false, widths));
            lemma_row_lines_columns(last, false, widths, aligns, k - before.len());
        }
    }
}

/// The columns of a table line up: all its lines, the rule among them, are equally
/// wide. The cells must show narrow characters, and no line of a cell may be wider
/// than its column.
pub proof fn columns_line_up(
    header: Seq<Seq<char>>,
    aligns: Seq<CellAlign>,
    body: Seq<Seq<Seq<char>>>,
    width: nat,
    k: int,
)
    requires
        ({
            let n = larger(header.len(), 1);
            let rows = body.map_values(|row: Seq<Seq<char>>| fitted(row, n));
            let widths = table_widths(header, rows, width);
            &&& row_in_order(header, true, widths)
            &&& forall|i: int| 0 <= i < rows.len() ==> row_in_order(#[trigger] rows[i], false, widths)
        }),
        0 <= k < table(header, aligns, body, width).len(),
    ensures
        ({
            let n = larger(header.len(), 1);
            let rows = body.map_values(|row: Seq<Seq<char>>| fitted(row, n));
            row_width(table(header, aligns, body, width)[k]) == table_columns(
                table_widths(header, rows, width),
            )
        }),
{
    let n = larger(header.len(), 1);
    let rows = body.map_values(|row: Seq<Seq<char>>| fitted(row, n));
    let widths = table_widths(header, rows, width);
    let head = row_lines(row_cells(header, true, widths, aligns), widths);
    if k < head.len() {
        lemma_row_lines_columns(header, true, widths, aligns, k);
    } else if k == head.len() {
        lemma_rule_columns(widths);
    } else {
        lemma_body_columns(rows, widths, aligns, k - head.len() - 1);
    }
}

/// A column of ten characters or more holds every line of its cells.
pub proof fn wide_columns_hold_their_cells(text: Seq<char>, head: bool, w: nat)
    requires
        w >= 10,
        narrow_row(inline_runs(text, cell_style(head))),
    ensures
        cell_in_order(text, head, w),
{
    run_wrapping_keeps_the_text(inline_runs(text, cell_style(head)), w);
}

/// A cell of narrow characters without marks.
pub open spec fn plain_cell(text: Seq<char>) -> bool {
    forall|i: int|
        0 <= i < text.len() ==> narrow(#[trigger] text[i]) && text[i] != '`' && text[i] != '*'
            && text[i] != '_'
}

pub open spec fn plain_cells(row: Seq<Seq<char>>) -> bool {
    forall|c: int| 0 <= c < row.len() ==> plain_cell(#[trigger] row[c])
}

/// A plain cell is in order in a column of ten characters or more, and in one that
/// is as wide as the cell.
proof fn lemma_plain_cell(text: Seq<char>, head: bool, w: nat)
    requires
        plain_cell(text),
        w >= 10 || cell_size(text, head) <= w,
    ensures
        cell_in_order(text, head, w),
{
    let style = cell_style(head);
    let runs = inline_runs(text, style);
    plain_text_is_one_run(text, style);
    if text.len() > 0 {
        let run = piece(text, style);
        assert(runs == seq![run]);
        assert(all_narrow(text));
        assert(narrow_row(runs));
        assert(seq![run].drop_last() =~= Seq::<Piece>::empty());
        assert(row_text(seq![run].drop_last()) == Seq::<char>::empty());
        assert(row_text(runs).len() == text.len());
        one_run_is_not_stretched(run, larger(w, 1));
    } else {
        assert(runs.len() == 0);
        run_wrapping_keeps_the_text(runs, larger(w, 1));
        let list = runs_wrapped(runs, larger(w, 1));
        assert(list =~= seq![blank_row()]);
        assert(row_text(blank_row()).len() == 0);
    }
    if w >= 10 {
        wide_columns_hold_their_cells(text, head, w);
    }
}

pub proof fn lemma_column_holds(first: nat, body: Seq<Seq<Seq<char>>>, c: int, i: int)
    requires
        0 <= i < body.len(),
        0 <= c,
    ensures
        cell_size(cell(body[i], c), false) <= column_width(first, body, c),
    decreases body.len(),
{
    lemma_column_grows(first, body, c);
    if i < body.len() - 1 {
        lemma_column_holds(first, body.drop_last(), c, i);
        assert(body.drop_last()[i] == body[i]);
    } else if c >= body[i].len() {
        lemma_empty_cell();
    }
}

proof fn lemma_column_grows(first: nat, body: Seq<Seq<Seq<char>>>, c: int)
    ensures
        first <= column_width(first, body, c),
        body.len() > 0 ==> column_width(first, body.drop_last(), c) <= column_width(first, body, c),
    decreases body.len(),
{
    if body.len() > 0 {
        lemma_column_grows(first, body.drop_last(), c);
    }
}

proof fn lemma_empty_cell()
    ensures
        cell_size(Seq::empty(), false) == 0,
        cell_size(Seq::empty(), true) == 0,
{
    markup_only_takes_away(Seq::empty(), cell_style(false));
    markup_only_takes_away(Seq::empty(), cell_style(true));
}

/// The columns of a table of plain cells line up, where no column narrower than ten
/// characters had to be narrowed.
pub proof fn plain_columns_line_up(
    header: Seq<Seq<char>>,
    aligns: Seq<CellAlign>,
    body: Seq<Seq<Seq<char>>>,
    width: nat,
    k: int,
)
    requires
        ({
            let n = larger(header.len(), 1);
            let rows = body.map_values(|row: Seq<Seq<char>>| fitted(row, n));
            let natural = natural_widths(header, rows, n);
            let widths = table_widths(header, rows, width);
            &&& plain_cells(header)
            &&& forall|i: int| 0 <= i < rows.len() ==> plain_cells(#[trigger] rows[i])
            &&& forall|c: int| 0 <= c < n ==> (#[trigger] widths[c]) >= 10 || widths[c] == natural[c]
        }),
        0 <= k < table(header, aligns, body, width).len(),
    ensures
        ({
            let n = larger(header.len(), 1);
            let rows = body.map_values(|row: Seq<Seq<char>>| fitted(row, n));
            row_width(table(header, aligns, body, width)[k]) == table_columns(
                table_widths(header, rows, width),
            )
        }),
{
    let n = larger(header.len(), 1);
    let rows = body.map_values(|row: Seq<Seq<char>>| fitted(row, n));
    let natural = natural_widths(header, rows, n);
    let widths = table_widths(header, rows, width);
    shaving_takes_from_the_widest(natural, table_room(n, width));
    lemma_empty_cell();
    assert forall|c: int| 0 <= c < widths.len() implies cell_in_order(
        #[trigger] cell(header, c),
        true,
        widths[c],
    ) by {
        let first = if c < header.len() {
            larger(1, cell_size(header[c], true))
        } else {
            1
        };
        lemma_column_grows(first, rows, c);
        assert(natural[c] == column_width(first, rows, c));
        assert(plain_cell(cell(header, c)));
        lemma_plain_cell(cell(header, c), true, widths[c]);
    }
    assert forall|i: int| 0 <= i < rows.len() implies row_in_order(
        #[trigger] rows[i],
        false,
        widths,
    ) by {
        let row = rows[i];
        assert(plain_cells(row));
        assert forall|c: int| 0 <= c < widths.len() implies cell_in_order(
            #[trigger] cell(row, c),
            false,
            widths[c],
        ) by {
            let first = if c < header.len() {
                larger(1, cell_size(header[c], true))
            } else {
                1
            };
            lemma_column_holds(first, rows, c, i);
            assert(natural[c] == column_width(first, rows, c));
            assert(plain_cell(cell(row, c)));
            lemma_plain_cell(cell(row, c), false, widths[c]);
        }
    }
    columns_line_up(header, aligns, body, width, k);
}

} // verus!
