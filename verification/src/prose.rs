//! Prose as lines on the screen: paragraphs, headings, lists, code, rules and
//! tables.
use crate::markdown::{
    heading_of, heading_text, inline_runs, is_thematic_break, parse_inline_md, thematic_break,
};
use crate::style::{
    Line, Piece, Span, Style, append_lines, blank_line, blank_row, colored, copy_line, copy_span,
    line1, line2, no_lines, piece, prefixed, push_line, raw, raw_span, room, rows, span,
};
use crate::table::{
    CellAlign, align_of, cell_align, cell_texts, is_table_separator, larger, render_md_table,
    split_table_cells, table, table_cells, table_separator,
};
use crate::text::{
    blank, contains_char, is_blank, pieces, repeat_char, repeated, split, starts, starts_with,
    starts_with_char, strip_prefix, texts, trim_start, trimmed_start,
};
use crate::theme::{blue, code, faint, ink};
use crate::wrap::{code_wrapped, runs_wrapped, wrap_code_line, wrap_one, wrap_runs, wrapped};
use vstd::prelude::*;

verus! {

/// What a stretch of the text becomes, where the text goes on, and whether that
/// is inside a fenced block of code.
pub ghost struct Block {
    pub rows: Seq<Seq<Piece>>,
    pub next: int,
    pub in_code: bool,
}

/// Where the body of a table ends that may go on at `j`.
pub open spec fn table_end(lines: Seq<Seq<char>>, j: int) -> int
    decreases lines.len() - j,
{
    if 0 <= j < lines.len() && lines[j].contains('|') && !blank(lines[j]) {
        table_end(lines, j + 1)
    } else {
        j
    }
}

/// A row of cells at `i`, then a row of as many separators.
pub open spec fn table_begins(lines: Seq<Seq<char>>, i: int) -> bool {
    &&& lines[i].contains('|')
    &&& i + 1 < lines.len()
    &&& table_separator(lines[i + 1])
    &&& table_cells(lines[i]).len() > 0
    &&& table_cells(lines[i]).len() == table_cells(lines[i + 1]).len()
}

/// The rows of a body.
pub open spec fn table_body(lines: Seq<Seq<char>>, from: int, to: int) -> Seq<Seq<Seq<char>>> {
    lines.subrange(from, to).map_values(|l: Seq<char>| table_cells(l))
}

pub open spec fn aligns_of(cells: Seq<Seq<char>>) -> Seq<CellAlign> {
    cells.map_values(|c: Seq<char>| align_of(c))
}

/// Each line of a list in one style.
pub open spec fn styled_rows(list: Seq<Seq<char>>, style: Style) -> Seq<Seq<Piece>> {
    list.map_values(|s: Seq<char>| seq![piece(s, style)])
}

/// Each line of a list indented by two, in the style of code.
pub open spec fn code_rows(list: Seq<Seq<char>>) -> Seq<Seq<Piece>> {
    list.map_values(|s: Seq<char>| seq![raw("  "@), piece(s, colored(code()))])
}

/// The lines with one span in front of the first and another in front of the
/// others.
pub open spec fn led(list: Seq<Seq<Piece>>, first: Piece, rest: Piece) -> Seq<Seq<Piece>> {
    Seq::new(
        list.len(),
        |k: int|
            seq![
                if k == 0 {
                    first
                } else {
                    rest
                },
            ] + list[k],
    )
}

/// What follows the mark of a list item.
pub open spec fn item_of(s: Seq<char>) -> Option<Seq<char>> {
    if starts(s, "- "@) || starts(s, "* "@) {
        Some(s.skip(2))
    } else {
        None
    }
}

pub open spec fn dashes(width: nat) -> Seq<char> {
    repeated('─', larger(width, 1))
}

/// What a line becomes that begins no fence and no table.
pub open spec fn line_rows(line: Seq<char>, in_code: bool, width: nat) -> Seq<Seq<Piece>> {
    let head = trimmed_start(line);
    if in_code || (head.len() > 0 && (starts(line, "    "@) || (line.len() > 0 && line[0]
        == '\t'))) {
        code_rows(code_wrapped(line, room(width, 2)))
    } else if heading_of(head) is Some {
        styled_rows(wrapped(heading_of(head)->0, width), colored(blue()).bolded())
    } else if thematic_break(head) {
        seq![seq![piece(dashes(width), colored(faint()))]]
    } else if item_of(head) is Some {
        led(
            runs_wrapped(inline_runs(item_of(head)->0, colored(ink())), room(width, 2)),
            piece("• "@, colored(blue())),
            raw("  "@),
        )
    } else if blank(line) {
        seq![blank_row()]
    } else {
        runs_wrapped(inline_runs(head, colored(ink())), width)
    }
}

/// What the text becomes at line `i`.
pub open spec fn block_at(lines: Seq<Seq<char>>, i: int, in_code: bool, width: nat) -> Block {
    if starts(trimmed_start(lines[i]), "```"@) {
        Block { rows: Seq::empty(), next: i + 1, in_code: !in_code }
    } else if !in_code && table_begins(lines, i) {
        let end = table_end(lines, i + 2);
        Block {
            rows: table(
                table_cells(lines[i]),
                aligns_of(table_cells(lines[i + 1])),
                table_body(lines, i + 2, end),
                width,
            ),
            next: end,
            in_code,
        }
    } else {
        Block { rows: line_rows(lines[i], in_code, width), next: i + 1, in_code }
    }
}

pub open spec fn prose_from(lines: Seq<Seq<char>>, i: int, in_code: bool, width: nat) -> Seq<
    Seq<Piece>,
>
    decreases lines.len() - i,
{
    if i < 0 || i >= lines.len() {
        Seq::empty()
    } else {
        let b = block_at(lines, i, in_code, width);
        if i < b.next <= lines.len() {
            b.rows + prose_from(lines, b.next, b.in_code, width)
        } else {
            Seq::empty()
        }
    }
}

/// The lines that a text becomes, at least one.
pub open spec fn prose(text: Seq<char>, width: nat) -> Seq<Seq<Piece>> {
    let all = prose_from(pieces(text, '\n'), 0, false, width);
    if all.len() == 0 {
        seq![blank_row()]
    } else {
        all
    }
}

/// Each text of a list as a line in one style.
pub fn style_lines(list: &Vec<String>, style: Style) -> (r: Vec<Line>)
    ensures
        rows(r@) == styled_rows(texts(list@), style),
{
    let mut out = no_lines();
    for i in 0..list.len()
        invariant
            rows(out@).len() == i,
            forall|k: int| 0 <= k < i ==> #[trigger] rows(out@)[k] == seq![piece(list@[k]@, style)],
    {
        push_line(&mut out, line1(span(list[i].as_str(), style)));
    }
    assert(rows(out@) =~= styled_rows(texts(list@), style));
    out
}

fn code_lines(list: &Vec<String>) -> (r: Vec<Line>)
    ensures
        rows(r@) == code_rows(texts(list@)),
{
    let mut out = no_lines();
    for i in 0..list.len()
        invariant
            rows(out@).len() == i,
            forall|k: int|
                0 <= k < i ==> #[trigger] rows(out@)[k] == seq![
                    raw("  "@),
                    piece(list@[k]@, colored(code())),
                ],
    {
        push_line(&mut out, line2(raw_span("  "), span(list[i].as_str(), colored(code()))));
    }
    assert(rows(out@) =~= code_rows(texts(list@)));
    out
}

/// Puts one span in front of the first line and another in front of the others.
pub fn lead_lines(list: &Vec<Line>, first: &Span, rest: &Span) -> (r: Vec<Line>)
    ensures
        rows(r@) == led(rows(list@), first@, rest@),
{
    let mut out = no_lines();
    let ghost goal = led(rows(list@), first@, rest@);
    for i in 0..list.len()
        invariant
            goal == led(rows(list@), first@, rest@),
            rows(out@).len() == i,
            forall|k: int| 0 <= k < i ==> #[trigger] rows(out@)[k] == goal[k],
    {
        let lead = if i == 0 {
            copy_span(first)
        } else {
            copy_span(rest)
        };
        push_line(&mut out, prefixed(lead, copy_line(&list[i])));
    }
    assert(rows(out@) =~= goal);
    out
}

/// Whether a table begins at line `i`.
fn is_table(lines: &Vec<String>, i: usize) -> (r: bool)
    requires
        i < lines.len(),
    ensures
        r == table_begins(texts(lines@), i as int),
{
    let ghost all = texts(lines@);
    assert(all[i as int] == lines@[i as int]@);
    if !contains_char(lines[i].as_str(), '|') || lines.len() - i < 2 {
        return false;
    }
    assert(all[i + 1] == lines@[i + 1]@);
    if !is_table_separator(lines[i + 1].as_str()) {
        return false;
    }
    let header = split_table_cells(lines[i].as_str());
    let sep = split_table_cells(lines[i + 1].as_str());
    assert(texts(header@).len() == header@.len() && texts(sep@).len() == sep@.len());
    header.len() == sep.len()
}

/// The table that begins at line `i`, and where it ends.
fn read_table(lines: &Vec<String>, i: usize, width: usize) -> (r: (Vec<Line>, usize))
    requires
        i + 1 < lines.len(),
    ensures
        ({
            let all = texts(lines@);
            let end = table_end(all, i + 2);
            &&& rows(r.0@) == table(
                table_cells(all[i as int]),
                aligns_of(table_cells(all[i + 1])),
                table_body(all, i + 2, end),
                width as nat,
            )
            &&& r.1 == end
            &&& i + 2 <= r.1 <= lines@.len()
        }),
{
    let ghost all = texts(lines@);
    assert(all[i as int] == lines@[i as int]@);
    assert(all[i + 1] == lines@[i + 1]@);
    let header = split_table_cells(lines[i].as_str());
    let sep = split_table_cells(lines[i + 1].as_str());
    let mut aligns: Vec<CellAlign> = Vec::new();
    for k in 0..sep.len()
        invariant
            aligns@.len() == k,
            forall|m: int| 0 <= m < k ==> #[trigger] aligns@[m] == align_of(sep@[m]@),
    {
        aligns.push(cell_align(sep[k].as_str()));
    }
    assert(aligns@ =~= aligns_of(texts(sep@)));
    let mut body: Vec<Vec<String>> = Vec::new();
    let mut j: usize = i + 2;
    while j < lines.len() && contains_char(lines[j].as_str(), '|') && !is_blank(lines[j].as_str())
        invariant
            all == texts(lines@),
            i + 2 <= j <= lines.len(),
            table_end(all, i + 2) == table_end(all, j as int),
            body@.len() == j - (i + 2),
            forall|m: int|
                0 <= m < body@.len() ==> texts((#[trigger] body@[m])@) == table_cells(
                    all[m + i + 2],
                ),
        decreases lines.len() - j,
    {
        assert(all[j as int] == lines@[j as int]@);
        body.push(split_table_cells(lines[j].as_str()));
        j += 1;
    }
    proof {
        if j < lines.len() {
            assert(all[j as int] == lines@[j as int]@);
        }
        let goal = table_body(all, i + 2, j as int);
        assert forall|m: int| 0 <= m < goal.len() implies cell_texts(body@)[m] == goal[m] by {
            assert(texts(body@[m]@) == table_cells(all[m + i + 2]));
        }
        assert(cell_texts(body@) =~= goal);
    }
    (render_md_table(&header, &aligns, &body, width), j)
}

fn saturating_less_two(width: usize) -> (r: usize)
    ensures
        r == room(width as nat, 2),
{
    if width >= 2 {
        width - 2
    } else {
        0
    }
}

/// What one line becomes that begins no table and no fence.
fn render_line(raw: &str, in_code: bool, width: usize) -> (r: Vec<Line>)
    ensures
        rows(r@) == line_rows(raw@, in_code, width as nat),
{
    let head = trim_start(raw);
    let narrow = saturating_less_two(width);
    proof {
        reveal_strlit("- ");
        reveal_strlit("* ");
    }
    let indented = !head.as_str().is_empty() && (starts_with(raw, "    ") || starts_with_char(
        raw,
        '\t',
    ));
    if in_code || indented {
        return code_lines(&wrap_code_line(raw, narrow));
    }
    match heading_text(head.as_str()) {
        Some(h) => {
            return style_lines(&wrap_one(h.as_str(), width), colored(blue()).bolded());
        },
        None => {},
    }
    if is_thematic_break(head.as_str()) {
        let line = repeat_char(
            '─',
            if width >= 1 {
                width
            } else {
                1
            },
        );
        let mut out = no_lines();
        push_line(&mut out, line1(Span { text: line, style: colored(faint()) }));
        assert(rows(out@) =~= seq![seq![piece(dashes(width as nat), colored(faint()))]]);
        return out;
    }
    let item = if starts_with(head.as_str(), "- ") {
        strip_prefix(head.as_str(), "- ")
    } else {
        strip_prefix(head.as_str(), "* ")
    };
    match item {
        Some(rest) => {
            let runs = parse_inline_md(rest.as_str(), colored(ink()));
            let lines = wrap_runs(&runs, narrow);
            return lead_lines(&lines, &span("• ", colored(blue())), &raw_span("  "));
        },
        None => {},
    }
    if is_blank(raw) {
        let mut out = no_lines();
        push_line(&mut out, blank_line());
        assert(rows(out@) =~= seq![blank_row()]);
        return out;
    }
    let runs = parse_inline_md(head.as_str(), colored(ink()));
    wrap_runs(&runs, width)
}

/// What the text becomes at line `i`.
fn render_block(lines: &Vec<String>, i: usize, in_code: bool, width: usize) -> (r: (
    Vec<Line>,
    usize,
    bool,
))
    requires
        i < lines.len(),
    ensures
        block_at(texts(lines@), i as int, in_code, width as nat) == (Block {
            rows: rows(r.0@),
            next: r.1 as int,
            in_code: r.2,
        }),
        i < r.1 <= lines.len(),
{
    assert(texts(lines@)[i as int] == lines@[i as int]@);
    let head = trim_start(lines[i].as_str());
    if starts_with(head.as_str(), "```") {
        return (no_lines(), i + 1, !in_code);
    }
    if !in_code && is_table(lines, i) {
        let (more, end) = read_table(lines, i, width);
        return (more, end, in_code);
    }
    (render_line(lines[i].as_str(), in_code, width), i + 1, in_code)
}

/// Prose as lines on the screen.
pub fn render_prose(text: &str, width: usize) -> (r: Vec<Line>)
    ensures
        rows(r@) == prose(text@, width as nat),
{
    let lines = split(text, '\n');
    let ghost all = texts(lines@);
    let ghost goal = prose_from(all, 0, false, width as nat);
    let mut out = no_lines();
    let mut in_code = false;
    let mut i: usize = 0;
    assert(rows(out@) + prose_from(all, 0, in_code, width as nat) =~= goal);
    while i < lines.len()
        invariant
            all == texts(lines@),
            i <= lines.len(),
            rows(out@) + prose_from(all, i as int, in_code, width as nat) == goal,
        decreases lines.len() - i,
    {
        let ghost before = rows(out@);
        let (more, next, now_code) = render_block(&lines, i, in_code, width);
        proof {
            let b = rows(more@);
            let rest = prose_from(all, next as int, now_code, width as nat);
            assert(before + (b + rest) =~= (before + b) + rest);
        }
        append_lines(&mut out, more);
        i = next;
        in_code = now_code;
    }
    assert(rows(out@) + Seq::empty() =~= rows(out@));
    if out.len() == 0 {
        push_line(&mut out, blank_line());
        assert(rows(out@) =~= seq![blank_row()]);
    }
    out
}

} // verus!
