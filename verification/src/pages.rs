//! What written text becomes on the screen: fenced code, headings, lists, marks
//! within a line and the cells of tables.
use crate::lexis::{
    parts_are_joined_back, separators_part_a_text, texts_hold_their_parts,
    the_first_occurrence_gives_way, trimming_takes_the_white_space_around,
};
use crate::markdown::{
    Mark, centered, heading_of, inline_runs, inline_runs_from, mark_at, next_at, next_pair,
    thematic_break,
};
use crate::prose::{
    block_at, item_of, line_rows, prose, prose_from, table_begins, table_body, table_end,
};
use crate::style::{Piece, Style, colored, piece, raw, room, row_width, spaces, unstyled};
use crate::table::{
    CellAlign, align_of, body_lines, cell, cell_size, column_width, dashes_from, fitted, larger,
    lemma_column_holds, lemma_padded, natural_widths, padded, row_cells, row_lines, rule,
    separator_cell, table, table_cells, table_widths,
};
use crate::text::{
    blank, is_white, joined, lemma_blank_trimmed, lemma_replaced_absent, lemma_trimmed_start_skip,
    occurs, occurs_at, pieces, repeated, starts, trimmed, trimmed_start,
};
use crate::theme::{blue, code, ink};
use crate::wrap::{
    Fill, code_wrapped, expanded, lines_wrapped, runs_wrapped, wide, words_placed, wrapped,
};
use vstd::prelude::*;

verus! {

// ---------------------------------------------------------------------------
// Lines one after the other
// ---------------------------------------------------------------------------

/// A line begins with three backquotes, white space aside.
pub open spec fn fence(line: Seq<char>) -> bool {
    exists|w: Seq<char>, info: Seq<char>| blank(w) && line == #[trigger] (w + "```"@ + info)
}

/// A line is a fence by its beginning alone: whatever follows the three backquotes,
/// it shows nothing, and code begins or ends behind it.
pub proof fn fences_turn_code_on_and_off(
    lines: Seq<Seq<char>>,
    i: int,
    in_code: bool,
    width: nat,
    w: Seq<char>,
    info: Seq<char>,
)
    requires
        0 <= i < lines.len(),
        blank(w),
        lines[i] == w + "```"@ + info,
    ensures
        block_at(lines, i, in_code, width).rows.len() == 0,
        block_at(lines, i, in_code, width).next == i + 1,
        block_at(lines, i, in_code, width).in_code == !in_code,
{
    lemma_fence_head(w, info);
}

proof fn lemma_fence_head(w: Seq<char>, info: Seq<char>)
    requires
        blank(w),
    ensures
        starts(trimmed_start(w + "```"@ + info), "```"@),
{
    reveal_strlit("```");
    let line = w + "```"@ + info;
    assert forall|i: int| 0 <= i < w.len() implies is_white(#[trigger] line[i]) by {
        assert(line[i] == w[i]);
    }
    assert(line[w.len() as int] == '`');
    lemma_trimmed_start_skip(line, w.len() as int);
    assert(line.skip(w.len() as int) =~= "```"@ + info);
    texts_hold_their_parts(Seq::empty(), "```"@, info);
}

/// What no fence is has no backquotes in front.
proof fn lemma_no_fence(line: Seq<char>)
    requires
        !fence(line),
    ensures
        !starts(trimmed_start(line), "```"@),
{
    let t = trimmed_start(line);
    if starts(t, "```"@) {
        lemma_trimmed_start_parts(line);
        let w = line.take(line.len() - t.len());
        texts_hold_their_parts(t, "```"@, Seq::empty());
        let info = t.skip("```"@.len() as int);
        assert(line =~= w + t);
        assert(line =~= w + "```"@ + info);
        assert(fence(line));
    }
}

proof fn lemma_trimmed_start_parts(s: Seq<char>)
    ensures
        trimmed_start(s).len() <= s.len(),
        blank(s.take(s.len() - trimmed_start(s).len())),
        s.skip(s.len() - trimmed_start(s).len()) == trimmed_start(s),
    decreases s.len(),
{
    if s.len() > 0 && is_white(s[0]) {
        let r = s.skip(1);
        lemma_trimmed_start_parts(r);
        let t = trimmed_start(s);
        let k = s.len() - t.len();
        assert(s.skip(k) =~= r.skip(k - 1));
        assert forall|i: int| 0 <= i < k implies is_white(#[trigger] s.take(k)[i]) by {
            if i > 0 {
                assert(r.take(k - 1)[i - 1] == s[i]);
            }
        }
    } else {
        assert(s.skip(0) =~= s);
    }
}

/// How lines of code are shown: indented by two columns, in the colour of code.
pub open spec fn code_shown(body: Seq<Seq<char>>, width: nat) -> Seq<Seq<Piece>>
    decreases body.len(),
{
    if body.len() == 0 {
        Seq::empty()
    } else {
        code_wrapped(body[0], room(width, 2)).map_values(
            |s: Seq<char>| seq![raw("  "@), piece(s, colored(code()))],
        ) + code_shown(body.skip(1), width)
    }
}

/// Between an opening fence, whatever it names, and the next fence every line is
/// shown as code, and behind the closing fence prose goes on.
pub proof fn fenced_lines_are_code(
    open: Seq<char>,
    body: Seq<Seq<char>>,
    close: Seq<char>,
    rest: Seq<Seq<char>>,
    width: nat,
)
    requires
        fence(open),
        fence(close),
        forall|i: int| 0 <= i < body.len() ==> !fence(#[trigger] body[i]),
    ensures
        prose_from(seq![open] + body + seq![close] + rest, 0, false, width) == code_shown(
            body,
            width,
        ) + prose_from(rest, 0, false, width),
        prose_from(seq![open] + body, 0, false, width) == code_shown(body, width),
{
    let (w, info) = choose|w: Seq<char>, info: Seq<char>|
        blank(w) && open == #[trigger] (w + "```"@ + info);
    lemma_fence_head(w, info);
    let tail = body + seq![close] + rest;
    let all = seq![open] + body + seq![close] + rest;
    assert(all =~= seq![open] + tail);
    lemma_first_line(open, tail, false, width);
    lemma_code_until(body, close, rest, width);
    assert(Seq::<Seq<Piece>>::empty() + prose_from(tail, 0, true, width) =~= prose_from(
        tail,
        0,
        true,
        width,
    ));
    lemma_first_line(open, body, false, width);
    lemma_code_to_the_end(body, width);
    assert(Seq::<Seq<Piece>>::empty() + prose_from(body, 0, true, width) =~= prose_from(
        body,
        0,
        true,
        width,
    ));
}

proof fn lemma_code_until(
    body: Seq<Seq<char>>,
    close: Seq<char>,
    rest: Seq<Seq<char>>,
    width: nat,
)
    requires
        fence(close),
        forall|i: int| 0 <= i < body.len() ==> !fence(#[trigger] body[i]),
    ensures
        prose_from(body + seq![close] + rest, 0, true, width) == code_shown(body, width)
            + prose_from(rest, 0, false, width),
    decreases body.len(),
{
    let all = body + seq![close] + rest;
    if body.len() == 0 {
        let (w, info) = choose|w: Seq<char>, info: Seq<char>|
            blank(w) && close == #[trigger] (w + "```"@ + info);
        lemma_fence_head(w, info);
        assert(all =~= seq![close] + rest);
        lemma_first_line(close, rest, true, width);
    } else {
        let more = body.skip(1);
        assert(all =~= seq![body[0]] + (more + seq![close] + rest));
        lemma_no_fence(body[0]);
        lemma_first_line(body[0], more + seq![close] + rest, true, width);
        assert forall|i: int| 0 <= i < more.len() implies !fence(#[trigger] more[i]) by {
            assert(more[i] == body[i + 1]);
        }
        lemma_code_until(more, close, rest, width);
        lemma_code_rows(body[0], width);
        let x = line_rows(body[0], true, width);
        assert(x + (code_shown(more, width) + prose_from(rest, 0, false, width)) =~= code_shown(
            body,
            width,
        ) + prose_from(rest, 0, false, width));
    }
}

proof fn lemma_code_to_the_end(body: Seq<Seq<char>>, width: nat)
    requires
        forall|i: int| 0 <= i < body.len() ==> !fence(#[trigger] body[i]),
    ensures
        prose_from(body, 0, true, width) == code_shown(body, width),
    decreases body.len(),
{
    if body.len() > 0 {
        let more = body.skip(1);
        assert(body =~= seq![body[0]] + more);
        lemma_no_fence(body[0]);
        lemma_first_line(body[0], more, true, width);
        assert forall|i: int| 0 <= i < more.len() implies !fence(#[trigger] more[i]) by {
            assert(more[i] == body[i + 1]);
        }
        lemma_code_to_the_end(more, width);
        lemma_code_rows(body[0], width);
    }
}

proof fn lemma_code_rows(line: Seq<char>, width: nat)
    ensures
        line_rows(line, true, width) == code_wrapped(line, room(width, 2)).map_values(
            |s: Seq<char>| seq![raw("  "@), piece(s, colored(code()))],
        ),
{
    assert(line_rows(line, true, width) =~= code_wrapped(line, room(width, 2)).map_values(
        |s: Seq<char>| seq![raw("  "@), piece(s, colored(code()))],
    ));
}

/// A line that begins no table is shown, and the others are shown behind it.
proof fn lemma_first_line(line: Seq<char>, rest: Seq<Seq<char>>, in_code: bool, width: nat)
    requires
        in_code || !line.contains('|') || starts(trimmed_start(line), "```"@),
    ensures
        starts(trimmed_start(line), "```"@) ==> prose_from(
            seq![line] + rest,
            0,
            in_code,
            width,
        ) == Seq::<Seq<Piece>>::empty() + prose_from(rest, 0, !in_code, width),
        !starts(trimmed_start(line), "```"@) ==> prose_from(
            seq![line] + rest,
            0,
            in_code,
            width,
        ) == line_rows(line, in_code, width) + prose_from(rest, 0, in_code, width),
{
    let all = seq![line] + rest;
    assert(all[0] == line);
    lemma_prose_shift(seq![line], rest, 0, in_code, width);
    lemma_prose_shift(seq![line], rest, 0, !in_code, width);
    let b = block_at(all, 0, in_code, width);
    assert(b.next == 1);
}

/// Lines that are no fences and belong to no table are shown one after the other.
pub proof fn lines_are_shown_one_by_one(line: Seq<char>, rest: Seq<Seq<char>>, width: nat)
    requires
        !fence(line),
        !line.contains('|'),
    ensures
        prose_from(seq![line] + rest, 0, false, width) == line_rows(line, false, width)
            + prose_from(rest, 0, false, width),
{
    lemma_no_fence(line);
    lemma_first_line(line, rest, false, width);
}

proof fn lemma_table_end_shift(pre: Seq<Seq<char>>, lines: Seq<Seq<char>>, j: int)
    requires
        0 <= j,
    ensures
        table_end(pre + lines, pre.len() + j) == pre.len() + table_end(lines, j),
        table_end(lines, j) >= j,
        j <= lines.len() ==> table_end(lines, j) <= lines.len(),
    decreases lines.len() - j,
{
    if j < lines.len() {
        assert((pre + lines)[pre.len() + j] == lines[j]);
        if lines[j].contains('|') && !blank(lines[j]) {
            lemma_table_end_shift(pre, lines, j + 1);
        }
    }
}

proof fn lemma_prose_shift(
    pre: Seq<Seq<char>>,
    lines: Seq<Seq<char>>,
    i: int,
    in_code: bool,
    width: nat,
)
    requires
        0 <= i,
    ensures
        prose_from(pre + lines, pre.len() + i, in_code, width) == prose_from(
            lines,
            i,
            in_code,
            width,
        ),
    decreases lines.len() - i,
{
    if i < lines.len() {
        let all = pre + lines;
        let k = pre.len() + i;
        assert(all[k] == lines[i]);
        if i + 1 < lines.len() {
            assert(all[k + 1] == lines[i + 1]);
        }
        assert(table_begins(all, k) == table_begins(lines, i));
        let a = block_at(all, k, in_code, width);
        let b = block_at(lines, i, in_code, width);
        lemma_table_end_shift(pre, lines, i + 2);
        let end = table_end(lines, i + 2);
        if i + 1 < lines.len() {
            assert(table_body(all, k + 2, pre.len() + end) =~= table_body(lines, i + 2, end)) by {
                assert(all.subrange(k + 2, pre.len() + end) =~= lines.subrange(i + 2, end));
            }
        }
        assert(a.rows == b.rows && a.next == pre.len() + b.next && a.in_code == b.in_code);
        if i < b.next <= lines.len() {
            lemma_prose_shift(pre, lines, b.next, b.in_code, width);
        }
    }
}

/// A text is shown line by line, and an empty one as an empty line.
pub proof fn texts_are_shown_by_their_lines(text: Seq<char>, width: nat)
    ensures
        prose_from(pieces(text, '\n'), 0, false, width).len() > 0 ==> prose(text, width)
            == prose_from(pieces(text, '\n'), 0, false, width),
        prose_from(pieces(text, '\n'), 0, false, width).len() == 0 ==> prose(text, width)
            == seq![Seq::<Piece>::empty()],
{
}

// ---------------------------------------------------------------------------
// Single lines
// ---------------------------------------------------------------------------

/// One to four number signs and a space make a heading of what follows, bold and
/// without them; five make none.
pub proof fn number_signs_make_headings(n: nat, title: Seq<char>)
    ensures
        1 <= n <= 4 ==> heading_of(repeated('#', n) + seq![' '] + title) == Some(title),
        n > 4 || n == 0 ==> heading_of(repeated('#', n) + seq![' '] + title) is None,
        n > 0 && (title.len() == 0 || (title[0] != ' ' && title[0] != '#')) ==> heading_of(
            repeated('#', n) + title,
        ) is None,
{
    reveal_strlit("# ");
    reveal_strlit("## ");
    reveal_strlit("### ");
    reveal_strlit("#### ");
    let s = repeated('#', n) + seq![' '] + title;
    lemma_signs(s, n);
    if 1 <= n <= 4 {
        assert(s[n as int] == ' ');
        assert(s.skip(n + 1int) =~= title);
    } else if n == 0 {
        assert(s[0] == ' ');
    } else {
        assert(s[1] == '#' && s[2] == '#' && s[3] == '#' && s[4] == '#');
    }
    let t = repeated('#', n) + title;
    if n > 0 && (title.len() == 0 || (title[0] != ' ' && title[0] != '#')) {
        lemma_signs(t, n);
        if title.len() > 0 {
            assert(t[n as int] == title[0]);
        }
    }
}

proof fn lemma_signs(s: Seq<char>, n: nat)
    requires
        n <= s.len(),
        forall|i: int| 0 <= i < n ==> #[trigger] s[i] == '#',
    ensures
        starts(s, "# "@) <==> s.len() >= 2 && s[0] == '#' && s[1] == ' ',
        starts(s, "## "@) <==> s.len() >= 3 && s[0] == '#' && s[1] == '#' && s[2] == ' ',
        starts(s, "### "@) <==> s.len() >= 4 && s[0] == '#' && s[1] == '#' && s[2] == '#' && s[3]
            == ' ',
        starts(s, "#### "@) <==> s.len() >= 5 && s[0] == '#' && s[1] == '#' && s[2] == '#' && s[3]
            == '#' && s[4] == ' ',
{
    reveal_strlit("# ");
    reveal_strlit("## ");
    reveal_strlit("### ");
    reveal_strlit("#### ");
    let a = "# "@;
    let b = "## "@;
    let c = "### "@;
    let d = "#### "@;
    if s.len() >= 2 {
        let t = s.subrange(0, 2);
        assert(t[0] == s[0] && t[1] == s[1]);
        if s[0] == '#' && s[1] == ' ' {
            assert(t =~= a);
        }
    }
    if s.len() >= 3 {
        let t = s.subrange(0, 3);
        assert(t[0] == s[0] && t[1] == s[1] && t[2] == s[2]);
        if s[0] == '#' && s[1] == '#' && s[2] == ' ' {
            assert(t =~= b);
        }
    }
    if s.len() >= 4 {
        let t = s.subrange(0, 4);
        assert(t[0] == s[0] && t[1] == s[1] && t[2] == s[2] && t[3] == s[3]);
        if s[0] == '#' && s[1] == '#' && s[2] == '#' && s[3] == ' ' {
            assert(t =~= c);
        }
    }
    if s.len() >= 5 {
        let t = s.subrange(0, 5);
        assert(t[0] == s[0] && t[1] == s[1] && t[2] == s[2] && t[3] == s[3] && t[4] == s[4]);
        if s[0] == '#' && s[1] == '#' && s[2] == '#' && s[3] == '#' && s[4] == ' ' {
            assert(t =~= d);
        }
    }
}

/// Three or more dashes, asterisks or underscores, with or without spaces among
/// them, are a break; fewer, or with anything else among them, are not.
pub proof fn three_marks_make_a_break(t: Seq<char>, c: char)
    requires
        t.len() > 0,
        t[0] == c,
        t.last() == c,
        !is_white(c),
    ensures
        thematic_break(t) <==> (c == '-' || c == '*' || c == '_') && t.filter(
            |x: char| x == c,
        ).len() >= 3 && (forall|i: int| 0 <= i < t.len() ==> #[trigger] t[i] == c || t[i] == ' '),
{
    let none = Seq::<char>::empty();
    trimming_takes_the_white_space_around(none, t, none);
    assert(none + t + none =~= t);
    let s = trimmed(t);
    assert((|x: char| x == c) =~= (|x: char| x == s[0]));
}

/// A dash or an asterisk and a space make an item of what follows.
pub proof fn dashes_and_asterisks_make_items(text: Seq<char>, s: Seq<char>)
    ensures
        item_of(seq!['-', ' '] + text) == Some(text),
        item_of(seq!['*', ' '] + text) == Some(text),
        s.len() >= 2 && s[1] != ' ' ==> item_of(s) is None,
        s.len() >= 2 && s[0] != '-' && s[0] != '*' ==> item_of(s) is None,
        s.len() < 2 ==> item_of(s) is None,
{
    reveal_strlit("- ");
    reveal_strlit("* ");
    let a = seq!['-', ' '] + text;
    let b = seq!['*', ' '] + text;
    assert(a.subrange(0, 2) =~= "- "@);
    assert(b.subrange(0, 2) =~= "* "@);
    assert(a.skip(2) =~= text && b.skip(2) =~= text);
    if s.len() >= 2 {
        let t = s.subrange(0, 2);
        assert(t[0] == s[0] && t[1] == s[1]);
    }
}

/// An indented line is code, a blank line an empty one, and the first line of an
/// item has a bullet in front, the others two spaces.
pub proof fn lines_look_like_what_they_are(line: Seq<char>, text: Seq<char>, width: nat)
    ensures
        !blank(line) && (line[0] == '\t' || starts(line, "    "@)) ==> line_rows(line, false, width)
            == code_wrapped(line, room(width, 2)).map_values(
            |s: Seq<char>| seq![raw("  "@), piece(s, colored(code()))],
        ),
        blank(line) ==> line_rows(line, false, width) == seq![Seq::<Piece>::empty()],
        text.len() > 0 ==> {
            let list = line_rows(seq!['-', ' '] + text, false, width);
            let inner = runs_wrapped(inline_runs(text, colored(ink())), room(width, 2));
            thematic_break(seq!['-', ' '] + text) || (list.len() == inner.len() && forall|k: int|
                0 <= k < list.len() ==> #[trigger] list[k] == seq![
                    piece(
                        if k == 0 {
                            "• "@
                        } else {
                            "  "@
                        },
                        if k == 0 {
                            colored(blue())
                        } else {
                            unstyled()
                        },
                    ),
                ] + inner[k])
        },
{
    reveal_strlit("    ");
    lemma_blank_trimmed(line);
    if blank(line) {
        let t = trimmed_start(line);
        assert(t.len() == 0);
        reveal_strlit("# ");
        reveal_strlit("## ");
        reveal_strlit("### ");
        reveal_strlit("#### ");
        reveal_strlit("- ");
        reveal_strlit("* ");
        assert(heading_of(t) is None);
        assert(item_of(t) is None);
        assert(trimmed(t).len() == 0);
    }
    let item = seq!['-', ' '] + text;
    reveal_strlit("# ");
    reveal_strlit("## ");
    reveal_strlit("### ");
    reveal_strlit("#### ");
    assert(item[0] == '-');
    assert(trimmed_start(item) == item);
    dashes_and_asterisks_make_items(text, item);
    assert(heading_of(item) is None) by {
        if starts(item, "# "@) {
            assert(item.subrange(0, 2)[0] == item[0]);
        }
        if starts(item, "## "@) {
            assert(item.subrange(0, 3)[0] == item[0]);
        }
        if starts(item, "### "@) {
            assert(item.subrange(0, 4)[0] == item[0]);
        }
        if starts(item, "#### "@) {
            assert(item.subrange(0, 5)[0] == item[0]);
        }
    }
    if starts(item, "    "@) {
        assert(item.subrange(0, 4)[0] == item[0]);
    }
    lemma_code_rows(line, width);
}

// ---------------------------------------------------------------------------
// Marks within a line
// ---------------------------------------------------------------------------

/// No character that marks anything.
pub open spec fn unmarked(s: Seq<char>) -> bool {
    forall|i: int| 0 <= i < s.len() ==> #[trigger] s[i] != '`' && s[i] != '*' && s[i] != '_'
}

proof fn lemma_next_at(s: Seq<char>, from: int, c: char, to: int)
    requires
        0 <= from <= to < s.len(),
        s[to] == c,
        forall|i: int| from <= i < to ==> #[trigger] s[i] != c,
    ensures
        next_at(s, from, c) == Some(to),
    decreases to - from,
{
    if from < to {
        assert(s[from] != c);
        lemma_next_at(s, from + 1, c, to);
    }
}

proof fn lemma_next_none(s: Seq<char>, from: int, c: char)
    requires
        0 <= from,
        forall|i: int| from <= i < s.len() ==> #[trigger] s[i] != c,
    ensures
        next_at(s, from, c) is None,
    decreases s.len() - from,
{
    if from < s.len() {
        assert(s[from] != c);
        lemma_next_none(s, from + 1, c);
    }
}

proof fn lemma_next_pair(s: Seq<char>, from: int, to: int)
    requires
        1 <= from <= to < s.len(),
        s[to] == '*' && s[to - 1] == '*',
        forall|i: int| from <= i < to ==> !(#[trigger] s[i] == '*' && s[i - 1] == '*'),
    ensures
        next_pair(s, from) == Some(to),
    decreases to - from,
{
    if from < to {
        assert(!(s[from] == '*' && s[from - 1] == '*'));
        lemma_next_pair(s, from + 1, to);
    }
}

proof fn lemma_plain_run(s: Seq<char>, i: int, n: nat, buf: Seq<char>, base: Style)
    requires
        0 <= i,
        i + n <= s.len(),
        unmarked(s.subrange(i, i + n)),
    ensures
        inline_runs_from(s, i, buf, base) == inline_runs_from(
            s,
            i + n,
            buf + s.subrange(i, i + n),
            base,
        ),
    decreases n,
{
    let part = s.subrange(i, i + n);
    if n == 0 {
        assert(buf + part =~= buf);
    } else {
        assert(part[0] == s[i]);
        let rest = s.subrange(i + 1, i + n);
        assert forall|k: int| 0 <= k < rest.len() implies #[trigger] rest[k] != '`' && rest[k]
            != '*' && rest[k] != '_' by {
            assert(rest[k] == part[k + 1]);
        }
        lemma_plain_run(s, i + 1, (n - 1) as nat, buf.push(s[i]), base);
        assert(buf.push(s[i]) + rest =~= buf + part);
    }
}

proof fn lemma_next_at_shift(pre: Seq<char>, s: Seq<char>, i: int, c: char)
    requires
        0 <= i,
    ensures
        next_at(pre + s, pre.len() + i, c) == match next_at(s, i, c) {
            Some(k) => Some(pre.len() + k),
            None => None,
        },
        next_at(s, i, c) matches Some(k) ==> i <= k < s.len(),
    decreases s.len() - i,
{
    if i < s.len() {
        assert((pre + s)[pre.len() + i] == s[i]);
        if s[i] != c {
            lemma_next_at_shift(pre, s, i + 1, c);
        }
    }
}

proof fn lemma_next_pair_shift(pre: Seq<char>, s: Seq<char>, i: int)
    requires
        1 <= i,
    ensures
        next_pair(pre + s, pre.len() + i) == match next_pair(s, i) {
            Some(k) => Some(pre.len() + k),
            None => None,
        },
        next_pair(s, i) matches Some(k) ==> i <= k < s.len(),
    decreases s.len() - i,
{
    if i < s.len() {
        assert((pre + s)[pre.len() + i] == s[i]);
        assert((pre + s)[pre.len() + i - 1] == s[i - 1]);
        if !(s[i] == '*' && s[i - 1] == '*') {
            lemma_next_pair_shift(pre, s, i + 1);
        }
    }
}

proof fn lemma_runs_shift(pre: Seq<char>, s: Seq<char>, i: int, buf: Seq<char>, base: Style)
    requires
        0 <= i,
    ensures
        inline_runs_from(pre + s, pre.len() + i, buf, base) == inline_runs_from(s, i, buf, base),
    decreases s.len() - i,
{
    if i < s.len() {
        let all = pre + s;
        let k = pre.len() + i;
        assert(all[k] == s[i]);
        if i + 1 < s.len() {
            assert(all[k + 1] == s[i + 1]);
        }
        lemma_next_at_shift(pre, s, i + 1, '`');
        lemma_next_at_shift(pre, s, i + 1, s[i]);
        lemma_next_pair_shift(pre, s, i + 3);
        match mark_at(s, i, base) {
            Some(m) => {
                assert(mark_at(all, k, base) == Some(
                    Mark {
                        from: pre.len() + m.from,
                        to: pre.len() + m.to,
                        next: pre.len() + m.next,
                        style: m.style,
                    },
                ));
                assert(i < m.next <= s.len() && 0 <= m.from <= m.to <= s.len());
                assert(all.subrange(pre.len() + m.from, pre.len() + m.to) =~= s.subrange(
                    m.from,
                    m.to,
                ));
                lemma_runs_shift(pre, s, m.next, Seq::empty(), base);
            },
            None => {
                assert(mark_at(all, k, base) is None);
                lemma_runs_shift(pre, s, i + 1, buf.push(s[i]), base);
            },
        }
    }
}

/// What stands between two backquotes is code, between two pairs of asterisks bold,
/// and between two asterisks or underscores slanted. The marks are not shown, what
/// stands before them stays as it is, and what stands behind them is read on.
pub proof fn marks_style_what_they_hold(
    pre: Seq<char>,
    held: Seq<char>,
    rest: Seq<char>,
    base: Style,
)
    requires
        unmarked(pre),
        unmarked(held),
        held.len() > 0,
    ensures
        inline_runs(pre + seq!['`'] + held + seq!['`'] + rest, base) == text_run(pre, base) + seq![
            piece(held, colored(code())),
        ] + inline_runs(rest, base),
        inline_runs(pre + seq!['*', '*'] + held + seq!['*', '*'] + rest, base) == text_run(pre, base)
            + seq![piece(held, base.bolded())] + inline_runs(rest, base),
        inline_runs(pre + seq!['*'] + held + seq!['*'] + rest, base) == text_run(pre, base) + seq![
            piece(held, base.slanted()),
        ] + inline_runs(rest, base),
        inline_runs(pre + seq!['_'] + held + seq!['_'] + rest, base) == text_run(pre, base) + seq![
            piece(held, base.slanted()),
        ] + inline_runs(rest, base),
{
    lemma_one_mark(pre, '`', held, rest, base);
    lemma_one_mark(pre, '*', held, rest, base);
    lemma_one_mark(pre, '_', held, rest, base);
    lemma_pair_mark(pre, held, rest, base);
}

/// A text as one run, none where it is empty.
pub open spec fn text_run(s: Seq<char>, base: Style) -> Seq<Piece> {
    if s.len() == 0 {
        Seq::empty()
    } else {
        seq![piece(s, base)]
    }
}

proof fn lemma_one_mark(pre: Seq<char>, c: char, held: Seq<char>, rest: Seq<char>, base: Style)
    requires
        unmarked(pre),
        unmarked(held),
        held.len() > 0,
        c == '`' || c == '*' || c == '_',
    ensures
        inline_runs(pre + seq![c] + held + seq![c] + rest, base) == text_run(pre, base) + seq![
            piece(
                held,
                if c == '`' {
                    colored(code())
                } else {
                    base.slanted()
                },
            ),
        ] + inline_runs(rest, base),
{
    let s = pre + seq![c] + held + seq![c] + rest;
    let n = pre.len() as int;
    let e = n + 1 + held.len();
    assert(s.subrange(0, n) =~= pre);
    lemma_plain_run(s, 0, pre.len(), Seq::empty(), base);
    assert(Seq::<char>::empty() + pre =~= pre);
    assert(s[n] == c && s[e] == c);
    assert forall|i: int| n + 1 <= i < e implies #[trigger] s[i] != c by {
        assert(s[i] == held[i - n - 1]);
    }
    assert(s[n + 1] == held[0]);
    lemma_next_at(s, n + 1, c, e);
    assert(s.subrange(n + 1, e) =~= held);
    let front = pre + seq![c] + held + seq![c];
    assert(front.len() == e + 1);
    assert(s =~= front + rest);
    lemma_runs_shift(front, rest, 0, Seq::empty(), base);
}

proof fn lemma_pair_mark(pre: Seq<char>, held: Seq<char>, rest: Seq<char>, base: Style)
    requires
        unmarked(pre),
        unmarked(held),
        held.len() > 0,
    ensures
        inline_runs(pre + seq!['*', '*'] + held + seq!['*', '*'] + rest, base) == text_run(pre, base)
            + seq![piece(held, base.bolded())] + inline_runs(rest, base),
{
    let s = pre + seq!['*', '*'] + held + seq!['*', '*'] + rest;
    let n = pre.len() as int;
    let e = n + 2 + held.len();
    assert(s.subrange(0, n) =~= pre);
    lemma_plain_run(s, 0, pre.len(), Seq::empty(), base);
    assert(Seq::<char>::empty() + pre =~= pre);
    assert(s[n] == '*' && s[n + 1] == '*' && s[e] == '*' && s[e + 1] == '*');
    assert forall|i: int| n + 3 <= i < e + 1 implies !(#[trigger] s[i] == '*' && s[i - 1]
        == '*') by {
        if i < e {
            assert(s[i] == held[i - n - 2]);
        } else {
            assert(s[i - 1] == held[i - 1 - n - 2]);
        }
    }
    lemma_next_pair(s, n + 3, e + 1);
    assert(s.subrange(n + 2, e) =~= held);
    let front = pre + seq!['*', '*'] + held + seq!['*', '*'];
    assert(front.len() == e + 2);
    assert(s =~= front + rest);
    lemma_runs_shift(front, rest, 0, Seq::empty(), base);
}

/// A mark that is not closed is text.
pub proof fn an_open_mark_is_text(pre: Seq<char>, c: char, rest: Seq<char>, base: Style)
    requires
        unmarked(pre),
        unmarked(rest),
        c == '`' || c == '*' || c == '_',
    ensures
        inline_runs(pre + seq![c] + rest, base) == seq![piece(pre + seq![c] + rest, base)],
{
    let s = pre + seq![c] + rest;
    let n = pre.len() as int;
    assert(s.subrange(0, n) =~= pre);
    lemma_plain_run(s, 0, pre.len(), Seq::empty(), base);
    assert(Seq::<char>::empty() + pre =~= pre);
    assert(s[n] == c);
    assert forall|i: int| n + 1 <= i < s.len() implies #[trigger] s[i] != c by {
        assert(s[i] == rest[i - n - 1]);
    }
    lemma_next_none(s, n + 1, c);
    if n + 1 < s.len() {
        assert(s[n + 1] == rest[0]);
    }
    assert(mark_at(s, n, base) is None);
    assert(s.subrange(n + 1, n + 1 + rest.len()) =~= rest);
    lemma_plain_run(s, n + 1, rest.len(), pre.push(c), base);
    assert(pre.push(c) + rest =~= s);
}

// ---------------------------------------------------------------------------
// Tables
// ---------------------------------------------------------------------------

/// The cells of a row are what stands between its bars, without the white space
/// around; a bar at either end of the row is none between cells.
pub proof fn bars_part_cells(w: Seq<char>, inner: Seq<char>, v: Seq<char>)
    requires
        blank(w),
        blank(v),
    ensures
        table_cells(w + (seq!['|'] + inner + seq!['|']) + v) == pieces(inner, '|').map_values(
            |c: Seq<char>| trimmed(c),
        ),
        inner.len() > 0 && !is_white(inner[0]) && !is_white(inner.last()) && inner[0] != '|'
            && inner.last() != '|' ==> table_cells(w + inner + v) == pieces(inner, '|').map_values(
            |c: Seq<char>| trimmed(c),
        ),
{
    let row = seq!['|'] + inner + seq!['|'];
    assert(row[0] == '|' && row.last() == '|');
    trimming_takes_the_white_space_around(w, row, v);
    assert(row.skip(1).drop_last() =~= inner);
    assert(row.skip(1).last() == '|');
    if inner.len() > 0 && !is_white(inner[0]) && !is_white(inner.last()) {
        trimming_takes_the_white_space_around(w, inner, v);
    }
}

/// A cell of dashes separates, with a colon at either end, at both or at none; the
/// colons tell the alignment.
pub proof fn colons_tell_the_alignment(
    w: Seq<char>,
    front: bool,
    n: nat,
    back: bool,
    v: Seq<char>,
)
    requires
        blank(w),
        blank(v),
        n > 0,
    ensures
        ({
            let t = colon(front) + repeated('-', n) + colon(back);
            &&& separator_cell(w + t + v)
            &&& align_of(w + t + v) == if front && back {
                CellAlign::Center
            } else if back {
                CellAlign::Right
            } else {
                CellAlign::Left
            }
        }),
{
    let t = colon(front) + repeated('-', n) + colon(back);
    let from: int = if front {
        1
    } else {
        0
    };
    assert(t[from] == '-');
    if front {
        assert(t[0] == ':');
    }
    if back {
        assert(t.last() == ':');
    } else {
        assert(t.last() == '-');
    }
    trimming_takes_the_white_space_around(w, t, v);
}

pub open spec fn colon(there: bool) -> Seq<char> {
    if there {
        seq![':']
    } else {
        Seq::empty()
    }
}

/// Any other character, or no dash, makes a cell no separator.
pub proof fn only_dashes_separate(cell: Seq<char>, i: int)
    requires
        separator_cell(cell),
        0 <= i < trimmed(cell).len(),
    ensures
        trimmed(cell)[i] == '-' || (trimmed(cell)[i] == ':' && (i == 0 || i == trimmed(cell).len()
            - 1)),
        exists|k: int| 0 <= k < trimmed(cell).len() && #[trigger] trimmed(cell)[k] == '-',
{
    let t = trimmed(cell);
    assert(t[dashes_from(t)] == '-');
}

/// A table begins with a row of cells and as many separators below it; its body goes
/// on as long as the rows have bars.
pub proof fn tables_go_on_as_long_as_there_are_bars(lines: Seq<Seq<char>>, i: int, n: nat)
    requires
        0 <= i,
        i + 2 + n <= lines.len(),
        table_begins(lines, i),
        !fence(lines[i]),
        forall|k: int|
            i + 2 <= k < i + 2 + n ==> (#[trigger] lines[k]).contains('|') && !blank(lines[k]),
        i + 2 + n == lines.len() || !lines[i + 2 + n].contains('|'),
    ensures
        block_at(lines, i, false, 80).next == i + 2 + n,
        !block_at(lines, i, false, 80).in_code,
{
    lemma_no_fence(lines[i]);
    lemma_table_ends(lines, i + 2, n);
}

proof fn lemma_table_ends(lines: Seq<Seq<char>>, j: int, n: nat)
    requires
        0 <= j,
        j + n <= lines.len(),
        forall|k: int| j <= k < j + n ==> (#[trigger] lines[k]).contains('|') && !blank(lines[k]),
        j + n == lines.len() || !lines[j + n].contains('|'),
    ensures
        table_end(lines, j) == j + n,
    decreases n,
{
    if n > 0 {
        assert(lines[j].contains('|') && !blank(lines[j]));
        lemma_table_ends(lines, j + 1, (n - 1) as nat);
    }
}

/// A row is centred by half of the columns that it leaves free.
pub proof fn centred_rows_leave_as_much_on_both_sides(row: Seq<Piece>, width: nat)
    requires
        row_width(row) + 2 <= width,
    ensures
        centered(row, width).len() == row.len() + 1,
        centered(row, width)[0].text == repeated(' ', ((width - row_width(row)) / 2) as nat),
        centered(row, width).skip(1) == row,
{
    assert(centered(row, width).skip(1) =~= row);
}

/// What a cell leaves free stands behind it, before it, or on both sides, by its
/// alignment.
pub proof fn cells_are_aligned(row: Seq<Piece>, w: nat)
    requires
        row_width(row) < w,
    ensures
        ({
            let free = (w - row_width(row)) as nat;
            let left = padded(row, w, CellAlign::Left);
            let right = padded(row, w, CellAlign::Right);
            let center = padded(row, w, CellAlign::Center);
            &&& left.drop_last() == row && left.last().text == repeated(' ', free)
            &&& right.skip(1) == row && right[0].text == repeated(' ', free)
            &&& center.subrange(1, 1 + row.len() as int) == row && center[0].text == repeated(
                ' ',
                free / 2,
            ) && center.last().text == repeated(' ', (free - free / 2) as nat)
            &&& row_width(left) == w && row_width(right) == w && row_width(center) == w
        }),
        padded(row, row_width(row), CellAlign::Right) == row,
{
    let left = padded(row, w, CellAlign::Left);
    let right = padded(row, w, CellAlign::Right);
    let center = padded(row, w, CellAlign::Center);
    assert(left.drop_last() =~= row);
    assert(right.skip(1) =~= row);
    assert(center.subrange(1, 1 + row.len() as int) =~= row);
    lemma_padded(row, w, CellAlign::Left);
    lemma_padded(row, w, CellAlign::Right);
    lemma_padded(row, w, CellAlign::Center);
}

/// Where there is room a column is as wide as its widest cell needs, and a table has
/// its heading, then a rule, then its rows.
pub proof fn columns_are_as_wide_as_their_cells(
    header: Seq<Seq<char>>,
    aligns: Seq<CellAlign>,
    body: Seq<Seq<Seq<char>>>,
    width: nat,
    c: int,
    i: int,
)
    requires
        0 <= c < header.len(),
    ensures
        ({
            let natural = natural_widths(header, body, header.len());
            &&& natural.len() == header.len()
            &&& natural[c] >= cell_size(header[c], true)
            &&& natural[c] >= 1
            &&& 0 <= i < body.len() ==> natural[c] >= cell_size(cell(body[i], c), false)
        }),
        ({
            let fitted_body = body.map_values(|row: Seq<Seq<char>>| fitted(row, header.len()));
            let widths = table_widths(header, fitted_body, width);
            let head = row_lines(row_cells(header, true, widths, aligns), widths);
            let all = table(header, aligns, body, width);
            &&& all.len() > head.len()
            &&& all.take(head.len() as int) == head
            &&& all[head.len() as int] == rule(widths)
            &&& all.skip(head.len() + 1int) == body_lines(fitted_body, widths, aligns)
        }),
{
    let first = larger(1, cell_size(header[c], true));
    lemma_column_first(first, body, c);
    if 0 <= i < body.len() {
        lemma_column_holds(first, body, c, i);
    }
    let n = larger(header.len(), 1);
    assert(n == header.len());
    let fitted_body = body.map_values(|row: Seq<Seq<char>>| fitted(row, n));
    let widths = table_widths(header, fitted_body, width);
    let head = row_lines(row_cells(header, true, widths, aligns), widths);
    let all = table(header, aligns, body, width);
    assert(all.take(head.len() as int) =~= head);
    assert(all.skip(head.len() + 1int) =~= body_lines(fitted_body, widths, aligns));
}

proof fn lemma_column_first(first: nat, body: Seq<Seq<Seq<char>>>, c: int)
    ensures
        column_width(first, body, c) >= first,
    decreases body.len(),
{
    if body.len() > 0 {
        lemma_column_first(first, body.drop_last(), c);
    }
}

// ---------------------------------------------------------------------------
// Wrapping
// ---------------------------------------------------------------------------

/// A line that is short enough, with single spaces between its words, stays as it is.
/// No text is wrapped to less than ten columns.
pub proof fn short_lines_stay_as_they_are(text: Seq<char>, width: nat)
    requires
        !text.contains('\n'),
        text.len() <= width || text.len() <= 10,
        forall|i: int| 0 <= i < pieces(text, ' ').len() ==> (#[trigger] pieces(text, ' ')[i]).len()
            > 0,
    ensures
        wrapped(text, width) == seq![text],
{
    let w = wide(width);
    let list = pieces(text, ' ');
    let none = Seq::<char>::empty();
    separators_part_a_text(text, none, '\n');
    parts_are_joined_back(text, ' ');
    lemma_placed_side_by_side(list, w);
    let f = words_placed(Fill { done: Seq::empty(), cur: none }, list, w);
    assert(f.done.push(f.cur) =~= seq![text]);
    reveal_with_fuel(lines_wrapped, 2);
    assert(seq![text].drop_last() =~= Seq::<Seq<char>>::empty());
    assert(lines_wrapped(seq![text], w) =~= seq![text]);
}

proof fn lemma_placed_side_by_side(list: Seq<Seq<char>>, w: nat)
    requires
        forall|i: int| 0 <= i < list.len() ==> (#[trigger] list[i]).len() > 0,
        joined(list, seq![' ']).len() <= w,
    ensures
        words_placed(Fill { done: Seq::empty(), cur: Seq::empty() }, list, w) == (Fill {
            done: Seq::empty(),
            cur: joined(list, seq![' ']),
        }),
    decreases list.len(),
{
    if list.len() > 0 {
        let rest = list.drop_last();
        assert(list[list.len() - 1].len() > 0);
        assert forall|i: int| 0 <= i < rest.len() implies (#[trigger] rest[i]).len() > 0 by {
            assert(rest[i] == list[i]);
        }
        if list.len() == 1 {
            reveal_with_fuel(words_placed, 2);
            assert(rest =~= Seq::<Seq<char>>::empty());
        } else {
            lemma_placed_side_by_side(rest, w);
            lemma_joined_some(rest);
        }
    }
}

proof fn lemma_joined_some(list: Seq<Seq<char>>)
    requires
        list.len() > 0,
        forall|i: int| 0 <= i < list.len() ==> (#[trigger] list[i]).len() > 0,
    ensures
        joined(list, seq![' ']).len() > 0,
{
    assert(list[0].len() > 0);
    if list.len() > 1 {
        assert(list[list.len() - 1].len() > 0);
    }
}

/// A line of code that is short enough stays as it is, but for its tabulators, which
/// become four spaces.
pub proof fn short_code_stays_as_it_is(text: Seq<char>, width: nat)
    requires
        text.len() <= width || text.len() <= 10,
        !text.contains('\t'),
    ensures
        code_wrapped(text, width) == seq![text],
        expanded(seq!['\t'] + text) == repeated(' ', 4) + text,
{
    let tab = seq!['\t'];
    assert(!occurs(text, tab)) by {
        if occurs(text, tab) {
            let i = choose|i: int| occurs_at(text, tab, i);
            assert(text.subrange(i, i + 1)[0] == text[i]);
            assert(text.contains(text[i]));
        }
    }
    lemma_replaced_absent(text, tab, spaces(4));
    let none = Seq::<char>::empty();
    assert(none + tab + text =~= tab + text);
    the_first_occurrence_gives_way(none, tab, text, spaces(4));
    assert(none + spaces(4) + text =~= spaces(4) + text);
}

/// Each line of a text is wrapped by itself.
pub proof fn lines_are_wrapped_by_themselves(a: Seq<char>, b: Seq<char>, width: nat)
    ensures
        wrapped(a + seq!['\n'] + b, width) == wrapped(a, width) + wrapped(b, width),
{
    separators_part_a_text(a, b, '\n');
    lemma_lines_concat(pieces(a, '\n'), pieces(b, '\n'), wide(width));
}

proof fn lemma_lines_concat(a: Seq<Seq<char>>, b: Seq<Seq<char>>, w: nat)
    ensures
        lines_wrapped(a + b, w) == lines_wrapped(a, w) + lines_wrapped(b, w),
    decreases b.len(),
{
    if b.len() == 0 {
        assert(a + b =~= a);
        assert(lines_wrapped(a, w) + lines_wrapped(b, w) =~= lines_wrapped(a, w));
    } else {
        assert((a + b).drop_last() =~= a + b.drop_last());
        assert((a + b).last() == b.last());
        lemma_lines_concat(a, b.drop_last(), w);
        assert(lines_wrapped(a + b, w) =~= lines_wrapped(a, w) + lines_wrapped(b, w));
    }
}

} // verus!
