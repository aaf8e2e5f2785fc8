//! Prose with light markup: emphasis, code, headings, lists, rules and tables.
use crate::style::{
    Line, Piece, Span, Style, colored, no_spans, piece, pieces_of, prefixed, push_span, raw, room,
    room_beside, row_width, spaces, spaces_span,
};
use crate::text::{chars_of, starts, string_of, strip_prefix, trim, trimmed};
use crate::theme::code;
use crate::wrap::{lemma_row_text_push, row_text};
use vstd::prelude::*;

verus! {

// ---------------------------------------------------------------------------
// Lines
// ---------------------------------------------------------------------------

/// A line with half of the free columns in front.
pub open spec fn centered(row: Seq<Piece>, width: nat) -> Seq<Piece> {
    let pad = room(width, row_width(row)) / 2;
    if pad == 0 {
        row
    } else {
        seq![raw(spaces(pad))] + row
    }
}

/// Centers a line within `width` columns.
pub fn center_line(line: Line, width: usize) -> (r: Line)
    ensures
        r@ == centered(line@, width as nat),
{
    let pad: usize = room_beside(&line, width) / 2;
    if pad == 0 {
        return line;
    }
    prefixed(spaces_span(pad), line)
}

/// `---`, `***` or `___`: three or more of one mark, with spaces between them if
/// any.
pub open spec fn thematic_break(line: Seq<char>) -> bool {
    let t = trimmed(line);
    &&& t.len() > 0
    &&& t[0] == '-' || t[0] == '*' || t[0] == '_'
    &&& forall|i: int| 0 <= i < t.len() ==> #[trigger] t[i] == t[0] || t[i] == ' '
    &&& t.filter(|c: char| c == t[0]).len() >= 3
}

pub fn is_thematic_break(line: &str) -> (r: bool)
    ensures
        r == thematic_break(line@),
{
    let t = trim(line);
    let v = chars_of(t.as_str());
    if v.len() == 0 {
        return false;
    }
    let mark = v[0];
    if mark != '-' && mark != '*' && mark != '_' {
        return false;
    }
    let ghost p = |c: char| c == v@[0];
    let mut count: usize = 0;
    assert(v@.take(0).filter(p).len() == 0) by {
        v@.take(0).lemma_filter_len(p);
    }
    for i in 0..v.len()
        invariant
            v.len() > 0,
            v@ == trimmed(line@),
            mark == v@[0],
            p == (|c: char| c == v@[0]),
            count <= i,
            count == v@.take(i as int).filter(p).len(),
            forall|k: int| 0 <= k < i ==> #[trigger] v@[k] == mark || v@[k] == ' ',
    {
        proof {
            reveal(Seq::filter);
            assert(v@.take(i + 1).drop_last() =~= v@.take(i as int));
        }
        if v[i] == mark {
            count += 1;
        } else if v[i] != ' ' {
            assert(v@[i as int] != mark && v@[i as int] != ' ');
            return false;
        }
    }
    assert(v@.take(v@.len() as int) =~= v@);
    count >= 3
}

/// What follows the marks of a heading of one of four levels.
pub open spec fn heading_of(line: Seq<char>) -> Option<Seq<char>> {
    if starts(line, "#### "@) {
        Some(line.skip(5))
    } else if starts(line, "### "@) {
        Some(line.skip(4))
    } else if starts(line, "## "@) {
        Some(line.skip(3))
    } else if starts(line, "# "@) {
        Some(line.skip(2))
    } else {
        None
    }
}

pub fn heading_text(line: &str) -> (r: Option<String>)
    ensures
        heading_of(line@) == match r {
            Some(s) => Some(s@),
            None => None,
        },
{
    proof {
        reveal_strlit("#### ");
        reveal_strlit("### ");
        reveal_strlit("## ");
        reveal_strlit("# ");
    }
    match strip_prefix(line, "#### ") {
        Some(s) => {
            return Some(s);
        },
        None => {},
    }
    match strip_prefix(line, "### ") {
        Some(s) => {
            return Some(s);
        },
        None => {},
    }
    match strip_prefix(line, "## ") {
        Some(s) => {
            return Some(s);
        },
        None => {},
    }
    strip_prefix(line, "# ")
}

// ---------------------------------------------------------------------------
// Markup within a line
// ---------------------------------------------------------------------------

/// The first position from `from` on at which `c` stands.
pub open spec fn next_at(s: Seq<char>, from: int, c: char) -> Option<int>
    decreases s.len() - from,
{
    if from < 0 || from >= s.len() {
        None
    } else if s[from] == c {
        Some(from)
    } else {
        next_at(s, from + 1, c)
    }
}

/// The first position from `from` on at which the second of two asterisks
/// stands.
pub open spec fn next_pair(s: Seq<char>, from: int) -> Option<int>
    decreases s.len() - from,
{
    if from < 1 || from >= s.len() {
        None
    } else if s[from] == '*' && s[from - 1] == '*' {
        Some(from)
    } else {
        next_pair(s, from + 1)
    }
}

/// A run of text, where there is any.
pub open spec fn flushed(buf: Seq<char>, style: Style) -> Seq<Piece> {
    if buf.len() == 0 {
        Seq::empty()
    } else {
        seq![piece(buf, style)]
    }
}

/// The kind of markup that begins at `i`: where its content begins and ends,
/// where the text goes on, and its style.
pub ghost struct Mark {
    pub from: int,
    pub to: int,
    pub next: int,
    pub style: Style,
}

/// Code between backquotes, bold between pairs of asterisks, italic between
/// single asterisks or underscores.
pub open spec fn mark_at(s: Seq<char>, i: int, base: Style) -> Option<Mark> {
    let c = s[i];
    if c == '`' && next_at(s, i + 1, '`') is Some {
        let end = next_at(s, i + 1, '`')->0;
        Some(Mark { from: i + 1, to: end, next: end + 1, style: colored(code()) })
    } else if c == '*' && i + 1 < s.len() && s[i + 1] == '*' && next_pair(s, i + 3) is Some {
        let end = next_pair(s, i + 3)->0;
        Some(Mark { from: i + 2, to: end - 1, next: end + 1, style: base.bolded() })
    } else if (c == '*' || c == '_') && i + 1 < s.len() && s[i + 1] != c && next_at(
        s,
        i + 1,
        c,
    ) is Some {
        let end = next_at(s, i + 1, c)->0;
        Some(Mark { from: i + 1, to: end, next: end + 1, style: base.slanted() })
    } else {
        None
    }
}

/// The runs from `i` on, after the plain text `buf`.
pub open spec fn inline_runs_from(s: Seq<char>, i: int, buf: Seq<char>, base: Style) -> Seq<Piece>
    decreases s.len() - i,
{
    if i < 0 || i >= s.len() {
        flushed(buf, base)
    } else {
        match mark_at(s, i, base) {
            Some(m) => if i < m.next <= s.len() {
                flushed(buf, base) + seq![piece(s.subrange(m.from, m.to), m.style)] + inline_runs_from(
                    s,
                    m.next,
                    Seq::empty(),
                    base,
                )
            } else {
                Seq::empty()
            },
            None => inline_runs_from(s, i + 1, buf.push(s[i]), base),
        }
    }
}

/// The styled runs of a line.
pub open spec fn inline_runs(s: Seq<char>, base: Style) -> Seq<Piece> {
    inline_runs_from(s, 0, Seq::empty(), base)
}

fn find_char(v: &Vec<char>, from: usize, c: char) -> (r: Option<usize>)
    ensures
        match r {
            Some(j) => next_at(v@, from as int, c) == Some(j as int) && from <= j < v.len(),
            None => next_at(v@, from as int, c) is None,
        },
{
    let mut j: usize = from;
    while j < v.len()
        invariant
            from <= j,
            next_at(v@, from as int, c) == next_at(v@, j as int, c),
        decreases v.len() - j,
    {
        if v[j] == c {
            return Some(j);
        }
        j += 1;
    }
    None
}

fn find_pair(v: &Vec<char>, from: usize) -> (r: Option<usize>)
    requires
        from >= 1,
    ensures
        match r {
            Some(j) => next_pair(v@, from as int) == Some(j as int) && from <= j < v.len(),
            None => next_pair(v@, from as int) is None,
        },
{
    let mut j: usize = from;
    while j < v.len()
        invariant
            1 <= from <= j,
            next_pair(v@, from as int) == next_pair(v@, j as int),
        decreases v.len() - j,
    {
        if v[j] == '*' && v[j - 1] == '*' {
            return Some(j);
        }
        j += 1;
    }
    None
}

/// Ends a run of plain text.
fn flush(runs: &mut Vec<Span>, buf: String, style: Style)
    ensures
        pieces_of(final(runs)@) == pieces_of(old(runs)@) + flushed(buf@, style),
{
    let ghost before = pieces_of(runs@);
    if !buf.as_str().is_empty() {
        push_span(runs, Span { text: buf, style });
        assert(pieces_of(runs@) =~= before + flushed(buf@, style));
    } else {
        assert(before + flushed(buf@, style) =~= before);
    }
}

/// The markup that begins at `i`.
fn find_mark(v: &Vec<char>, i: usize, base: Style) -> (r: Option<(usize, usize, usize, Style)>)
    requires
        i < v.len(),
    ensures
        mark_at(v@, i as int, base) == match r {
            Some((from, to, next, style)) => Some(
                Mark { from: from as int, to: to as int, next: next as int, style },
            ),
            None => None,
        },
        r matches Some((from, to, next, style)) ==> i < from <= to < next <= v.len(),
{
    let c = v[i];
    if c == '`' {
        match find_char(v, i + 1, '`') {
            Some(end) => {
                return Some((i + 1, end, end + 1, colored(code())));
            },
            None => {},
        }
    }
    if v.len() - i > 1 {
        if c == '*' && v[i + 1] == '*' && v.len() - i > 3 {
            match find_pair(v, i + 3) {
                Some(end) => {
                    return Some((i + 2, end - 1, end + 1, base.bolded()));
                },
                None => {},
            }
        }
        if (c == '*' || c == '_') && v[i + 1] != c {
            match find_char(v, i + 1, c) {
                Some(end) => {
                    return Some((i + 1, end, end + 1, base.slanted()));
                },
                None => {},
            }
        }
    }
    None
}

/// Splits a line into styled runs.
pub fn parse_inline_md(text: &str, base: Style) -> (r: Vec<Span>)
    ensures
        pieces_of(r@) == inline_runs(text@, base),
{
    let v = chars_of(text);
    let mut runs = no_spans();
    let mut buf = String::new();
    let mut i: usize = 0;
    let ghost goal = inline_runs(text@, base);
    assert(pieces_of(runs@) + inline_runs_from(v@, 0, buf@, base) =~= goal);
    while i < v.len()
        invariant
            i <= v.len(),
            pieces_of(runs@) + inline_runs_from(v@, i as int, buf@, base) == goal,
        decreases v.len() - i,
    {
        let ghost before = pieces_of(runs@);
        match find_mark(&v, i, base) {
            Some((from, to, next, style)) => {
                let ghost held = buf@;
                flush(&mut runs, buf, base);
                push_span(&mut runs, Span { text: string_of(&v, from, to), style });
                buf = String::new();
                proof {
                    let content = piece(v@.subrange(from as int, to as int), style);
                    let rest = inline_runs_from(v@, next as int, Seq::empty(), base);
                    assert(buf@ =~= Seq::<char>::empty());
                    assert(before + (flushed(held, base) + seq![content] + rest) =~= pieces_of(
                        runs@,
                    ) + rest);
                }
                i = next;
            },
            None => {
                buf.push(v[i]);
                i += 1;
            },
        }
    }
    flush(&mut runs, buf, base);
    runs
}

/// Markup adds no characters.
pub proof fn markup_only_takes_away(s: Seq<char>, base: Style)
    ensures
        row_text(inline_runs(s, base)).len() <= s.len(),
{
    lemma_inline_len(s, 0, Seq::empty(), base);
}

/// A text without marks is one run in the given style.
pub proof fn plain_text_is_one_run(s: Seq<char>, base: Style)
    requires
        forall|i: int| 0 <= i < s.len() ==> #[trigger] s[i] != '`' && s[i] != '*' && s[i] != '_',
    ensures
        inline_runs(s, base) == flushed(s, base),
{
    lemma_plain_from(s, 0, base);
    assert(s.take(0) =~= Seq::<char>::empty());
}

proof fn lemma_plain_from(s: Seq<char>, i: int, base: Style)
    requires
        0 <= i <= s.len(),
        forall|k: int| 0 <= k < s.len() ==> #[trigger] s[k] != '`' && s[k] != '*' && s[k] != '_',
    ensures
        inline_runs_from(s, i, s.take(i), base) == flushed(s, base),
    decreases s.len() - i,
{
    if i < s.len() {
        assert(s[i] != '`' && s[i] != '*' && s[i] != '_');
        lemma_plain_from(s, i + 1, base);
        assert(s.take(i).push(s[i]) =~= s.take(i + 1));
    } else {
        assert(s.take(i) =~= s);
    }
}

proof fn lemma_next_at(s: Seq<char>, from: int, c: char)
    ensures
        next_at(s, from, c) matches Some(j) ==> from <= j < s.len(),
    decreases s.len() - from,
{
    if 0 <= from < s.len() && s[from] != c {
        lemma_next_at(s, from + 1, c);
    }
}

proof fn lemma_next_pair(s: Seq<char>, from: int)
    ensures
        next_pair(s, from) matches Some(j) ==> from <= j < s.len(),
    decreases s.len() - from,
{
    if 1 <= from < s.len() && !(s[from] == '*' && s[from - 1] == '*') {
        lemma_next_pair(s, from + 1);
    }
}

/// Markup only takes characters away.
proof fn lemma_inline_len(s: Seq<char>, i: int, buf: Seq<char>, base: Style)
    requires
        0 <= i <= s.len(),
    ensures
        row_text(inline_runs_from(s, i, buf, base)).len() <= buf.len() + s.len() - i,
    decreases s.len() - i,
{
    lemma_flushed_text(buf, base);
    if i < s.len() {
        match mark_at(s, i, base) {
            Some(m) => {
                lemma_next_at(s, i + 1, '`');
                lemma_next_at(s, i + 1, s[i]);
                lemma_next_pair(s, i + 3);
                let content = piece(s.subrange(m.from, m.to), m.style);
                let rest = inline_runs_from(s, m.next, Seq::empty(), base);
                lemma_inline_len(s, m.next, Seq::empty(), base);
                lemma_row_text_push(flushed(buf, base), content);
                assert(flushed(buf, base) + seq![content] =~= flushed(buf, base).push(content));
                lemma_row_text_concat(flushed(buf, base) + seq![content], rest);
            },
            None => {
                lemma_inline_len(s, i + 1, buf.push(s[i]), base);
            },
        }
    }
}

proof fn lemma_flushed_text(buf: Seq<char>, base: Style)
    ensures
        row_text(flushed(buf, base)) == buf,
{
    if buf.len() == 0 {
        assert(buf =~= Seq::<char>::empty());
    } else {
        lemma_row_text_push(Seq::empty(), piece(buf, base));
        assert(Seq::empty().push(piece(buf, base)) =~= flushed(buf, base));
        assert(Seq::<char>::empty() + buf =~= buf);
    }
}

/// The texts of two parts make up the text of the whole.
pub proof fn lemma_row_text_concat(a: Seq<Piece>, b: Seq<Piece>)
    ensures
        row_text(a + b) == row_text(a) + row_text(b),
    decreases b.len(),
{
    if b.len() == 0 {
        assert(a + b =~= a);
        assert(row_text(a) + row_text(b) =~= row_text(a));
    } else {
        lemma_row_text_concat(a, b.drop_last());
        assert((a + b).drop_last() =~= a + b.drop_last());
        assert(row_text(a + b) =~= row_text(a) + row_text(b));
    }
}

} // verus!
