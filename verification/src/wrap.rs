//! Wrapping of text to a number of characters per line.
use crate::style::{
    Line, Piece, Span, Style, all_narrow, blank_line, blank_row, line1, line_of, narrow, no_lines,
    no_spans, piece, pieces_of, push_line, push_span, raw, raw_span, row_width, rows, spaces, span,
};
use crate::text::{
    cat2, cat3, chars_of, lemma_pieces_nonempty, no_texts, pieces, push_text, repeat_char, replace,
    replaced, split, string_of, texts,
};
use vstd::prelude::*;

verus! {

/// A line has room for at least this many characters.
pub open spec fn wide(width: nat) -> nat {
    if width > 10 {
        width
    } else {
        10
    }
}

fn at_least_ten(width: usize) -> (r: usize)
    ensures
        r == wide(width as nat),
{
    if width > 10 {
        width
    } else {
        10
    }
}

// ---------------------------------------------------------------------------
// Words that are too long for a line
// ---------------------------------------------------------------------------

/// A word cut into parts of `width` characters; the last may be shorter.
pub open spec fn chunks(word: Seq<char>, width: nat) -> Seq<Seq<char>>
    decreases word.len(),
{
    if word.len() == 0 || width == 0 {
        Seq::empty()
    } else if word.len() <= width {
        seq![word]
    } else {
        seq![word.take(width as int)] + chunks(word.skip(width as int), width)
    }
}

pub fn hard_chunks(word: &str, width: usize) -> (r: Vec<String>)
    requires
        width > 0,
    ensures
        texts(r@) == chunks(word@, width as nat),
{
    let v = chars_of(word);
    let mut out = no_texts();
    let mut i: usize = 0;
    assert(v@.skip(0) =~= word@);
    assert(texts(out@) + chunks(v@.skip(0), width as nat) =~= chunks(word@, width as nat));
    while i < v.len()
        invariant
            i <= v.len(),
            width > 0,
            texts(out@) + chunks(v@.skip(i as int), width as nat) == chunks(word@, width as nat),
        decreases v.len() - i,
    {
        let ghost rest = v@.skip(i as int);
        let ghost before = texts(out@);
        let left: usize = v.len() - i;
        let end: usize = if left <= width {
            v.len()
        } else {
            i + width
        };
        push_text(&mut out, string_of(&v, i, end));
        proof {
            if left <= width {
                assert(v@.subrange(i as int, end as int) =~= rest);
                assert(v@.skip(end as int) =~= Seq::<char>::empty());
                assert(before + seq![rest] =~= texts(out@) + Seq::empty());
            } else {
                assert(v@.subrange(i as int, end as int) =~= rest.take(width as int));
                assert(rest.skip(width as int) =~= v@.skip(end as int));
                assert(before + (seq![rest.take(width as int)] + chunks(
                    v@.skip(end as int),
                    width as nat,
                )) =~= texts(out@) + chunks(v@.skip(end as int), width as nat));
            }
        }
        i = end;
    }
    assert(v@.skip(i as int) =~= Seq::<char>::empty());
    assert(texts(out@) + Seq::empty() =~= texts(out@));
    out
}

/// The parts of a word are at most `width` long, all but the last exactly so.
pub proof fn chunks_fit(word: Seq<char>, width: nat)
    requires
        width > 0,
    ensures
        forall|i: int|
            0 <= i < chunks(word, width).len() ==> 0 < (#[trigger] chunks(word, width)[i]).len()
                <= width,
        forall|i: int|
            0 <= i < chunks(word, width).len() - 1 ==> (#[trigger] chunks(word, width)[i]).len()
                == width,
    decreases word.len(),
{
    if word.len() > width {
        let rest = chunks(word.skip(width as int), width);
        chunks_fit(word.skip(width as int), width);
        let all = chunks(word, width);
        assert forall|i: int| 0 <= i < all.len() implies 0 < (#[trigger] all[i]).len() <= width by {
            if i > 0 {
                assert(all[i] == rest[i - 1]);
            }
        }
        assert forall|i: int| 0 <= i < all.len() - 1 implies (#[trigger] all[i]).len() == width by {
            if i > 0 {
                assert(all[i] == rest[i - 1]);
            }
        }
    }
}

// ---------------------------------------------------------------------------
// Plain text
// ---------------------------------------------------------------------------

/// The lines that are finished and the one that is being filled.
pub ghost struct Fill {
    pub done: Seq<Seq<char>>,
    pub cur: Seq<char>,
}

/// Starts a new line, where the present one holds anything.
pub open spec fn broken(f: Fill) -> Fill {
    if f.cur.len() > 0 {
        Fill { done: f.done.push(f.cur), cur: Seq::empty() }
    } else {
        f
    }
}

/// The parts of a long word, each full one on a line of its own.
pub open spec fn chunks_placed(f: Fill, parts: Seq<Seq<char>>, width: nat) -> Fill
    decreases parts.len(),
{
    if parts.len() == 0 {
        f
    } else {
        let before = chunks_placed(f, parts.drop_last(), width);
        if parts.last().len() == width {
            Fill { done: before.done.push(parts.last()), ..before }
        } else {
            Fill { cur: parts.last(), ..before }
        }
    }
}

/// One more word: on the present line where it fits, else on a new one.
pub open spec fn word_placed(f: Fill, word: Seq<char>, width: nat) -> Fill {
    if word.len() == 0 {
        f
    } else if word.len() > width {
        chunks_placed(broken(f), chunks(word, width), width)
    } else if f.cur.len() == 0 {
        Fill { cur: word, ..f }
    } else if f.cur.len() + 1 + word.len() > width {
        Fill { cur: word, ..broken(f) }
    } else {
        Fill { cur: f.cur + seq![' '] + word, ..f }
    }
}

pub open spec fn words_placed(f: Fill, list: Seq<Seq<char>>, width: nat) -> Fill
    decreases list.len(),
{
    if list.len() == 0 {
        f
    } else {
        word_placed(words_placed(f, list.drop_last(), width), list.last(), width)
    }
}

/// The lines that one line of text becomes.
pub open spec fn line_wrapped(raw: Seq<char>, width: nat) -> Seq<Seq<char>> {
    let f = words_placed(Fill { done: Seq::empty(), cur: Seq::empty() }, pieces(raw, ' '), width);
    f.done.push(f.cur)
}

pub open spec fn lines_wrapped(list: Seq<Seq<char>>, width: nat) -> Seq<Seq<char>>
    decreases list.len(),
{
    if list.len() == 0 {
        Seq::empty()
    } else {
        lines_wrapped(list.drop_last(), width) + line_wrapped(list.last(), width)
    }
}

/// The lines that a text becomes. Runs of spaces collapse to one.
pub open spec fn wrapped(text: Seq<char>, width: nat) -> Seq<Seq<char>> {
    lines_wrapped(pieces(text, '\n'), wide(width))
}

fn place_word(done: &mut Vec<String>, cur: String, word: &str, width: usize) -> (r: String)
    requires
        width > 0,
        cur@.len() <= width,
    ensures
        r@.len() <= width,
        word_placed(Fill { done: texts(old(done)@), cur: cur@ }, word@, width as nat) == (Fill {
            done: texts(final(done)@),
            cur: r@,
        }),
{
    let ghost first = Fill { done: texts(done@), cur: cur@ };
    let size: usize = word.unicode_len();
    if size == 0 {
        return cur;
    }
    let held: usize = cur.as_str().unicode_len();
    if size > width {
        if held > 0 {
            push_text(done, cur);
        }
        let parts = hard_chunks(word, width);
        let ghost all = texts(parts@);
        let ghost start = broken(first);
        let mut cur = String::new();
        assert(cur@ =~= start.cur);
        proof {
            chunks_fit(word@, width as nat);
        }
        for i in 0..parts.len()
            invariant
                all == texts(parts@),
                all == chunks(word@, width as nat),
                forall|k: int| 0 <= k < all.len() ==> 0 < (#[trigger] all[k]).len() <= width,
                cur@.len() <= width,
                chunks_placed(start, all.take(i as int), width as nat) == (Fill {
                    done: texts(done@),
                    cur: cur@,
                }),
        {
            proof {
                assert(all.take(i + 1).drop_last() =~= all.take(i as int));
                assert(all.take(i + 1).last() == parts@[i as int]@);
                assert(all[i as int] == parts@[i as int]@);
            }
            if parts[i].as_str().unicode_len() == width {
                push_text(done, parts[i].clone());
            } else {
                cur = parts[i].clone();
            }
        }
        assert(all.take(all.len() as int) =~= all);
        return cur;
    }
    if held == 0 {
        word.to_owned()
    } else if size >= width - held {
        push_text(done, cur);
        word.to_owned()
    } else {
        proof {
            reveal_strlit(" ");
        }
        let r = cat3(cur.as_str(), " ", word);
        assert(" "@ =~= seq![' ']);
        r
    }
}

/// The lines that one line of text becomes, after `out`.
fn wrap_line(out: &mut Vec<String>, raw: &str, width: usize)
    requires
        width > 0,
    ensures
        texts(final(out)@) == texts(old(out)@) + line_wrapped(raw@, width as nat),
{
    let parts = split(raw, ' ');
    let ghost all = texts(parts@);
    let ghost first = Fill { done: Seq::empty(), cur: Seq::empty() };
    let mut done = no_texts();
    let mut cur = String::new();
    for i in 0..parts.len()
        invariant
            all == texts(parts@),
            width > 0,
            cur@.len() <= width,
            words_placed(first, all.take(i as int), width as nat) == (Fill {
                done: texts(done@),
                cur: cur@,
            }),
    {
        proof {
            assert(all.take(i + 1).drop_last() =~= all.take(i as int));
            assert(all.take(i + 1).last() == parts@[i as int]@);
        }
        cur = place_word(&mut done, cur, parts[i].as_str(), width);
    }
    assert(all.take(all.len() as int) =~= all);
    push_text(&mut done, cur);
    let ghost before = texts(out@);
    let ghost more = texts(done@);
    out.append(&mut done);
    assert(texts(out@) =~= before + more);
}

/// Wraps a text, which may have several lines. A line has room for at least ten
/// characters.
pub fn wrap_one(text: &str, width: usize) -> (r: Vec<String>)
    ensures
        texts(r@) == wrapped(text@, width as nat),
{
    let width = at_least_ten(width);
    let list = split(text, '\n');
    let ghost all = texts(list@);
    let mut out = no_texts();
    for i in 0..list.len()
        invariant
            all == texts(list@),
            width > 0,
            texts(out@) == lines_wrapped(all.take(i as int), width as nat),
    {
        proof {
            assert(all.take(i + 1).drop_last() =~= all.take(i as int));
            assert(all.take(i + 1).last() == list@[i as int]@);
        }
        wrap_line(&mut out, list[i].as_str(), width);
    }
    assert(all.take(all.len() as int) =~= all);
    out
}

// ---------------------------------------------------------------------------
// What wrapping guarantees
// ---------------------------------------------------------------------------

/// The texts one after the other.
pub open spec fn merged(list: Seq<Seq<char>>) -> Seq<char>
    decreases list.len(),
{
    if list.len() == 0 {
        Seq::empty()
    } else {
        merged(list.drop_last()) + list.last()
    }
}

/// What is left of a text without spaces.
pub open spec fn unspaced(s: Seq<char>) -> Seq<char> {
    s.filter(|c: char| c != ' ')
}

/// What is left of a text without spaces and line ends.
pub open spec fn letters(s: Seq<char>) -> Seq<char> {
    s.filter(|c: char| c != ' ' && c != '\n')
}

pub open spec fn all_within(list: Seq<Seq<char>>, width: nat) -> bool {
    forall|i: int| 0 <= i < list.len() ==> (#[trigger] list[i]).len() <= width
}

pub proof fn lemma_merged_push(list: Seq<Seq<char>>, s: Seq<char>)
    ensures
        merged(list.push(s)) == merged(list) + s,
{
    assert(list.push(s).drop_last() =~= list);
}

proof fn lemma_merged_concat(a: Seq<Seq<char>>, b: Seq<Seq<char>>)
    ensures
        merged(a + b) == merged(a) + merged(b),
    decreases b.len(),
{
    if b.len() == 0 {
        assert(a + b =~= a);
        assert(merged(a) + merged(b) =~= merged(a));
    } else {
        lemma_merged_concat(a, b.drop_last());
        assert((a + b).drop_last() =~= a + b.drop_last());
        assert(merged(a + b) =~= merged(a) + merged(b));
    }
}

proof fn lemma_unspaced_concat(a: Seq<char>, b: Seq<char>)
    ensures
        unspaced(a + b) == unspaced(a) + unspaced(b),
{
    Seq::filter_distributes_over_add(a, b, |c: char| c != ' ');
}

/// The parts of a word make up the word.
pub proof fn chunks_make_up_the_word(word: Seq<char>, width: nat)
    requires
        width > 0,
    ensures
        merged(chunks(word, width)) == word,
    decreases word.len(),
{
    reveal_with_fuel(merged, 2);
    if word.len() == 0 {
        assert(merged(chunks(word, width)) =~= word);
    } else if word.len() <= width {
        assert(seq![word].drop_last() =~= Seq::<Seq<char>>::empty());
        assert(merged(chunks(word, width)) =~= word);
    } else {
        let head = word.take(width as int);
        let rest = chunks(word.skip(width as int), width);
        chunks_make_up_the_word(word.skip(width as int), width);
        lemma_merged_concat(seq![head], rest);
        assert(seq![head].drop_last() =~= Seq::<Seq<char>>::empty());
        assert(merged(seq![head]) =~= head);
        assert(head + word.skip(width as int) =~= word);
    }
}

/// All that has been placed.
spec fn held(f: Fill) -> Seq<char> {
    merged(f.done) + f.cur
}

spec fn fits(f: Fill, width: nat) -> bool {
    all_within(f.done, width) && f.cur.len() <= width
}

proof fn lemma_chunks_placed(f: Fill, parts: Seq<Seq<char>>, width: nat)
    requires
        fits(f, width),
        f.cur.len() == 0,
        width > 0,
        forall|i: int| 0 <= i < parts.len() ==> 0 < (#[trigger] parts[i]).len() <= width,
        forall|i: int| 0 <= i < parts.len() - 1 ==> (#[trigger] parts[i]).len() == width,
    ensures
        fits(chunks_placed(f, parts, width), width),
        held(chunks_placed(f, parts, width)) == held(f) + merged(parts),
        parts.len() > 0 && parts.last().len() == width ==> chunks_placed(
            f,
            parts,
            width,
        ).cur.len() == 0,
    decreases parts.len(),
{
    if parts.len() == 0 {
        assert(held(f) + merged(parts) =~= held(f));
    } else {
        let most = parts.drop_last();
        assert forall|i: int| 0 <= i < most.len() implies 0 < (#[trigger] most[i]).len()
            <= width by {
            assert(most[i] == parts[i]);
        }
        assert forall|i: int| 0 <= i < most.len() - 1 implies (#[trigger] most[i]).len()
            == width by {
            assert(most[i] == parts[i]);
        }
        lemma_chunks_placed(f, most, width);
        let before = chunks_placed(f, most, width);
        let after = chunks_placed(f, parts, width);
        let last = parts[parts.len() - 1];
        if most.len() > 0 {
            assert(most.last() == parts[parts.len() - 2]);
        }
        assert(before.cur.len() == 0);
        if last.len() == width {
            lemma_merged_push(before.done, last);
            assert forall|i: int| 0 <= i < after.done.len() implies (#[trigger] after.done[i]).len()
                <= width by {
                if i < before.done.len() {
                    assert(after.done[i] == before.done[i]);
                }
            }
        }
        assert(held(after) =~= held(f) + merged(parts));
    }
}

proof fn lemma_broken(f: Fill, width: nat)
    requires
        fits(f, width),
    ensures
        fits(broken(f), width),
        broken(f).cur.len() == 0,
        held(broken(f)) == held(f),
{
    if f.cur.len() > 0 {
        let b = broken(f);
        lemma_merged_push(f.done, f.cur);
        assert forall|i: int| 0 <= i < b.done.len() implies (#[trigger] b.done[i]).len()
            <= width by {
            if i < f.done.len() {
                assert(b.done[i] == f.done[i]);
            }
        }
        assert(held(b) =~= held(f));
    }
}

proof fn lemma_unspaced_space()
    ensures
        unspaced(seq![' ']) == Seq::<char>::empty(),
        unspaced(Seq::<char>::empty()) == Seq::<char>::empty(),
{
    let p = |c: char| c != ' ';
    let none = Seq::<char>::empty();
    none.lemma_filter_len(p);
    assert(unspaced(none) =~= none);
    none.lemma_filter_push(' ', p);
    assert(none.push(' ') =~= seq![' ']);
}

proof fn lemma_word_placed(f: Fill, word: Seq<char>, width: nat)
    requires
        fits(f, width),
        width > 0,
    ensures
        fits(word_placed(f, word, width), width),
        unspaced(held(word_placed(f, word, width))) == unspaced(held(f)) + unspaced(word),
{
    let after = word_placed(f, word, width);
    lemma_unspaced_space();
    if word.len() == 0 {
        assert(word =~= Seq::<char>::empty());
        assert(unspaced(held(f)) + unspaced(word) =~= unspaced(held(f)));
    } else if word.len() > width {
        lemma_broken(f, width);
        chunks_fit(word, width);
        lemma_chunks_placed(broken(f), chunks(word, width), width);
        chunks_make_up_the_word(word, width);
        lemma_unspaced_concat(held(f), word);
    } else if f.cur.len() == 0 {
        assert(held(after) =~= held(f) + word);
        lemma_unspaced_concat(held(f), word);
    } else if f.cur.len() + 1 + word.len() > width {
        lemma_broken(f, width);
        assert(held(after) =~= held(f) + word);
        lemma_unspaced_concat(held(f), word);
    } else {
        assert(held(after) =~= held(f) + seq![' '] + word);
        lemma_unspaced_concat(held(f) + seq![' '], word);
        lemma_unspaced_concat(held(f), seq![' ']);
        assert(unspaced(held(f)) + Seq::<char>::empty() =~= unspaced(held(f)));
    }
}

proof fn lemma_words_placed(f: Fill, list: Seq<Seq<char>>, width: nat)
    requires
        fits(f, width),
        width > 0,
    ensures
        fits(words_placed(f, list, width), width),
        unspaced(held(words_placed(f, list, width))) == unspaced(held(f)) + unspaced(merged(list)),
    decreases list.len(),
{
    lemma_unspaced_space();
    if list.len() == 0 {
        assert(unspaced(held(f)) + unspaced(merged(list)) =~= unspaced(held(f)));
    } else {
        lemma_words_placed(f, list.drop_last(), width);
        lemma_word_placed(words_placed(f, list.drop_last(), width), list.last(), width);
        lemma_unspaced_concat(merged(list.drop_last()), list.last());
        assert(unspaced(held(f)) + (unspaced(merged(list.drop_last())) + unspaced(list.last()))
            =~= unspaced(held(f)) + unspaced(merged(list.drop_last())) + unspaced(list.last()));
    }
}

/// The parts between separators hold everything but the separators.
proof fn lemma_pieces_merged(s: Seq<char>, sep: char)
    ensures
        merged(pieces(s, sep)) == s.filter(|c: char| c != sep),
    decreases s.len(),
{
    reveal(Seq::filter);
    reveal_with_fuel(merged, 2);
    let keep = |c: char| c != sep;
    if s.len() == 0 {
        assert(pieces(s, sep).drop_last() =~= Seq::<Seq<char>>::empty());
        assert(merged(pieces(s, sep)) =~= s.filter(keep));
    } else {
        let before = pieces(s.drop_last(), sep);
        lemma_pieces_merged(s.drop_last(), sep);
        lemma_pieces_nonempty(s.drop_last(), sep);
        if s.last() == sep {
            lemma_merged_push(before, Seq::empty());
            assert(merged(before) + Seq::<char>::empty() =~= merged(before));
        } else {
            lemma_merged_push(before.drop_last(), before.last().push(s.last()));
            assert(merged(pieces(s, sep)) =~= merged(before).push(s.last()));
        }
    }
}

proof fn lemma_line_wrapped(raw: Seq<char>, width: nat)
    requires
        width > 0,
    ensures
        all_within(line_wrapped(raw, width), width),
        unspaced(merged(line_wrapped(raw, width))) == unspaced(raw),
{
    let first = Fill { done: Seq::empty(), cur: Seq::empty() };
    let list = pieces(raw, ' ');
    let f = words_placed(first, list, width);
    lemma_words_placed(first, list, width);
    lemma_merged_push(f.done, f.cur);
    lemma_pieces_merged(raw, ' ');
    lemma_unspaced_space();
    assert(held(first) =~= Seq::<char>::empty());
    assert(unspaced(held(first)) + unspaced(merged(list)) =~= unspaced(merged(list)));
    lemma_filter_twice(raw);
    let out = line_wrapped(raw, width);
    assert forall|i: int| 0 <= i < out.len() implies (#[trigger] out[i]).len() <= width by {
        if i < f.done.len() {
            assert(out[i] == f.done[i]);
        }
    }
}

proof fn lemma_filter_twice(s: Seq<char>)
    ensures
        unspaced(unspaced(s)) == unspaced(s),
    decreases s.len(),
{
    reveal(Seq::filter);
    if s.len() > 0 {
        lemma_filter_twice(s.drop_last());
        if s.last() != ' ' {
            let rest = unspaced(s.drop_last());
            assert(rest.push(s.last()).drop_last() =~= rest);
        }
    }
}

proof fn lemma_lines_wrapped(list: Seq<Seq<char>>, width: nat)
    requires
        width > 0,
    ensures
        all_within(lines_wrapped(list, width), width),
        unspaced(merged(lines_wrapped(list, width))) == unspaced(merged(list)),
    decreases list.len(),
{
    if list.len() > 0 {
        let before = lines_wrapped(list.drop_last(), width);
        let more = line_wrapped(list.last(), width);
        lemma_lines_wrapped(list.drop_last(), width);
        lemma_line_wrapped(list.last(), width);
        lemma_merged_concat(before, more);
        lemma_unspaced_concat(merged(before), merged(more));
        lemma_unspaced_concat(merged(list.drop_last()), list.last());
        let out = before + more;
        assert forall|i: int| 0 <= i < out.len() implies (#[trigger] out[i]).len() <= width by {
            if i < before.len() {
                assert(out[i] == before[i]);
            } else {
                assert(out[i] == more[i - before.len()]);
            }
        }
    }
}

proof fn lemma_letters(s: Seq<char>)
    ensures
        unspaced(s.filter(|c: char| c != '\n')) == letters(s),
    decreases s.len(),
{
    reveal(Seq::filter);
    if s.len() > 0 {
        lemma_letters(s.drop_last());
        let p = |c: char| c != '\n';
        if s.last() != '\n' {
            let rest = s.drop_last().filter(p);
            assert(rest.push(s.last()).drop_last() =~= rest);
        }
    }
}

/// Wrapping loses no text and keeps to the width: no line is longer, and the
/// lines hold, in order, everything but spaces and line ends.
pub proof fn wrapping_keeps_the_text(text: Seq<char>, width: nat)
    ensures
        all_within(wrapped(text, width), wide(width)),
        unspaced(merged(wrapped(text, width))) == letters(text),
{
    lemma_lines_wrapped(pieces(text, '\n'), wide(width));
    lemma_pieces_merged(text, '\n');
    lemma_letters(text);
}

/// No space at the beginning, none at the end.
pub open spec fn tidy(s: Seq<char>) -> bool {
    s.len() > 0 ==> s[0] != ' ' && s.last() != ' '
}

pub open spec fn all_tidy(list: Seq<Seq<char>>) -> bool {
    forall|i: int| 0 <= i < list.len() ==> tidy(#[trigger] list[i])
}

spec fn tidy_fill(f: Fill) -> bool {
    all_tidy(f.done) && tidy(f.cur)
}

/// Parts without a space in them.
spec fn spaceless(list: Seq<Seq<char>>) -> bool {
    forall|i: int| 0 <= i < list.len() ==> !(#[trigger] list[i]).contains(' ')
}

proof fn lemma_spaceless_tidy(s: Seq<char>)
    requires
        !s.contains(' '),
    ensures
        tidy(s),
{
    if s.len() > 0 {
        assert(s.contains(s[0]));
        assert(s.contains(s[s.len() - 1]));
    }
}

proof fn lemma_pieces_spaceless(s: Seq<char>)
    ensures
        spaceless(pieces(s, ' ')),
    decreases s.len(),
{
    if s.len() == 0 {
        assert(!Seq::<char>::empty().contains(' '));
    } else {
        let before = pieces(s.drop_last(), ' ');
        let c = s.last();
        lemma_pieces_spaceless(s.drop_last());
        lemma_pieces_nonempty(s.drop_last(), ' ');
        assert forall|i: int| 0 <= i < pieces(s, ' ').len() implies !(#[trigger] pieces(
            s,
            ' ',
        )[i]).contains(' ') by {
            if c == ' ' {
                if i < before.len() {
                    assert(pieces(s, ' ')[i] == before[i]);
                }
            } else if i < before.len() - 1 {
                assert(pieces(s, ' ')[i] == before[i]);
            } else {
                let last = before[before.len() - 1];
                assert(!last.contains(' '));
                let w = last.push(c);
                if w.contains(' ') {
                    let k = choose|k: int| 0 <= k < w.len() && w[k] == ' ';
                    assert(last.contains(last[k]));
                }
            }
        }
    }
}

proof fn lemma_chunks_spaceless(word: Seq<char>, width: nat)
    requires
        !word.contains(' '),
    ensures
        spaceless(chunks(word, width)),
    decreases word.len(),
{
    if word.len() > width && width > 0 {
        let head = word.take(width as int);
        let rest = word.skip(width as int);
        assert(!head.contains(' ')) by {
            if head.contains(' ') {
                let k = choose|k: int| 0 <= k < head.len() && head[k] == ' ';
                assert(word[k] == ' ');
            }
        }
        assert(!rest.contains(' ')) by {
            if rest.contains(' ') {
                let k = choose|k: int| 0 <= k < rest.len() && rest[k] == ' ';
                assert(word[k + width] == ' ');
            }
        }
        lemma_chunks_spaceless(rest, width);
        let all = chunks(word, width);
        assert forall|i: int| 0 <= i < all.len() implies !(#[trigger] all[i]).contains(' ') by {
            if i > 0 {
                assert(all[i] == chunks(rest, width)[i - 1]);
            }
        }
    }
}

proof fn lemma_tidy_push(list: Seq<Seq<char>>, s: Seq<char>)
    requires
        all_tidy(list),
        tidy(s),
    ensures
        all_tidy(list.push(s)),
{
}

proof fn lemma_tidy_chunks(f: Fill, parts: Seq<Seq<char>>, width: nat)
    requires
        tidy_fill(f),
        spaceless(parts),
    ensures
        tidy_fill(chunks_placed(f, parts, width)),
    decreases parts.len(),
{
    if parts.len() > 0 {
        let rest = parts.drop_last();
        assert forall|i: int| 0 <= i < rest.len() implies !(#[trigger] rest[i]).contains(' ') by {
            assert(rest[i] == parts[i]);
        }
        lemma_tidy_chunks(f, rest, width);
        assert(parts[parts.len() - 1] == parts.last());
        lemma_spaceless_tidy(parts.last());
        lemma_tidy_push(chunks_placed(f, rest, width).done, parts.last());
    }
}

proof fn lemma_tidy_words(f: Fill, list: Seq<Seq<char>>, width: nat)
    requires
        tidy_fill(f),
        spaceless(list),
    ensures
        tidy_fill(words_placed(f, list, width)),
    decreases list.len(),
{
    if list.len() > 0 {
        let rest = list.drop_last();
        assert forall|i: int| 0 <= i < rest.len() implies !(#[trigger] rest[i]).contains(' ') by {
            assert(rest[i] == list[i]);
        }
        lemma_tidy_words(f, rest, width);
        let before = words_placed(f, rest, width);
        let word = list[list.len() - 1];
        assert(word == list.last());
        lemma_spaceless_tidy(word);
        lemma_tidy_push(before.done, before.cur);
        if word.len() > width {
            lemma_chunks_spaceless(word, width);
            lemma_tidy_chunks(broken(before), chunks(word, width), width);
        }
    }
}

proof fn lemma_tidy_lines(list: Seq<Seq<char>>, width: nat)
    ensures
        all_tidy(lines_wrapped(list, width)),
    decreases list.len(),
{
    if list.len() > 0 {
        lemma_tidy_lines(list.drop_last(), width);
        let first = Fill { done: Seq::empty(), cur: Seq::empty() };
        let words = pieces(list.last(), ' ');
        lemma_pieces_spaceless(list.last());
        lemma_tidy_words(first, words, width);
        let f = words_placed(first, words, width);
        lemma_tidy_push(f.done, f.cur);
        let a = lines_wrapped(list.drop_last(), width);
        let b = line_wrapped(list.last(), width);
        assert forall|i: int| 0 <= i < (a + b).len() implies tidy(#[trigger] (a + b)[i]) by {
            if i < a.len() {
                assert((a + b)[i] == a[i]);
            } else {
                assert((a + b)[i] == b[i - a.len()]);
            }
        }
    }
}

/// No line of a wrapped text begins or ends with a space.
pub proof fn wrapped_lines_are_tidy(text: Seq<char>, width: nat)
    ensures
        all_tidy(wrapped(text, width)),
{
    lemma_tidy_lines(pieces(text, '\n'), wide(width));
}

/// The parts that are not empty.
pub open spec fn without_empty(list: Seq<Seq<char>>) -> Seq<Seq<char>> {
    list.filter(|p: Seq<char>| p.len() > 0)
}

/// The words of one line: what stands between its spaces.
pub open spec fn line_words(raw: Seq<char>) -> Seq<Seq<char>> {
    without_empty(pieces(raw, ' '))
}

/// The words of several lines, one line after the other.
pub open spec fn all_words(list: Seq<Seq<char>>) -> Seq<Seq<char>>
    decreases list.len(),
{
    if list.len() == 0 {
        Seq::empty()
    } else {
        all_words(list.drop_last()) + line_words(list.last())
    }
}

/// A way to lay out a line: on lines that are no longer than `width` and hold its
/// words, in order and unbroken.
pub open spec fn lays_out(list: Seq<Seq<char>>, raw: Seq<char>, width: nat) -> bool {
    &&& list.len() > 0
    &&& all_within(list, width)
    &&& all_words(list) == line_words(raw)
}

/// How many lines there are in all.
pub open spec fn lines_in_all(ways: Seq<Seq<Seq<char>>>) -> nat
    decreases ways.len(),
{
    if ways.len() == 0 {
        0
    } else {
        lines_in_all(ways.drop_last()) + ways.last().len()
    }
}

/// The characters that words take on one line, with a space between them.
spec fn side_by_side(list: Seq<Seq<char>>) -> nat
    decreases list.len(),
{
    if list.len() == 0 {
        0
    } else if list.len() == 1 {
        list[0].len()
    } else {
        side_by_side(list.drop_last()) + 1 + list.last().len()
    }
}

proof fn lemma_side_by_side_pieces(s: Seq<char>)
    ensures
        side_by_side(pieces(s, ' ')) == s.len(),
    decreases s.len(),
{
    if s.len() > 0 {
        let before = pieces(s.drop_last(), ' ');
        lemma_side_by_side_pieces(s.drop_last());
        lemma_pieces_nonempty(s.drop_last(), ' ');
        let c = s.last();
        if c == ' ' {
            assert(before.push(Seq::empty()).drop_last() =~= before);
        } else {
            let head = before.drop_last();
            assert(head.push(before.last().push(c)).drop_last() =~= head);
        }
    }
}

proof fn lemma_side_by_side_words(list: Seq<Seq<char>>)
    ensures
        side_by_side(without_empty(list)) <= side_by_side(list),
    decreases list.len(),
{
    reveal(Seq::filter);
    if list.len() > 0 {
        let rest = list.drop_last();
        lemma_side_by_side_words(rest);
        if list.last().len() > 0 {
            let kept = without_empty(rest);
            assert(kept.push(list.last()).drop_last() =~= kept);
            assert(without_empty(list) =~= kept.push(list.last()));
        }
        if rest.len() == 0 {
            assert(without_empty(rest).len() == 0);
        }
    }
}

/// Empty parts take no place.
proof fn lemma_placed_words(f: Fill, list: Seq<Seq<char>>, width: nat)
    ensures
        words_placed(f, without_empty(list), width) == words_placed(
            f,
            list,
            width,
        ),
    decreases list.len(),
{
    reveal(Seq::filter);
    if list.len() > 0 {
        let kept = without_empty(list.drop_last());
        lemma_placed_words(f, list.drop_last(), width);
        if list.last().len() > 0 {
            assert(without_empty(list) =~= kept.push(list.last()));
            assert(kept.push(list.last()).drop_last() =~= kept);
        }
    }
}

proof fn lemma_placed_after(f: Fill, a: Seq<Seq<char>>, b: Seq<Seq<char>>, width: nat)
    ensures
        words_placed(f, a + b, width) == words_placed(words_placed(f, a, width), b, width),
    decreases b.len(),
{
    if b.len() == 0 {
        assert(a + b =~= a);
    } else {
        lemma_placed_after(f, a, b.drop_last(), width);
        assert((a + b).drop_last() =~= a + b.drop_last());
        assert((a + b).last() == b.last());
    }
}

/// Words that fit on one line finish at most one, and none where the present line
/// is still empty.
proof fn lemma_one_line_more(f: Fill, list: Seq<Seq<char>>, width: nat)
    requires
        side_by_side(list) <= width,
        forall|i: int| 0 <= i < list.len() ==> (#[trigger] list[i]).len() > 0,
    ensures
        ({
            let g = words_placed(f, list, width);
            ||| g.done.len() == f.done.len() && (f.cur.len() == 0 ==> g.cur.len() <= side_by_side(
                list,
            ))
            ||| f.cur.len() > 0 && g.done.len() == f.done.len() + 1 && g.cur.len()
                <= side_by_side(list)
        }),
    decreases list.len(),
{
    if list.len() > 0 {
        let rest = list.drop_last();
        assert forall|i: int| 0 <= i < rest.len() implies (#[trigger] rest[i]).len() > 0 by {
            assert(rest[i] == list[i]);
        }
        lemma_one_line_more(f, rest, width);
        assert(list[list.len() - 1] == list.last());
    }
}

proof fn lemma_words_nonempty(list: Seq<Seq<char>>)
    ensures
        forall|i: int|
            0 <= i < without_empty(list).len() ==> (#[trigger] without_empty(list)[i]).len() > 0,
    decreases list.len(),
{
    reveal(Seq::filter);
    if list.len() > 0 {
        lemma_words_nonempty(list.drop_last());
    }
}

proof fn lemma_lines_finished(list: Seq<Seq<char>>, width: nat)
    requires
        all_within(list, width),
    ensures
        ({
            let g = words_placed(
                Fill { done: Seq::empty(), cur: Seq::empty() },
                all_words(list),
                width,
            );
            &&& g.done.len() <= list.len()
            &&& list.len() > 0 ==> g.done.len() < list.len()
            &&& list.len() == 0 ==> g.cur.len() == 0
        }),
    decreases list.len(),
{
    let first = Fill { done: Seq::empty(), cur: Seq::empty() };
    if list.len() > 0 {
        let rest = list.drop_last();
        let row = list[list.len() - 1];
        assert(row == list.last());
        assert forall|i: int| 0 <= i < rest.len() implies (#[trigger] rest[i]).len() <= width by {
            assert(rest[i] == list[i]);
        }
        lemma_lines_finished(rest, width);
        lemma_side_by_side_pieces(row);
        lemma_side_by_side_words(pieces(row, ' '));
        lemma_words_nonempty(pieces(row, ' '));
        lemma_placed_after(first, all_words(rest), line_words(row), width);
        lemma_one_line_more(words_placed(first, all_words(rest), width), line_words(row), width);
    }
}

proof fn lemma_fewest(list: Seq<Seq<char>>, ways: Seq<Seq<Seq<char>>>, width: nat)
    requires
        ways.len() == list.len(),
        forall|i: int| 0 <= i < list.len() ==> lays_out(#[trigger] ways[i], list[i], width),
    ensures
        lines_wrapped(list, width).len() <= lines_in_all(ways),
    decreases list.len(),
{
    if list.len() > 0 {
        let rest = list.drop_last();
        let others = ways.drop_last();
        assert forall|i: int| 0 <= i < rest.len() implies lays_out(
            #[trigger] others[i],
            rest[i],
            width,
        ) by {
            assert(others[i] == ways[i]);
            assert(rest[i] == list[i]);
        }
        lemma_fewest(rest, others, width);
        let raw = list[list.len() - 1];
        let way = ways[ways.len() - 1];
        assert(lays_out(way, raw, width));
        lemma_lines_finished(way, width);
        lemma_placed_words(Fill { done: Seq::empty(), cur: Seq::empty() }, pieces(raw, ' '), width);
    }
}

/// No fewer lines would do: however else the lines of a text are laid out, with
/// their words in order and unbroken, takes at least as many. A word longer than the
/// width has to be broken, so a line with such a word has no such layout.
pub proof fn no_fewer_lines_would_do(text: Seq<char>, width: nat, ways: Seq<Seq<Seq<char>>>)
    requires
        ways.len() == pieces(text, '\n').len(),
        forall|i: int|
            0 <= i < ways.len() ==> lays_out(
                #[trigger] ways[i],
                pieces(text, '\n')[i],
                wide(width),
            ),
    ensures
        wrapped(text, width).len() <= lines_in_all(ways),
{
    lemma_fewest(pieces(text, '\n'), ways, wide(width));
}

// ---------------------------------------------------------------------------
// Code
// ---------------------------------------------------------------------------

/// Tabs become four spaces.
pub open spec fn expanded(raw: Seq<char>) -> Seq<char> {
    replaced(raw, seq!['\t'], spaces(4))
}

/// How many spaces a text begins with.
pub open spec fn indent_of(s: Seq<char>) -> nat
    decreases s.len(),
{
    if s.len() > 0 && s[0] == ' ' {
        1 + indent_of(s.skip(1))
    } else {
        0
    }
}

/// The room that is left after the indent, at least one character.
pub open spec fn room_after(indent: nat, width: nat) -> nat {
    if indent + 1 >= width {
        1
    } else {
        (width - indent) as nat
    }
}

/// Continuation lines, each with the indent in front.
pub open spec fn continued(s: Seq<char>, indent: nat, width: nat) -> Seq<Seq<char>>
    decreases s.len(),
{
    let budget = room_after(indent, width);
    if s.len() == 0 {
        Seq::empty()
    } else if s.len() <= budget {
        seq![spaces(indent) + s]
    } else {
        seq![spaces(indent) + s.take(budget as int)] + continued(
            s.skip(budget as int),
            indent,
            width,
        )
    }
}

/// The lines that a line of code becomes. All white space stays, and a
/// continuation is indented as the line is.
pub open spec fn code_wrapped(raw: Seq<char>, width: nat) -> Seq<Seq<char>> {
    let s = expanded(raw);
    let w = wide(width);
    if s.len() <= w {
        seq![s]
    } else {
        seq![s.take(w as int)] + continued(s.skip(w as int), indent_of(s), w)
    }
}

fn leading_spaces(v: &Vec<char>) -> (r: usize)
    ensures
        r == indent_of(v@),
        r <= v.len(),
{
    let mut k: usize = 0;
    assert(v@.skip(0) =~= v@);
    while k < v.len() && v[k] == ' '
        invariant
            k <= v.len(),
            indent_of(v@) == k + indent_of(v@.skip(k as int)),
        decreases v.len() - k,
    {
        assert(v@.skip(k as int).skip(1) =~= v@.skip(k + 1));
        k += 1;
    }
    k
}

/// Wraps a line of code.
pub fn wrap_code_line(raw: &str, width: usize) -> (r: Vec<String>)
    ensures
        texts(r@) == code_wrapped(raw@, width as nat),
{
    let width = at_least_ten(width);
    proof {
        reveal_strlit("\t");
        reveal_strlit("    ");
        assert("\t"@ =~= seq!['\t']);
        assert("    "@ =~= spaces(4));
    }
    let full = replace(raw, "\t", "    ");
    let v = chars_of(full.as_str());
    let mut out = no_texts();
    if v.len() <= width {
        push_text(&mut out, full);
        assert(texts(out@) =~= seq![v@]);
        return out;
    }
    let indent = leading_spaces(&v);
    let lead = repeat_char(' ', indent);
    let budget: usize = if indent >= width - 1 {
        1
    } else {
        width - indent
    };
    push_text(&mut out, string_of(&v, 0, width));
    assert(v@.subrange(0, width as int) =~= v@.take(width as int));
    let mut start: usize = width;
    let ghost goal = code_wrapped(raw@, wide(width as nat));
    assert(texts(out@) + continued(v@.skip(start as int), indent as nat, width as nat) =~= goal);
    while start < v.len()
        invariant
            start <= v.len(),
            budget == room_after(indent as nat, width as nat),
            lead@ == spaces(indent as nat),
            texts(out@) + continued(v@.skip(start as int), indent as nat, width as nat) == goal,
        decreases v.len() - start,
    {
        let ghost rest = v@.skip(start as int);
        let ghost before = texts(out@);
        let end: usize = if v.len() - start <= budget {
            v.len()
        } else {
            start + budget
        };
        let part = string_of(&v, start, end);
        push_text(&mut out, cat2(lead.as_str(), part.as_str()));
        proof {
            if rest.len() <= budget {
                assert(part@ =~= rest);
                assert(v@.skip(end as int) =~= Seq::<char>::empty());
                assert(before + seq![lead@ + rest] =~= texts(out@) + Seq::empty());
            } else {
                assert(part@ =~= rest.take(budget as int));
                assert(rest.skip(budget as int) =~= v@.skip(end as int));
                assert(before + (seq![lead@ + rest.take(budget as int)] + continued(
                    v@.skip(end as int),
                    indent as nat,
                    width as nat,
                )) =~= texts(out@) + continued(v@.skip(end as int), indent as nat, width as nat));
            }
        }
        start = end;
    }
    assert(v@.skip(start as int) =~= Seq::<char>::empty());
    assert(texts(out@) + Seq::empty() =~= texts(out@));
    out
}

/// What continuation lines hold behind the indent.
pub open spec fn unindented(list: Seq<Seq<char>>, indent: nat) -> Seq<char>
    decreases list.len(),
{
    if list.len() == 0 {
        Seq::empty()
    } else {
        list[0].skip(indent as int) + unindented(list.skip(1), indent)
    }
}

proof fn lemma_continued(s: Seq<char>, indent: nat, width: nat)
    ensures
        unindented(continued(s, indent, width), indent) == s,
        indent < width ==> all_within(continued(s, indent, width), width),
    decreases s.len(),
{
    reveal_with_fuel(unindented, 2);
    let budget = room_after(indent, width);
    let all = continued(s, indent, width);
    if s.len() == 0 {
        assert(unindented(all, indent) =~= s);
    } else if s.len() <= budget {
        assert((spaces(indent) + s).skip(indent as int) =~= s);
        assert(all.skip(1) =~= Seq::<Seq<char>>::empty());
        assert(unindented(all, indent) =~= s);
    } else {
        let head = s.take(budget as int);
        let rest = continued(s.skip(budget as int), indent, width);
        lemma_continued(s.skip(budget as int), indent, width);
        assert((spaces(indent) + head).skip(indent as int) =~= head);
        assert(all.skip(1) =~= rest);
        assert(head + s.skip(budget as int) =~= s);
        assert forall|i: int| indent < width && 0 <= i < all.len() implies (
        #[trigger] all[i]).len() <= width by {
            if i > 0 {
                assert(all[i] == rest[i - 1]);
            }
        }
    }
}

/// Wrapping code loses nothing: the first line and, behind the indent, the
/// others make up the line. Where the indent leaves room, all keep to the width.
pub proof fn code_wrapping_keeps_the_text(raw: Seq<char>, width: nat)
    ensures
        ({
            let list = code_wrapped(raw, width);
            let indent = indent_of(expanded(raw));
            &&& list.len() > 0
            &&& list[0] + unindented(list.skip(1), indent) == expanded(raw)
            &&& indent < wide(width) ==> all_within(list, wide(width))
        }),
{
    let s = expanded(raw);
    let w = wide(width);
    let list = code_wrapped(raw, width);
    if s.len() <= w {
        assert(list.skip(1) =~= Seq::<Seq<char>>::empty());
        assert(list[0] + unindented(list.skip(1), indent_of(s)) =~= s);
    } else {
        let rest = continued(s.skip(w as int), indent_of(s), w);
        lemma_continued(s.skip(w as int), indent_of(s), w);
        assert(list.skip(1) =~= rest);
        assert(s.take(w as int) + s.skip(w as int) =~= s);
        assert forall|i: int| indent_of(s) < w && 0 <= i < list.len() implies (
        #[trigger] list[i]).len() <= w by {
            if i > 0 {
                assert(list[i] == rest[i - 1]);
            }
        }
    }
}

// ---------------------------------------------------------------------------
// Styled runs
// ---------------------------------------------------------------------------

/// The lines that are finished, the one that is being filled, and how many
/// characters it holds.
pub ghost struct StyledFill {
    pub done: Seq<Seq<Piece>>,
    pub cur: Seq<Piece>,
    pub size: nat,
}

pub open spec fn styled_broken(f: StyledFill) -> StyledFill {
    if f.size > 0 {
        StyledFill { done: f.done.push(f.cur), cur: Seq::empty(), size: 0 }
    } else {
        f
    }
}

/// The parts of a long word, each full one on a line of its own.
pub open spec fn styled_chunks(
    f: StyledFill,
    parts: Seq<Seq<char>>,
    style: Style,
    width: nat,
) -> StyledFill
    decreases parts.len(),
{
    if parts.len() == 0 {
        f
    } else {
        let before = styled_chunks(f, parts.drop_last(), style, width);
        let part = piece(parts.last(), style);
        if parts.last().len() == width {
            StyledFill { done: before.done.push(seq![part]), ..before }
        } else {
            StyledFill { cur: before.cur.push(part), size: parts.last().len(), ..before }
        }
    }
}

/// One more word: on the present line where it fits, else on a new one.
pub open spec fn styled_word(f: StyledFill, word: Seq<char>, style: Style, width: nat) -> StyledFill {
    if word.len() == 0 {
        f
    } else if word.len() > width {
        styled_chunks(styled_broken(f), chunks(word, width), style, width)
    } else {
        let part = piece(word, style);
        if f.size == 0 {
            StyledFill { cur: f.cur.push(part), size: word.len(), ..f }
        } else if f.size + 1 + word.len() > width {
            StyledFill { done: f.done.push(f.cur), cur: seq![part], size: word.len() }
        } else {
            StyledFill {
                cur: f.cur.push(raw(seq![' '])).push(part),
                size: f.size + 1 + word.len(),
                ..f
            }
        }
    }
}

pub open spec fn styled_words(
    f: StyledFill,
    list: Seq<Seq<char>>,
    style: Style,
    width: nat,
) -> StyledFill
    decreases list.len(),
{
    if list.len() == 0 {
        f
    } else {
        styled_word(styled_words(f, list.drop_last(), style, width), list.last(), style, width)
    }
}

pub open spec fn styled_runs(f: StyledFill, runs: Seq<Piece>, width: nat) -> StyledFill
    decreases runs.len(),
{
    if runs.len() == 0 {
        f
    } else {
        let run = runs.last();
        styled_words(
            styled_runs(f, runs.drop_last(), width),
            pieces(run.text, ' '),
            run.style,
            width,
        )
    }
}

pub open spec fn empty_fill() -> StyledFill {
    StyledFill { done: Seq::empty(), cur: Seq::empty(), size: 0 }
}

/// The lines that are filled in the end, at least one.
pub open spec fn filled(f: StyledFill) -> Seq<Seq<Piece>> {
    if f.cur.len() > 0 {
        f.done.push(f.cur)
    } else if f.done.len() == 0 {
        seq![blank_row()]
    } else {
        f.done
    }
}

/// The lines that styled runs become, each word in the style of its run.
pub open spec fn runs_wrapped(runs: Seq<Piece>, width: nat) -> Seq<Seq<Piece>> {
    filled(styled_runs(empty_fill(), runs, wide(width)))
}

/// What is being filled.
struct Filling {
    done: Vec<Line>,
    cur: Vec<Span>,
    size: usize,
}

impl Filling {
    spec fn state(self) -> StyledFill {
        StyledFill {
            done: rows(self.done@),
            cur: pieces_of(self.cur@),
            size: self.size as nat,
        }
    }

    /// Starts a new line.
    fn turn(self) -> (r: Filling)
        ensures
            r.state() == (StyledFill {
                done: self.state().done.push(self.state().cur),
                cur: Seq::empty(),
                size: 0,
            }),
    {
        let mut done = self.done;
        push_line(&mut done, line_of(self.cur));
        Filling { done, cur: no_spans(), size: 0 }
    }

    fn place(self, word: &str, style: Style, width: usize) -> (r: Filling)
        requires
            width > 0,
            self.size <= width,
        ensures
            r.state() == styled_word(self.state(), word@, style, width as nat),
            r.size <= width,
    {
        let size: usize = word.unicode_len();
        if size == 0 {
            return self;
        }
        if size > width {
            let f = if self.size > 0 {
                self.turn()
            } else {
                self
            };
            let ghost start = styled_broken(self.state());
            let mut done = f.done;
            let mut cur = f.cur;
            let mut held = f.size;
            let parts = hard_chunks(word, width);
            let ghost all = texts(parts@);
            proof {
                chunks_fit(word@, width as nat);
            }
            for i in 0..parts.len()
                invariant
                    all == texts(parts@),
                    all == chunks(word@, width as nat),
                    forall|k: int| 0 <= k < all.len() ==> 0 < (#[trigger] all[k]).len() <= width,
                    held <= width,
                    styled_chunks(start, all.take(i as int), style, width as nat) == (StyledFill {
                        done: rows(done@),
                        cur: pieces_of(cur@),
                        size: held as nat,
                    }),
            {
                proof {
                    assert(all.take(i + 1).drop_last() =~= all.take(i as int));
                    assert(all.take(i + 1).last() == parts@[i as int]@);
                    assert(all[i as int] == parts@[i as int]@);
                }
                let n: usize = parts[i].as_str().unicode_len();
                if n == width {
                    push_line(&mut done, line1(span(parts[i].as_str(), style)));
                } else {
                    push_span(&mut cur, span(parts[i].as_str(), style));
                    held = n;
                }
            }
            assert(all.take(all.len() as int) =~= all);
            return Filling { done, cur, size: held };
        }
        if self.size > 0 && size >= width - self.size {
            let f = self.turn();
            let mut cur = f.cur;
            push_span(&mut cur, span(word, style));
            assert(pieces_of(cur@) =~= seq![piece(word@, style)]);
            return Filling { done: f.done, cur, size };
        }
        let mut cur = self.cur;
        if self.size > 0 {
            proof {
                reveal_strlit(" ");
                assert(" "@ =~= seq![' ']);
            }
            push_span(&mut cur, raw_span(" "));
            push_span(&mut cur, span(word, style));
            Filling { done: self.done, cur, size: self.size + 1 + size }
        } else {
            push_span(&mut cur, span(word, style));
            Filling { done: self.done, cur, size }
        }
    }
}

/// Wraps styled runs word by word.
pub fn wrap_runs(runs: &Vec<Span>, width: usize) -> (r: Vec<Line>)
    ensures
        rows(r@) == runs_wrapped(pieces_of(runs@), width as nat),
{
    let width = at_least_ten(width);
    let ghost all = pieces_of(runs@);
    let mut f = Filling { done: no_lines(), cur: no_spans(), size: 0 };
    for i in 0..runs.len()
        invariant
            all == pieces_of(runs@),
            width > 0,
            f.size <= width,
            f.state() == styled_runs(empty_fill(), all.take(i as int), width as nat),
    {
        let ghost before = f.state();
        let list = split(runs[i].text.as_str(), ' ');
        let ghost words = texts(list@);
        proof {
            assert(all.take(i + 1).drop_last() =~= all.take(i as int));
            assert(all.take(i + 1).last() == runs@[i as int]@);
        }
        for k in 0..list.len()
            invariant
                width > 0,
                words == texts(list@),
                f.size <= width,
                i < runs.len(),
                f.state() == styled_words(
                    before,
                    words.take(k as int),
                    runs@[i as int].style,
                    width as nat,
                ),
        {
            proof {
                assert(words.take(k + 1).drop_last() =~= words.take(k as int));
                assert(words.take(k + 1).last() == list@[k as int]@);
            }
            f = f.place(list[k].as_str(), runs[i].style, width);
        }
        assert(words.take(words.len() as int) =~= words);
    }
    assert(all.take(all.len() as int) =~= all);
    let mut done = f.done;
    if f.cur.len() > 0 {
        push_line(&mut done, line_of(f.cur));
    } else if done.len() == 0 {
        push_line(&mut done, blank_line());
        assert(rows(done@) =~= seq![blank_row()]);
    }
    done
}

/// The text of a line, without its styles.
pub open spec fn row_text(row: Seq<Piece>) -> Seq<char>
    decreases row.len(),
{
    if row.len() == 0 {
        Seq::empty()
    } else {
        row_text(row.drop_last()) + row.last().text
    }
}

pub open spec fn row_texts(list: Seq<Seq<Piece>>) -> Seq<Seq<char>> {
    list.map_values(|row: Seq<Piece>| row_text(row))
}

pub proof fn lemma_row_text_push(row: Seq<Piece>, p: Piece)
    ensures
        row_text(row.push(p)) == row_text(row) + p.text,
{
    assert(row.push(p).drop_last() =~= row);
}

proof fn lemma_row_texts_push(list: Seq<Seq<Piece>>, row: Seq<Piece>)
    ensures
        row_texts(list.push(row)) == row_texts(list).push(row_text(row)),
{
    assert(row_texts(list.push(row)) =~= row_texts(list).push(row_text(row)));
}

/// The same without styles.
spec fn unstyled_fill(f: StyledFill) -> Fill {
    Fill { done: row_texts(f.done), cur: row_text(f.cur) }
}

spec fn counted_right(f: StyledFill) -> bool {
    &&& f.size == row_text(f.cur).len()
    &&& f.size == 0 ==> f.cur.len() == 0
}

proof fn lemma_styled_chunks(f: StyledFill, parts: Seq<Seq<char>>, style: Style, width: nat)
    requires
        counted_right(f),
        f.size == 0,
        width > 0,
        forall|i: int| 0 <= i < parts.len() ==> 0 < (#[trigger] parts[i]).len() <= width,
        forall|i: int| 0 <= i < parts.len() - 1 ==> (#[trigger] parts[i]).len() == width,
    ensures
        ({
            let r = styled_chunks(f, parts, style, width);
            &&& counted_right(r)
            &&& unstyled_fill(r) == chunks_placed(unstyled_fill(f), parts, width)
            &&& parts.len() == 0 || parts.last().len() == width ==> r.size == 0
        }),
    decreases parts.len(),
{
    if parts.len() > 0 {
        let most = parts.drop_last();
        assert forall|i: int| 0 <= i < most.len() implies 0 < (#[trigger] most[i]).len()
            <= width by {
            assert(most[i] == parts[i]);
        }
        assert forall|i: int| 0 <= i < most.len() - 1 implies (#[trigger] most[i]).len()
            == width by {
            assert(most[i] == parts[i]);
        }
        lemma_styled_chunks(f, most, style, width);
        let before = styled_chunks(f, most, style, width);
        let last = parts[parts.len() - 1];
        let part = piece(last, style);
        if most.len() > 0 {
            assert(most.last() == parts[parts.len() - 2]);
        }
        assert(before.size == 0 && before.cur =~= Seq::empty());
        lemma_row_text_push(Seq::empty(), part);
        assert(seq![part] =~= Seq::empty().push(part));
        assert(row_text(seq![part]) =~= last);
        lemma_row_texts_push(before.done, seq![part]);
        assert(before.cur.push(part) =~= seq![part]);
    }
}

proof fn lemma_styled_word(f: StyledFill, word: Seq<char>, style: Style, width: nat)
    requires
        counted_right(f),
        width > 0,
    ensures
        counted_right(styled_word(f, word, style, width)),
        unstyled_fill(styled_word(f, word, style, width)) == word_placed(
            unstyled_fill(f),
            word,
            width,
        ),
{
    let part = piece(word, style);
    lemma_row_texts_push(f.done, f.cur);
    lemma_row_text_push(f.cur, part);
    lemma_row_text_push(Seq::empty(), part);
    assert(seq![part] =~= Seq::empty().push(part));
    assert(row_text(seq![part]) =~= word);
    assert(f.size == 0 ==> f.cur =~= Seq::empty());
    if word.len() > width {
        let b = styled_broken(f);
        assert(unstyled_fill(b) == broken(unstyled_fill(f)));
        chunks_fit(word, width);
        lemma_styled_chunks(b, chunks(word, width), style, width);
    } else if f.size > 0 && f.size + 1 + word.len() <= width {
        let gap = raw(seq![' ']);
        lemma_row_text_push(f.cur, gap);
        lemma_row_text_push(f.cur.push(gap), part);
    } else if f.size == 0 && word.len() > 0 {
        assert(f.cur.push(part) =~= seq![part]);
    }
}

proof fn lemma_styled_words(f: StyledFill, list: Seq<Seq<char>>, style: Style, width: nat)
    requires
        counted_right(f),
        width > 0,
    ensures
        counted_right(styled_words(f, list, style, width)),
        unstyled_fill(styled_words(f, list, style, width)) == words_placed(
            unstyled_fill(f),
            list,
            width,
        ),
    decreases list.len(),
{
    if list.len() > 0 {
        lemma_styled_words(f, list.drop_last(), style, width);
        lemma_styled_word(
            styled_words(f, list.drop_last(), style, width),
            list.last(),
            style,
            width,
        );
    }
}

proof fn lemma_styled_runs(f: StyledFill, runs: Seq<Piece>, width: nat)
    requires
        counted_right(f),
        fits(unstyled_fill(f), width),
        width > 0,
    ensures
        ({
            let r = styled_runs(f, runs, width);
            &&& counted_right(r)
            &&& fits(unstyled_fill(r), width)
            &&& unspaced(held(unstyled_fill(r))) == unspaced(held(unstyled_fill(f))) + unspaced(
                row_text(runs),
            )
        }),
    decreases runs.len(),
{
    if runs.len() == 0 {
        lemma_unspaced_space();
        assert(unspaced(held(unstyled_fill(f))) + unspaced(row_text(runs)) =~= unspaced(
            held(unstyled_fill(f)),
        ));
    } else {
        let before = styled_runs(f, runs.drop_last(), width);
        let run = runs.last();
        let list = pieces(run.text, ' ');
        lemma_styled_runs(f, runs.drop_last(), width);
        lemma_styled_words(before, list, run.style, width);
        lemma_words_placed(unstyled_fill(before), list, width);
        lemma_pieces_merged(run.text, ' ');
        lemma_filter_twice(run.text);
        lemma_unspaced_concat(row_text(runs.drop_last()), run.text);
        let a = unspaced(held(unstyled_fill(f)));
        let b = unspaced(row_text(runs.drop_last()));
        let c = unspaced(run.text);
        assert(a + b + c =~= a + (b + c));
    }
}

/// Wrapping styled runs loses no text and keeps to the width.
pub proof fn run_wrapping_keeps_the_text(runs: Seq<Piece>, width: nat)
    ensures
        all_within(row_texts(runs_wrapped(runs, width)), wide(width)),
        unspaced(merged(row_texts(runs_wrapped(runs, width)))) == unspaced(row_text(runs)),
        runs_wrapped(runs, width).len() > 0,
{
    let w = wide(width);
    let f0 = empty_fill();
    assert(row_texts(f0.done) =~= Seq::empty());
    lemma_styled_runs(f0, runs, w);
    let f = styled_runs(f0, runs, w);
    let u = unstyled_fill(f);
    assert(held(unstyled_fill(f0)) =~= Seq::<char>::empty());
    lemma_unspaced_space();
    assert(unspaced(held(unstyled_fill(f0))) + unspaced(row_text(runs)) =~= unspaced(
        row_text(runs),
    ));
    lemma_filled(f, w);
}

proof fn lemma_filled(f: StyledFill, width: nat)
    requires
        counted_right(f),
        fits(unstyled_fill(f), width),
    ensures
        all_within(row_texts(filled(f)), width),
        merged(row_texts(filled(f))) == held(unstyled_fill(f)),
{
    let u = unstyled_fill(f);
    let out = row_texts(filled(f));
    if f.cur.len() > 0 {
        lemma_row_texts_push(f.done, f.cur);
        lemma_merged_push(u.done, u.cur);
        assert forall|i: int| 0 <= i < out.len() implies (#[trigger] out[i]).len() <= width by {
            if i < u.done.len() {
                assert(out[i] == u.done[i]);
            }
        }
    } else {
        assert(u.cur =~= Seq::<char>::empty());
        if f.done.len() == 0 {
            let none = Seq::<char>::empty();
            assert(row_text(blank_row()) =~= none);
            lemma_merged_push(Seq::empty(), none);
            assert(out =~= Seq::empty().push(none));
            assert(held(u) =~= none);
        } else {
            assert(held(u) =~= merged(u.done));
        }
    }
}

spec fn no_longer(f: Fill, n: nat) -> bool {
    all_within(f.done, n) && f.cur.len() <= n
}

proof fn lemma_short_chunks(f: Fill, parts: Seq<Seq<char>>, width: nat, n: nat)
    requires
        no_longer(f, n),
        all_within(parts, n),
    ensures
        no_longer(chunks_placed(f, parts, width), n),
    decreases parts.len(),
{
    if parts.len() > 0 {
        let rest = parts.drop_last();
        assert forall|i: int| 0 <= i < rest.len() implies (#[trigger] rest[i]).len() <= n by {
            assert(rest[i] == parts[i]);
        }
        lemma_short_chunks(f, rest, width, n);
        assert(parts[parts.len() - 1] == parts.last());
    }
}

/// No line is longer than the words side by side.
proof fn lemma_short_lines(list: Seq<Seq<char>>, width: nat)
    requires
        width > 0,
        forall|i: int| 0 <= i < list.len() ==> (#[trigger] list[i]).len() > 0,
    ensures
        no_longer(
            words_placed(Fill { done: Seq::empty(), cur: Seq::empty() }, list, width),
            side_by_side(list),
        ),
    decreases list.len(),
{
    if list.len() > 0 {
        let rest = list.drop_last();
        let word = list[list.len() - 1];
        assert(word == list.last());
        assert forall|i: int| 0 <= i < rest.len() implies (#[trigger] rest[i]).len() > 0 by {
            assert(rest[i] == list[i]);
        }
        lemma_short_lines(rest, width);
        let n = side_by_side(list);
        let f = words_placed(Fill { done: Seq::empty(), cur: Seq::empty() }, rest, width);
        assert(side_by_side(rest) <= n);
        assert(word.len() <= n);
        if word.len() > width {
            chunks_fit(word, width);
            let parts = chunks(word, width);
            lemma_short_chunks(broken(f), parts, width, n);
        }
        if rest.len() == 0 {
            assert(f.cur.len() == 0);
        } else {
            assert(n == side_by_side(rest) + 1 + word.len());
        }
    }
}

/// A single run is not stretched: none of its lines is longer than its text.
pub proof fn one_run_is_not_stretched(run: Piece, width: nat)
    ensures
        all_within(row_texts(runs_wrapped(seq![run], width)), run.text.len()),
{
    let w = wide(width);
    let list = pieces(run.text, ' ');
    let f0 = empty_fill();
    let first = Fill { done: Seq::empty(), cur: Seq::empty() };
    let f = styled_runs(f0, seq![run], w);
    assert(seq![run].drop_last() =~= Seq::<Piece>::empty());
    assert(styled_runs(f0, seq![run].drop_last(), w) == f0);
    assert(row_texts(f0.done) =~= Seq::empty());
    assert(unstyled_fill(f0) == first);
    lemma_styled_words(f0, list, run.style, w);
    lemma_styled_runs(f0, seq![run], w);
    lemma_placed_words(first, list, w);
    lemma_words_nonempty(list);
    lemma_short_lines(without_empty(list), w);
    lemma_side_by_side_words(list);
    lemma_side_by_side_pieces(run.text);
    let n = run.text.len();
    let u = unstyled_fill(f);
    assert(no_longer(u, n)) by {
        assert forall|i: int| 0 <= i < u.done.len() implies (#[trigger] u.done[i]).len() <= n by {}
    }
    lemma_filled(f, w);
    if f.cur.len() > 0 {
        lemma_row_texts_push(f.done, f.cur);
    } else if f.done.len() == 0 {
        assert(row_text(blank_row()).len() == 0);
    }
    let out = row_texts(filled(f));
    assert forall|i: int| 0 <= i < out.len() implies (#[trigger] out[i]).len() <= n by {
        if i < u.done.len() {
            assert(out[i] == u.done[i]);
        }
    }
}

// ---------------------------------------------------------------------------
// Lines of narrow characters
// ---------------------------------------------------------------------------

pub open spec fn narrow_row(row: Seq<Piece>) -> bool {
    forall|i: int| 0 <= i < row.len() ==> all_narrow((#[trigger] row[i]).text)
}

pub open spec fn narrow_rows(list: Seq<Seq<Piece>>) -> bool {
    forall|i: int| 0 <= i < list.len() ==> narrow_row(#[trigger] list[i])
}

/// A line of narrow characters takes a column for each of them.
pub proof fn narrow_rows_take_a_column_each(row: Seq<Piece>)
    requires
        narrow_row(row),
    ensures
        row_width(row) == row_text(row).len(),
    decreases row.len(),
{
    if row.len() > 0 {
        let rest = row.drop_last();
        assert forall|i: int| 0 <= i < rest.len() implies all_narrow((#[trigger] rest[i]).text) by {
            assert(rest[i] == row[i]);
        }
        narrow_rows_take_a_column_each(rest);
        assert(row[row.len() - 1] == row.last());
    }
}

spec fn narrow_texts(list: Seq<Seq<char>>) -> bool {
    forall|i: int| 0 <= i < list.len() ==> all_narrow(#[trigger] list[i])
}

spec fn narrow_fill(f: StyledFill) -> bool {
    narrow_rows(f.done) && narrow_row(f.cur)
}

proof fn lemma_narrow_pieces(s: Seq<char>)
    requires
        all_narrow(s),
    ensures
        narrow_texts(pieces(s, ' ')),
    decreases s.len(),
{
    if s.len() > 0 {
        let rest = s.drop_last();
        let before = pieces(rest, ' ');
        let c = s.last();
        assert forall|i: int| 0 <= i < rest.len() implies narrow(#[trigger] rest[i]) by {
            assert(rest[i] == s[i]);
        }
        assert(s[s.len() - 1] == c);
        lemma_narrow_pieces(rest);
        lemma_pieces_nonempty(rest, ' ');
        let all = pieces(s, ' ');
        assert forall|i: int| 0 <= i < all.len() implies all_narrow(#[trigger] all[i]) by {
            if i < before.len() - 1 {
                assert(all[i] == before[i]);
            } else if c != ' ' {
                let last = before[before.len() - 1];
                assert(all_narrow(last));
                assert(all[i] == last.push(c));
                assert forall|k: int| 0 <= k < all[i].len() implies narrow(#[trigger] all[i][k]) by {
                    if k < last.len() {
                        assert(all[i][k] == last[k]);
                    }
                }
            } else if i < before.len() {
                assert(all[i] == before[i]);
            }
        }
    }
}

proof fn lemma_narrow_chunks(word: Seq<char>, width: nat)
    requires
        all_narrow(word),
    ensures
        narrow_texts(chunks(word, width)),
    decreases word.len(),
{
    if word.len() > width && width > 0 {
        let head = word.take(width as int);
        let rest = word.skip(width as int);
        assert forall|i: int| 0 <= i < head.len() implies narrow(#[trigger] head[i]) by {
            assert(head[i] == word[i]);
        }
        assert forall|i: int| 0 <= i < rest.len() implies narrow(#[trigger] rest[i]) by {
            assert(rest[i] == word[i + width]);
        }
        lemma_narrow_chunks(rest, width);
        let all = chunks(word, width);
        assert forall|i: int| 0 <= i < all.len() implies all_narrow(#[trigger] all[i]) by {
            if i > 0 {
                assert(all[i] == chunks(rest, width)[i - 1]);
            }
        }
    }
}

proof fn lemma_narrow_row_push(row: Seq<Piece>, p: Piece)
    requires
        narrow_row(row),
        all_narrow(p.text),
    ensures
        narrow_row(row.push(p)),
{
}

proof fn lemma_narrow_rows_push(list: Seq<Seq<Piece>>, row: Seq<Piece>)
    requires
        narrow_rows(list),
        narrow_row(row),
    ensures
        narrow_rows(list.push(row)),
{
}

proof fn lemma_narrow_styled_chunks(
    f: StyledFill,
    parts: Seq<Seq<char>>,
    style: Style,
    width: nat,
)
    requires
        narrow_fill(f),
        narrow_texts(parts),
    ensures
        narrow_fill(styled_chunks(f, parts, style, width)),
    decreases parts.len(),
{
    if parts.len() > 0 {
        let rest = parts.drop_last();
        assert forall|i: int| 0 <= i < rest.len() implies all_narrow(#[trigger] rest[i]) by {
            assert(rest[i] == parts[i]);
        }
        lemma_narrow_styled_chunks(f, rest, style, width);
        let before = styled_chunks(f, rest, style, width);
        let part = piece(parts.last(), style);
        assert(parts[parts.len() - 1] == parts.last());
        lemma_narrow_row_push(Seq::empty(), part);
        assert(Seq::<Piece>::empty().push(part) =~= seq![part]);
        lemma_narrow_rows_push(before.done, seq![part]);
        lemma_narrow_row_push(before.cur, part);
    }
}

proof fn lemma_narrow_styled_words(
    f: StyledFill,
    list: Seq<Seq<char>>,
    style: Style,
    width: nat,
)
    requires
        narrow_fill(f),
        narrow_texts(list),
    ensures
        narrow_fill(styled_words(f, list, style, width)),
    decreases list.len(),
{
    if list.len() > 0 {
        let rest = list.drop_last();
        assert forall|i: int| 0 <= i < rest.len() implies all_narrow(#[trigger] rest[i]) by {
            assert(rest[i] == list[i]);
        }
        lemma_narrow_styled_words(f, rest, style, width);
        let before = styled_words(f, rest, style, width);
        let word = list[list.len() - 1];
        assert(word == list.last());
        let part = piece(word, style);
        let gap = raw(seq![' ']);
        lemma_narrow_rows_push(before.done, before.cur);
        if word.len() > width {
            lemma_narrow_chunks(word, width);
            lemma_narrow_styled_chunks(styled_broken(before), chunks(word, width), style, width);
        } else {
            lemma_narrow_row_push(before.cur, part);
            lemma_narrow_row_push(Seq::empty(), part);
            assert(Seq::<Piece>::empty().push(part) =~= seq![part]);
            lemma_narrow_row_push(before.cur, gap);
            lemma_narrow_row_push(before.cur.push(gap), part);
        }
    }
}

proof fn lemma_narrow_styled_runs(f: StyledFill, runs: Seq<Piece>, width: nat)
    requires
        narrow_fill(f),
        narrow_row(runs),
    ensures
        narrow_fill(styled_runs(f, runs, width)),
    decreases runs.len(),
{
    if runs.len() > 0 {
        let rest = runs.drop_last();
        assert forall|i: int| 0 <= i < rest.len() implies all_narrow((#[trigger] rest[i]).text) by {
            assert(rest[i] == runs[i]);
        }
        lemma_narrow_styled_runs(f, rest, width);
        assert(runs[runs.len() - 1] == runs.last());
        lemma_narrow_pieces(runs.last().text);
        lemma_narrow_styled_words(
            styled_runs(f, rest, width),
            pieces(runs.last().text, ' '),
            runs.last().style,
            width,
        );
    }
}

/// Runs of narrow characters become lines of narrow characters.
pub proof fn narrow_runs_stay_narrow(runs: Seq<Piece>, width: nat)
    requires
        narrow_row(runs),
    ensures
        narrow_rows(runs_wrapped(runs, width)),
{
    lemma_narrow_styled_runs(empty_fill(), runs, wide(width));
    let f = styled_runs(empty_fill(), runs, wide(width));
    lemma_narrow_rows_push(f.done, f.cur);
    if f.cur.len() == 0 && f.done.len() == 0 {
        lemma_narrow_rows_push(Seq::empty(), blank_row());
        assert(Seq::<Seq<Piece>>::empty().push(blank_row()) =~= seq![blank_row()]);
    }
}

} // verus!
