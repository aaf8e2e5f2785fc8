//! What the operations on texts come to: how a result follows from the parts that
//! a text is put together of.
use crate::prompt::{lemma_one_piece, lemma_pieces_join};
use crate::table::lemma_joined_concat;
use crate::text::{
    all_digits, before, blank, decimal, digit_char, ends, is_digit, is_upper, is_white, joined,
    lemma_blank_trimmed, lemma_decimal, lemma_pieces_nonempty, lemma_replaced_absent,
    lemma_stripped_end_take, lemma_stripped_start_skip, lemma_trimmed_end_take,
    lemma_trimmed_start_skip, line_list, lowered, occurs, occurs_at, parsed, pieces, repeated,
    replaced, starts, stripped_end, stripped_start, trimmed, trimmed_end, trimmed_start, without_cr,
    words,
};
use vstd::prelude::*;

verus! {

// ---------------------------------------------------------------------------
// Parts and lines
// ---------------------------------------------------------------------------

/// A separator parts what stands before it from what stands behind it. A text
/// without a separator is its own only part.
pub proof fn separators_part_a_text(a: Seq<char>, b: Seq<char>, sep: char)
    ensures
        pieces(a + seq![sep] + b, sep) == pieces(a, sep) + pieces(b, sep),
        !a.contains(sep) ==> pieces(a, sep) == seq![a],
{
    lemma_pieces_join(a, b, sep);
    if !a.contains(sep) {
        lemma_one_piece(a, sep);
    }
}

/// The parts with the separator between them are the text again, and no part holds
/// a separator.
pub proof fn parts_are_joined_back(s: Seq<char>, sep: char)
    ensures
        joined(pieces(s, sep), seq![sep]) == s,
        pieces(s, sep).len() > 0,
        forall|i: int| 0 <= i < pieces(s, sep).len() ==> !(#[trigger] pieces(s, sep)[i]).contains(sep),
    decreases s.len(),
{
    if s.len() == 0 {
        assert(s =~= Seq::<char>::empty());
    } else {
        let rest = s.drop_last();
        let c = s.last();
        let p = pieces(rest, sep);
        parts_are_joined_back(rest, sep);
        assert(s =~= rest.push(c));
        if c == sep {
            lemma_joined_concat(p, seq![Seq::<char>::empty()], seq![sep]);
            assert(p + seq![Seq::<char>::empty()] =~= p.push(Seq::empty()));
            assert(rest + seq![sep] + Seq::<char>::empty() =~= s);
        } else {
            let q = p.drop_last().push(p.last().push(c));
            assert(p =~= p.drop_last() + seq![p.last()]);
            assert(q =~= p.drop_last() + seq![p.last().push(c)]);
            if p.len() == 1 {
                assert(q =~= seq![p.last().push(c)]);
                assert(p =~= seq![p.last()]);
            } else {
                lemma_joined_concat(p.drop_last(), seq![p.last()], seq![sep]);
                lemma_joined_concat(p.drop_last(), seq![p.last().push(c)], seq![sep]);
                assert(joined(p.drop_last(), seq![sep]) + seq![sep] + p.last().push(c) =~= (joined(
                    p.drop_last(),
                    seq![sep],
                ) + seq![sep] + p.last()).push(c));
            }
            assert forall|i: int| 0 <= i < q.len() implies !(#[trigger] q[i]).contains(sep) by {
                if i < p.len() - 1 {
                    assert(q[i] == p[i]);
                } else {
                    assert(!p[p.len() - 1].contains(sep));
                    if q[i].contains(sep) {
                        let k = choose|k: int| 0 <= k < q[i].len() && q[i][k] == sep;
                        assert(p.last()[k] == sep);
                    }
                }
            }
        }
    }
}

/// A line ends with a line feed, with or without a carriage return before it, and
/// what follows are the lines of the rest. What is left at the end without a line
/// feed is a line too, where it is not empty.
pub proof fn lines_end_with_line_feeds(l: Seq<char>, rest: Seq<char>)
    requires
        !l.contains('\n'),
    ensures
        line_list(l + seq!['\r', '\n'] + rest) == seq![l] + line_list(rest),
        l.len() == 0 || l.last() != '\r' ==> line_list(l + seq!['\n'] + rest) == seq![l]
            + line_list(rest),
        l.len() > 0 ==> line_list(l) == seq![l],
        line_list(Seq::empty()).len() == 0,
{
    let cr = l.push('\r');
    assert(!cr.contains('\n')) by {
        if cr.contains('\n') {
            let i = choose|i: int| 0 <= i < cr.len() && cr[i] == '\n';
            assert(i < l.len() && l[i] == '\n');
        }
    }
    lemma_one_piece(l, '\n');
    lemma_one_piece(cr, '\n');
    lemma_line_before(cr, rest);
    assert(cr.drop_last() =~= l);
    assert(l + seq!['\r', '\n'] + rest =~= cr + seq!['\n'] + rest);
    lemma_line_before(l, rest);
    assert(seq![l].drop_last().map_values(|x: Seq<char>| without_cr(x)).push(l) =~= seq![l]);
    let none = Seq::<char>::empty();
    assert(seq![none].drop_last().map_values(|x: Seq<char>| without_cr(x)).len() == 0);
}

proof fn lemma_line_before(l: Seq<char>, rest: Seq<char>)
    requires
        !l.contains('\n'),
    ensures
        line_list(l + seq!['\n'] + rest) == seq![without_cr(l)] + line_list(rest),
{
    let f = |x: Seq<char>| without_cr(x);
    let all = pieces(l + seq!['\n'] + rest, '\n');
    let behind = pieces(rest, '\n');
    lemma_one_piece(l, '\n');
    lemma_pieces_join(l, rest, '\n');
    lemma_pieces_nonempty(rest, '\n');
    assert(all =~= seq![l] + behind);
    assert(all.last() == behind.last());
    assert(all.drop_last() =~= seq![l] + behind.drop_last());
    assert(all.drop_last().map_values(f) =~= seq![without_cr(l)] + behind.drop_last().map_values(
        f,
    ));
    assert((seq![without_cr(l)] + behind.drop_last().map_values(f)).push(behind.last())
        =~= seq![without_cr(l)] + behind.drop_last().map_values(f).push(behind.last()));
}

/// Texts are joined one behind the other, with the separator between neighbours.
pub proof fn joining_puts_the_separator_between(
    a: Seq<Seq<char>>,
    b: Seq<Seq<char>>,
    x: Seq<char>,
    sep: Seq<char>,
)
    ensures
        joined(Seq::empty(), sep).len() == 0,
        joined(seq![x], sep) == x,
        a.len() > 0 && b.len() > 0 ==> joined(a + b, sep) == joined(a, sep) + sep + joined(b, sep),
{
    if a.len() > 0 && b.len() > 0 {
        lemma_joined_concat(a, b, sep);
    }
}

// ---------------------------------------------------------------------------
// White space and words
// ---------------------------------------------------------------------------

/// The white space among the ASCII characters.
pub proof fn ascii_white_space(c: char)
    requires
        c < '\u{80}',
    ensures
        is_white(c) <==> c == ' ' || c == '\t' || c == '\n' || c == '\u{b}' || c == '\u{c}' || c
            == '\r',
{
}

/// Trimming takes the white space at the ends and nothing else.
pub proof fn trimming_takes_the_white_space_around(w: Seq<char>, s: Seq<char>, v: Seq<char>)
    requires
        blank(w),
        blank(v),
        s.len() > 0,
        !is_white(s[0]),
        !is_white(s.last()),
    ensures
        trimmed(w + s + v) == s,
        trimmed_start(w + s + v) == s + v,
        trimmed_end(w + s + v) == w + s,
        trimmed(w).len() == 0,
        trimmed_start(w).len() == 0,
        !blank(w + s + v),
{
    let all = w + s + v;
    assert forall|i: int| 0 <= i < w.len() implies is_white(#[trigger] all[i]) by {
        assert(all[i] == w[i]);
    }
    assert(all[w.len() as int] == s[0]);
    lemma_trimmed_start_skip(all, w.len() as int);
    assert(all.skip(w.len() as int) =~= s + v);
    let k = (w + s).len() as int;
    assert forall|i: int| k <= i < all.len() implies is_white(#[trigger] all[i]) by {
        assert(all[i] == v[i - k]);
    }
    assert(all[k - 1] == s.last());
    lemma_trimmed_end_take(all, k);
    assert(all.take(k) =~= w + s);
    let t = s + v;
    assert forall|i: int| s.len() <= i < t.len() implies is_white(#[trigger] t[i]) by {
        assert(t[i] == v[i - s.len()]);
    }
    lemma_trimmed_end_take(t, s.len() as int);
    assert(t.take(s.len() as int) =~= s);
    lemma_blank_trimmed(w);
}

/// Words are what white space parts. A text without white space is one word, where
/// it is not empty, and white space alone is none.
pub proof fn white_space_parts_words(a: Seq<char>, c: char, b: Seq<char>)
    requires
        is_white(c),
    ensures
        words(a + seq![c] + b) == words(a) + words(b),
        blank(a) ==> words(a).len() == 0,
        a.len() > 0 && (forall|i: int| 0 <= i < a.len() ==> !is_white(#[trigger] a[i])) ==> words(a)
            == seq![a],
{
    lemma_words_concat(a, c, b);
    if blank(a) {
        lemma_no_words(a);
    }
    if a.len() > 0 && (forall|i: int| 0 <= i < a.len() ==> !is_white(#[trigger] a[i])) {
        lemma_one_word(a);
    }
}

proof fn lemma_no_words(a: Seq<char>)
    requires
        blank(a),
    ensures
        words(a).len() == 0,
    decreases a.len(),
{
    if a.len() > 0 {
        assert(is_white(a[a.len() - 1]));
        lemma_no_words(a.drop_last());
    }
}

proof fn lemma_one_word(a: Seq<char>)
    requires
        a.len() > 0,
        forall|i: int| 0 <= i < a.len() ==> !is_white(#[trigger] a[i]),
    ensures
        words(a) == seq![a],
    decreases a.len(),
{
    let rest = a.drop_last();
    assert(!is_white(a[a.len() - 1]));
    if a.len() == 1 {
        assert(words(rest) =~= Seq::empty());
        assert(a =~= seq![a.last()]);
        assert(words(a) =~= seq![a]);
    } else {
        assert(!is_white(a[a.len() - 2]));
        assert forall|i: int| 0 <= i < rest.len() implies !is_white(#[trigger] rest[i]) by {
            assert(rest[i] == a[i]);
        }
        lemma_one_word(rest);
        assert(a =~= rest.push(a.last()));
        assert(words(a) =~= seq![a]);
    }
}

/// A text that ends within a word has a word.
proof fn lemma_words_nonempty(s: Seq<char>)
    requires
        s.len() > 0,
        !is_white(s.last()),
    ensures
        words(s).len() > 0,
    decreases s.len(),
{
    if s.len() > 1 && !is_white(s[s.len() - 2]) {
        assert(s.drop_last().last() == s[s.len() - 2]);
        lemma_words_nonempty(s.drop_last());
    }
}

proof fn lemma_words_concat(a: Seq<char>, c: char, b: Seq<char>)
    requires
        is_white(c),
    ensures
        words(a + seq![c] + b) == words(a) + words(b),
    decreases b.len(),
{
    let all = a + seq![c] + b;
    if b.len() == 0 {
        assert(all.drop_last() =~= a);
        assert(words(a) + words(b) =~= words(a));
    } else {
        let rest = b.drop_last();
        let x = b.last();
        assert(all.drop_last() =~= a + seq![c] + rest);
        assert(all.last() == x);
        lemma_words_concat(a, c, rest);
        if is_white(x) {
        } else if b.len() == 1 || is_white(b[b.len() - 2]) {
            assert(is_white(all[all.len() - 2])) by {
                if b.len() == 1 {
                    assert(all[all.len() - 2] == c);
                } else {
                    assert(all[all.len() - 2] == b[b.len() - 2]);
                }
            }
            assert((words(a) + words(rest)).push(seq![x]) =~= words(a) + words(rest).push(seq![x]));
        } else {
            assert(all[all.len() - 2] == b[b.len() - 2]);
            assert(rest.last() == b[b.len() - 2]);
            lemma_words_nonempty(rest);
            let p = words(a);
            let q = words(rest);
            assert((p + q).last() == q.last());
            assert((p + q).drop_last() =~= p + q.drop_last());
            assert((p + q.drop_last()).push(q.last().push(x)) =~= p + q.drop_last().push(
                q.last().push(x),
            ));
        }
    }
}

// ---------------------------------------------------------------------------
// Leading and trailing characters
// ---------------------------------------------------------------------------

/// Stripping takes every leading, or trailing, occurrence of the character and
/// nothing else.
pub proof fn stripping_takes_the_run(n: nat, c: char, s: Seq<char>)
    ensures
        s.len() == 0 || s[0] != c ==> stripped_start(repeated(c, n) + s, c) == s,
        s.len() == 0 || s.last() != c ==> stripped_end(s + repeated(c, n), c) == s,
{
    let front = repeated(c, n) + s;
    let back = s + repeated(c, n);
    if s.len() == 0 || s[0] != c {
        if s.len() > 0 {
            assert(front[n as int] == s[0]);
        }
        lemma_stripped_start_skip(front, c, n as int);
        assert(front.skip(n as int) =~= s);
    }
    if s.len() == 0 || s.last() != c {
        if s.len() > 0 {
            assert(back[s.len() - 1] == s.last());
        }
        lemma_stripped_end_take(back, c, s.len() as int);
        assert(back.take(s.len() as int) =~= s);
    }
}

/// A text starts with what stands at its front, ends with what stands at its end,
/// and holds what stands anywhere in it; and it starts or ends with nothing else.
pub proof fn texts_hold_their_parts(a: Seq<char>, p: Seq<char>, b: Seq<char>)
    ensures
        starts(p + b, p),
        ends(a + p, p),
        occurs(a + p + b, p),
        starts(a, p) ==> a == p + a.skip(p.len() as int),
        ends(a, p) ==> a == a.take(a.len() - p.len()) + p,
        starts(a, p) || ends(a, p) ==> occurs(a, p),
{
    assert((p + b).subrange(0, p.len() as int) =~= p);
    assert((a + p).subrange(a.len() as int, (a.len() + p.len()) as int) =~= p);
    assert((a + p + b).subrange(a.len() as int, (a.len() + p.len()) as int) =~= p);
    assert(occurs_at(a + p + b, p, a.len() as int));
    if starts(a, p) {
        assert(a =~= a.subrange(0, p.len() as int) + a.skip(p.len() as int));
    }
    if ends(a, p) {
        assert(a =~= a.take(a.len() - p.len()) + a.subrange(a.len() - p.len(), a.len() as int));
    }
}

/// What occurs in a text has something before it and something behind it.
pub proof fn what_occurs_stands_between(a: Seq<char>, p: Seq<char>)
    requires
        occurs(a, p),
    ensures
        exists|x: Seq<char>, y: Seq<char>| a == #[trigger] (x + p + y),
{
    let i = choose|i: int| occurs_at(a, p, i);
    let x = a.take(i);
    let y = a.skip(i + p.len());
    assert(a =~= x + a.subrange(i, i + p.len()) + y);
    assert(a == x + p + y);
}

// ---------------------------------------------------------------------------
// Replacing and lower case
// ---------------------------------------------------------------------------

/// Up to its first occurrence a text stays; the occurrence gives way, and what is
/// behind it is replaced in the same way.
pub proof fn the_first_occurrence_gives_way(
    a: Seq<char>,
    from: Seq<char>,
    b: Seq<char>,
    to: Seq<char>,
)
    requires
        from.len() > 0,
        forall|i: int| 0 <= i < a.len() ==> !#[trigger] occurs_at(a + from + b, from, i),
    ensures
        replaced(a + from + b, from, to) == a + to + replaced(b, from, to),
    decreases a.len(),
{
    let all = a + from + b;
    if a.len() == 0 {
        assert(all =~= from + b);
        assert(all.subrange(0, from.len() as int) =~= from);
        assert(all.skip(from.len() as int) =~= b);
        assert(a + to + replaced(b, from, to) =~= to + replaced(b, from, to));
    } else {
        let rest = a.skip(1);
        assert(all.skip(1) =~= rest + from + b);
        assert(!occurs_at(all, from, 0));
        assert forall|i: int| 0 <= i < rest.len() implies !#[trigger] occurs_at(
            rest + from + b,
            from,
            i,
        ) by {
            assert(!occurs_at(all, from, i + 1));
            if occurs_at(rest + from + b, from, i) {
                assert(all.subrange(i + 1, i + 1 + from.len()) =~= (rest + from + b).subrange(
                    i,
                    i + from.len(),
                ));
            }
        }
        the_first_occurrence_gives_way(rest, from, b, to);
        assert(seq![all[0]] + (rest + to + replaced(b, from, to)) =~= a + to + replaced(
            b,
            from,
            to,
        ));
    }
}

/// Only what occurs is replaced.
pub proof fn without_an_occurrence_nothing_changes(s: Seq<char>, from: Seq<char>, to: Seq<char>)
    requires
        !occurs(s, from),
    ensures
        replaced(s, from, to) == s,
{
    lemma_replaced_absent(s, from, to);
}

/// The ASCII letters.
pub open spec fn alphabet(upper: bool) -> Seq<char> {
    if upper {
        "ABCDEFGHIJKLMNOPQRSTUVWXYZ"@
    } else {
        "abcdefghijklmnopqrstuvwxyz"@
    }
}

/// In lower case each capital letter gives way to its small letter and every other
/// character stays.
pub proof fn lower_case_changes_capitals_only(s: Seq<char>, i: int)
    requires
        0 <= i < s.len(),
    ensures
        lowered(s).len() == s.len(),
        !alphabet(true).contains(s[i]) ==> lowered(s)[i] == s[i],
        forall|k: int|
            0 <= k < 26 && s[i] == #[trigger] alphabet(true)[k] ==> lowered(s)[i] == alphabet(
                false,
            )[k],
{
    reveal_strlit("ABCDEFGHIJKLMNOPQRSTUVWXYZ");
    reveal_strlit("abcdefghijklmnopqrstuvwxyz");
    let up = alphabet(true);
    if is_upper(s[i]) {
        let k = (s[i] as int) - ('A' as int);
        lemma_alphabet(k);
        assert(up[k] == s[i]);
        assert(up.contains(s[i]));
    }
    assert forall|k: int| 0 <= k < 26 && s[i] == #[trigger] up[k] implies lowered(s)[i] == alphabet(
        false,
    )[k] by {
        lemma_alphabet(k);
    }
}

pub proof fn lemma_alphabet(k: int)
    requires
        0 <= k < 26,
    ensures
        alphabet(true).len() == 26,
        alphabet(false).len() == 26,
        alphabet(true)[k] as int == 'A' as int + k,
        alphabet(false)[k] as int == 'a' as int + k,
{
    reveal_strlit("ABCDEFGHIJKLMNOPQRSTUVWXYZ");
    reveal_strlit("abcdefghijklmnopqrstuvwxyz");
}

// ---------------------------------------------------------------------------
// Numbers
// ---------------------------------------------------------------------------

/// The decimal digits.
pub open spec fn digits() -> Seq<char> {
    "0123456789"@
}

/// A number up to nine is written with its digit, and a larger one with what its
/// tens are written with and the digit of the rest.
pub proof fn digits_stand_in_order(n: nat, d: nat)
    requires
        d < 10,
    ensures
        decimal(d) == seq![digits()[d as int]],
        n > 0 ==> decimal(10 * n + d) == decimal(n).push(digits()[d as int]),
{
    reveal_strlit("0123456789");
    assert(digits()[d as int] == digit_char(d));
    if n > 0 {
        assert((10 * n + d) / 10 == n && (10 * n + d) % 10 == d);
    }
}

/// A number in decimal notation reads back, where it is not above the limit.
pub proof fn numbers_read_back(n: nat, max: nat)
    ensures
        n <= max ==> parsed(decimal(n), max) == Some(n),
        n > max ==> parsed(decimal(n), max) is None,
        parsed(seq!['+'] + decimal(n), max) == parsed(decimal(n), max),
{
    lemma_decimal(n);
    assert((seq!['+'] + decimal(n)).skip(1) =~= decimal(n));
}

/// Nothing but digits, with or without a plus sign in front, is read as a number,
/// and a digit more makes ten times as much and that digit.
pub proof fn only_digits_are_numbers(s: Seq<char>, d: nat, max: nat)
    requires
        d < 10,
    ensures
        s.len() == 0 ==> parsed(s, max) is None,
        (exists|i: int| 0 <= i < s.len() && !(#[trigger] digits().contains(s[i])) && (i > 0 || s[i]
            != '+')) ==> parsed(s, max) is None,
        parsed(s, max) is Some && 10 * parsed(s, max)->0 + d <= max ==> parsed(
            s.push(digits()[d as int]),
            max,
        ) == Some((10 * parsed(s, max)->0 + d) as nat),
{
    reveal_strlit("0123456789");
    let all = digits();
    let plus = s.len() > 0 && s[0] == '+';
    let body = if plus {
        s.skip(1)
    } else {
        s
    };
    if exists|i: int| 0 <= i < s.len() && !(#[trigger] all.contains(s[i])) && (i > 0 || s[i]
        != '+') {
        let i = choose|i: int| 0 <= i < s.len() && !(#[trigger] all.contains(s[i])) && (i > 0
            || s[i] != '+');
        if is_digit(s[i]) {
            let k = (s[i] as int) - ('0' as int);
            assert(all[k] == s[i]);
        }
        let j = if plus {
            i - 1
        } else {
            i
        };
        assert(body[j] == s[i]);
        assert(!all_digits(body));
    }
    if parsed(s, max) is Some && 10 * parsed(s, max)->0 + d <= max {
        let c = all[d as int];
        assert(c == digit_char(d) && is_digit(c));
        let longer = s.push(c);
        let b2 = body.push(c);
        if plus {
            assert(longer.skip(1) =~= b2);
        } else {
            assert(longer[0] != '+') by {
                assert(is_digit(body[0]));
            }
        }
        assert(b2.drop_last() =~= body);
        assert forall|i: int| 0 <= i < b2.len() implies is_digit(#[trigger] b2[i]) by {
            if i < body.len() {
                assert(b2[i] == body[i]);
            }
        }
    }
}

// ---------------------------------------------------------------------------
// Order
// ---------------------------------------------------------------------------

/// In dictionary order the first difference decides, and a text comes before what
/// goes on behind it.
pub proof fn the_first_difference_decides(
    p: Seq<char>,
    x: char,
    a: Seq<char>,
    y: char,
    b: Seq<char>,
)
    ensures
        x != y ==> (before(p + seq![x] + a, p + seq![y] + b) <==> x < y),
        before(p, p + b) <==> b.len() > 0,
        !before(p + b, p),
    decreases p.len(),
{
    if p.len() == 0 {
        assert((p + seq![x] + a)[0] == x);
        assert((p + seq![y] + b)[0] == y);
        assert(p + b =~= b);
    } else {
        let r = p.skip(1);
        the_first_difference_decides(r, x, a, y, b);
        assert((p + seq![x] + a).skip(1) =~= r + seq![x] + a);
        assert((p + seq![y] + b).skip(1) =~= r + seq![y] + b);
        assert((p + b).skip(1) =~= r + b);
        assert((p + seq![x] + a)[0] == p[0] && (p + seq![y] + b)[0] == p[0]);
        assert((p + b)[0] == p[0]);
    }
}

} // verus!
