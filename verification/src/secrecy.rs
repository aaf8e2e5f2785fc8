//! Scrubbed texts as a whole, markers included.
//!
//! Most markers give nothing of a value away, neither by themselves nor together
//! with the text around them. Then no value stands in a scrubbed text, whole or in
//! part, and scrubbing it again changes nothing.
use crate::json::{escape, escaped};
use crate::redaction::{
    clean, form_marked, forms_marked, fragments_marked, fragments_rebuilt, hidden_chars, inserted,
    lemma_char_at, lemma_encode_one, lemma_forms, lemma_offset, lemma_whole_plain, marked,
    marked_text_is_scrubbed_text, no_secret_survives, offset, own, own_run, plain, uncut,
    whole_marked,
};
use crate::text::{byte_len, occurs, occurs_at, replaced, starts};
use crate::vault::{
    MIN_SECRET_LEN, PARTIAL_SEED, apart, clean_text_is_unchanged, covers, forms, forms_scrubbed,
    free_of, hidden, marker, scrubbed, seed, untouched_by,
};
use vstd::prelude::*;
use vstd::utf8::*;

verus! {

/// A marker that holds neither the form nor a fragment of it. No occurrence of such
/// a form reaches over an end of the marker, since brackets stand there.
pub open spec fn quiet(mark: Seq<char>, form: Seq<char>) -> bool {
    &&& !form.contains('[')
    &&& !form.contains(']')
    &&& !occurs(mark, form)
    &&& apart(mark, form)
}

/// The marker and the form have no byte in common.
pub open spec fn no_byte_shared(mark: Seq<char>, form: Seq<char>) -> bool {
    forall|i: int, j: int|
        0 <= i < encode_utf8(mark).len() && 0 <= j < encode_utf8(form).len()
            ==> #[trigger] encode_utf8(mark)[i] != #[trigger] encode_utf8(form)[j]
}

/// Brackets stand at both ends.
pub open spec fn bracketed(mark: Seq<char>) -> bool {
    mark.len() > 0 && mark[0] == '[' && mark.last() == ']'
}

/// The characters from `a` up to `b` hold no bracket.
pub open spec fn bare_run(l: Seq<(char, bool)>, a: int, b: int) -> bool {
    &&& 0 <= a <= b <= l.len()
    &&& forall|k: int| a <= k < b ==> (#[trigger] l[k]).0 != '[' && l[k].0 != ']'
}

pub open spec fn part_at(l: Seq<(char, bool)>, run: Seq<(char, bool)>, p: int) -> bool {
    0 <= p && p + run.len() <= l.len() && l.subrange(p, p + run.len()) == run
}

pub open spec fn part_of(l: Seq<(char, bool)>, run: Seq<(char, bool)>) -> bool {
    exists|p: int| part_at(l, run, p)
}

/// No run without brackets that holds an inserted character is the form or holds a
/// fragment of it.
#[verifier::opaque]
pub open spec fn sealed(l: Seq<(char, bool)>, form: Seq<char>) -> bool {
    forall|a: int, b: int|
        #[trigger] bare_run(l, a, b) && !own_run(l, a, b) ==> {
            let run = plain(l.subrange(a, b));
            run != form && apart(run, form)
        }
}

// ---------------------------------------------------------------------------
// Runs without brackets
// ---------------------------------------------------------------------------

/// A run without brackets at the very beginning stood there before.
proof fn lemma_whole_bare_prefix(l: Seq<(char, bool)>, from: Seq<char>, to: Seq<char>, n: int)
    requires
        bracketed(to),
        bare_run(whole_marked(l, from, to), 0, n),
    ensures
        n <= l.len(),
        l.take(n) == whole_marked(l, from, to).take(n),
    decreases l.len(),
{
    let m = whole_marked(l, from, to);
    if l.len() == 0 || from.len() == 0 {
    } else if starts(plain(l), from) {
        if n > 0 {
            assert(m[0] == inserted(to)[0]);
        }
        assert(l.take(n) =~= m.take(n));
    } else {
        let rest = whole_marked(l.skip(1), from, to);
        if n > 0 {
            assert forall|k: int| 0 <= k < n - 1 implies (#[trigger] rest[k]).0 != '['
                && rest[k].0 != ']' by {
                assert(rest[k] == m[k + 1]);
            }
            lemma_whole_bare_prefix(l.skip(1), from, to, n - 1);
            assert forall|k: int| 0 <= k < n implies l.take(n)[k] == m.take(n)[k] by {
                if k > 0 {
                    assert(m[k] == rest[k - 1]);
                    assert(rest.take(n - 1)[k - 1] == l.skip(1).take(n - 1)[k - 1]);
                }
            }
        }
        assert(l.take(n) =~= m.take(n));
    }
}

proof fn lemma_part_behind(l: Seq<(char, bool)>, n: int, run: Seq<(char, bool)>)
    requires
        0 <= n <= l.len(),
        part_of(l.skip(n), run),
    ensures
        part_of(l, run),
{
    let p = choose|p: int| part_at(l.skip(n), run, p);
    assert(l.subrange(n + p, n + p + run.len()) =~= l.skip(n).subrange(p, p + run.len()));
    assert(part_at(l, run, n + p));
}

/// After whole occurrences gave way, a run without brackets is a part of what was
/// there or of the marker.
proof fn lemma_whole_bare(l: Seq<(char, bool)>, from: Seq<char>, to: Seq<char>, a: int, b: int)
    requires
        bracketed(to),
        bare_run(whole_marked(l, from, to), a, b),
    ensures
        part_of(l, whole_marked(l, from, to).subrange(a, b)) || part_of(
            inserted(to),
            whole_marked(l, from, to).subrange(a, b),
        ),
    decreases l.len(),
{
    let m = whole_marked(l, from, to);
    let run = m.subrange(a, b);
    if l.len() == 0 || from.len() == 0 {
        assert(part_at(l, run, a));
    } else if starts(plain(l), from) {
        let n = from.len() as int;
        let rest = whole_marked(l.skip(n), from, to);
        let w = to.len() as int;
        assert(inserted(to).len() == w);
        if b <= w {
            assert(inserted(to).subrange(a, b) =~= run);
            assert(part_at(inserted(to), run, a));
        } else {
            if a < w {
                assert(m[w - 1] == inserted(to)[w - 1]);
            }
            assert(bare_run(rest, a - w, b - w)) by {
                assert forall|k: int| a - w <= k < b - w implies (#[trigger] rest[k]).0 != '['
                    && rest[k].0 != ']' by {
                    assert(rest[k] == m[k + w]);
                }
            }
            lemma_whole_bare(l.skip(n), from, to, a - w, b - w);
            assert(rest.subrange(a - w, b - w) =~= run);
            if part_of(l.skip(n), run) {
                lemma_part_behind(l, n, run);
            }
        }
    } else if a > 0 {
        let rest = whole_marked(l.skip(1), from, to);
        assert(bare_run(rest, a - 1, b - 1)) by {
            assert forall|k: int| a - 1 <= k < b - 1 implies (#[trigger] rest[k]).0 != '['
                && rest[k].0 != ']' by {
                assert(rest[k] == m[k + 1]);
            }
        }
        lemma_whole_bare(l.skip(1), from, to, a - 1, b - 1);
        assert(rest.subrange(a - 1, b - 1) =~= run);
        if part_of(l.skip(1), run) {
            lemma_part_behind(l, 1, run);
        }
    } else {
        lemma_whole_bare_prefix(l, from, to, b);
        assert(run =~= m.take(b));
        assert(l.subrange(0, b) =~= l.take(b));
        assert(part_at(l, run, 0));
    }
}

/// A run without brackets at the very end of what the first `k` characters become
/// stood at their end.
proof fn lemma_rebuilt_bare_suffix(
    l: Seq<(char, bool)>,
    h: Seq<bool>,
    mark: Seq<char>,
    k: int,
    n: int,
)
    requires
        0 <= k <= l.len(),
        bracketed(mark),
        ({
            let m = fragments_rebuilt(l, h, mark, k);
            bare_run(m, m.len() - n, m.len() as int)
        }),
    ensures
        0 <= n <= k,
        ({
            let m = fragments_rebuilt(l, h, mark, k);
            part_of(l, m.subrange(m.len() - n, m.len() as int))
        }),
        k > 0 && h[k - 1] ==> n == 0,
        ({
            let m = fragments_rebuilt(l, h, mark, k);
            l.subrange(k - n, k) == m.subrange(m.len() - n, m.len() as int)
        }),
    decreases k,
{
    let m = fragments_rebuilt(l, h, mark, k);
    let run = m.subrange(m.len() - n, m.len() as int);
    if k > 0 {
        let before = fragments_rebuilt(l, h, mark, k - 1);
        if !h[k - 1] {
            if n > 0 {
                assert(bare_run(before, before.len() - (n - 1), before.len() as int)) by {
                    assert forall|i: int|
                        before.len() - (n - 1) <= i < before.len() implies (#[trigger] before[i]).0
                        != '[' && before[i].0 != ']' by {
                        assert(before[i] == m[i]);
                    }
                }
                lemma_rebuilt_bare_suffix(l, h, mark, k - 1, n - 1);
                assert(l.subrange(k - n, k) =~= l.subrange(k - 1 - (n - 1), k - 1).push(l[k - 1]));
                assert(run =~= before.subrange(before.len() - (n - 1), before.len() as int).push(
                    l[k - 1],
                ));
            } else {
                assert(l.subrange(k, k) =~= run);
            }
        } else if k == 1 || !h[k - 2] {
            if n > 0 {
                assert(m[m.len() - 1] == inserted(mark)[mark.len() - 1]);
            }
            assert(l.subrange(k, k) =~= run);
        } else {
            lemma_rebuilt_bare_suffix(l, h, mark, k - 1, n);
            assert(l.subrange(k, k) =~= run);
        }
    } else {
        assert(l.subrange(0, 0) =~= run);
    }
    assert(part_at(l, run, k - n));
}

/// After fragments gave way, a run without brackets is a part of what was there or
/// of the marker.
proof fn lemma_rebuilt_bare(
    l: Seq<(char, bool)>,
    h: Seq<bool>,
    mark: Seq<char>,
    k: int,
    a: int,
    b: int,
)
    requires
        0 <= k <= l.len(),
        bracketed(mark),
        bare_run(fragments_rebuilt(l, h, mark, k), a, b),
    ensures
        part_of(l, fragments_rebuilt(l, h, mark, k).subrange(a, b)) || part_of(
            inserted(mark),
            fragments_rebuilt(l, h, mark, k).subrange(a, b),
        ),
    decreases k,
{
    let m = fragments_rebuilt(l, h, mark, k);
    let run = m.subrange(a, b);
    if b == m.len() {
        lemma_rebuilt_bare_suffix(l, h, mark, k, b - a);
    } else {
        let before = fragments_rebuilt(l, h, mark, k - 1);
        let w = before.len() as int;
        if b <= w {
            assert(bare_run(before, a, b)) by {
                assert forall|i: int| a <= i < b implies (#[trigger] before[i]).0 != '['
                    && before[i].0 != ']' by {
                    assert(before[i] == m[i]);
                }
            }
            lemma_rebuilt_bare(l, h, mark, k - 1, a, b);
            assert(before.subrange(a, b) =~= run);
        } else {
            if a < w {
                assert(m[w] == inserted(mark)[0]);
            }
            assert(inserted(mark).subrange(a - w, b - w) =~= run);
            assert(part_at(inserted(mark), run, a - w));
        }
    }
}

// ---------------------------------------------------------------------------
// What markers give away
// ---------------------------------------------------------------------------

/// What is apart from a value has no part that is not.
proof fn lemma_apart_part(text: Seq<char>, p: int, q: int, form: Seq<char>)
    requires
        0 <= p <= q <= text.len(),
        apart(text, form),
    ensures
        apart(text.subrange(p, q), form),
{
    let t = encode_utf8(text);
    let r = encode_utf8(text.subrange(p, q));
    let v = encode_utf8(form);
    lemma_offset(text, p, q);
    assert forall|i: int, j: int| !seed(r, v, i, j) by {
        if seed(r, v, i, j) {
            let c = offset(text, p) + i;
            assert(t.subrange(c, c + PARTIAL_SEED) =~= r.subrange(i, i + PARTIAL_SEED));
            assert(seed(t, v, c, j));
        }
    }
}

proof fn lemma_still_sealed(
    l: Seq<(char, bool)>,
    m: Seq<(char, bool)>,
    mark: Seq<char>,
    form: Seq<char>,
)
    requires
        sealed(l, form),
        quiet(mark, form),
        forall|a: int, b: int| #[trigger]
            bare_run(m, a, b) ==> part_of(l, m.subrange(a, b)) || part_of(
                inserted(mark),
                m.subrange(a, b),
            ),
    ensures
        sealed(m, form),
{
    reveal(sealed);
    assert forall|a: int, b: int| #[trigger] bare_run(m, a, b) && !own_run(m, a, b) implies {
        let run = plain(m.subrange(a, b));
        run != form && apart(run, form)
    } by {
        let run = m.subrange(a, b);
        if part_of(l, run) {
            let p = choose|p: int| part_at(l, run, p);
            let q = p + run.len();
            assert forall|k: int| p <= k < q implies #[trigger] l[k] == m[a + (k - p)] by {
                assert(l.subrange(p, q)[k - p] == run[k - p]);
            }
            assert(bare_run(l, p, q));
            let x = choose|x: int| a <= x < b && !(#[trigger] m[x]).1;
            assert(!l[p + (x - a)].1);
            assert(!own_run(l, p, q));
        } else {
            let p = choose|p: int| part_at(inserted(mark), run, p);
            let q = p + run.len();
            assert(plain(run) =~= mark.subrange(p, q)) by {
                assert forall|k: int| 0 <= k < run.len() implies plain(run)[k] == mark.subrange(
                    p,
                    q,
                )[k] by {
                    assert(inserted(mark).subrange(p, q)[k] == run[k]);
                }
            }
            if plain(run) == form {
                assert(occurs_at(mark, form, p));
            }
            lemma_apart_part(mark, p, q, form);
        }
    }
}

// ---------------------------------------------------------------------------
// Characters that are not cut
// ---------------------------------------------------------------------------

/// Scrubbing the form cuts no character of the text in two.
pub open spec fn form_uncut(text: Seq<char>, form: Seq<char>, mark: Seq<char>) -> bool {
    byte_len(form) >= PARTIAL_SEED ==> uncut(replaced(text, form, mark), form)
}

pub open spec fn forms_uncut(text: Seq<char>, list: Seq<Seq<char>>, mark: Seq<char>) -> bool
    decreases list.len(),
{
    list.len() > 0 ==> forms_uncut(text, list.drop_last(), mark) && form_uncut(
        forms_scrubbed(text, list.drop_last(), mark),
        list.last(),
        mark,
    )
}

/// Scrubbing the entries, one after the other, never cuts a character in two.
pub open spec fn nothing_cut(text: Seq<char>, entries: Seq<(Seq<char>, Seq<char>)>) -> bool
    decreases entries.len(),
{
    entries.len() > 0 ==> nothing_cut(text, entries.drop_last()) && (byte_len(entries.last().1)
        >= MIN_SECRET_LEN ==> forms_uncut(
        scrubbed(text, entries.drop_last()),
        forms(entries.last().1),
        marker(entries.last().0),
    ))
}

proof fn lemma_form_sealed(
    l: Seq<(char, bool)>,
    form: Seq<char>,
    mark: Seq<char>,
    other: Seq<char>,
)
    requires
        form_uncut(plain(l), form, mark),
        bracketed(mark),
        quiet(mark, other),
        sealed(l, other),
    ensures
        sealed(form_marked(l, form, mark), other),
{
    if byte_len(form) >= MIN_SECRET_LEN {
        let whole = whole_marked(l, form, mark);
        assert forall|a: int, b: int| #[trigger] bare_run(whole, a, b) implies part_of(
            l,
            whole.subrange(a, b),
        ) || part_of(inserted(mark), whole.subrange(a, b)) by {
            lemma_whole_bare(l, form, mark, a, b);
        }
        lemma_still_sealed(l, whole, mark, other);
        if byte_len(form) >= PARTIAL_SEED {
            lemma_whole_plain(l, form, mark);
            let m = fragments_marked(whole, form, mark);
            let h = hidden_chars(plain(whole), form);
            assert forall|a: int, b: int| #[trigger] bare_run(m, a, b) implies part_of(
                whole,
                m.subrange(a, b),
            ) || part_of(inserted(mark), m.subrange(a, b)) by {
                lemma_rebuilt_bare(whole, h, mark, whole.len() as int, a, b);
            }
            lemma_still_sealed(whole, m, mark, other);
        }
    }
}

proof fn lemma_forms_sealed(
    l: Seq<(char, bool)>,
    list: Seq<Seq<char>>,
    mark: Seq<char>,
    other: Seq<char>,
)
    requires
        forms_uncut(plain(l), list, mark),
        bracketed(mark),
        quiet(mark, other),
        sealed(l, other),
    ensures
        sealed(forms_marked(l, list, mark), other),
    decreases list.len(),
{
    if list.len() > 0 {
        let rest = list.drop_last();
        lemma_forms(l, rest, mark);
        lemma_forms_sealed(l, rest, mark, other);
        lemma_form_sealed(forms_marked(l, rest, mark), list.last(), mark, other);
    }
}

proof fn lemma_marker_bracketed(name: Seq<char>)
    ensures
        bracketed(marker(name)),
{
    reveal_strlit("[vault:");
    reveal_strlit("]");
}

/// Every marker that can be inserted is quiet about the form.
pub open spec fn all_quiet(entries: Seq<(Seq<char>, Seq<char>)>, form: Seq<char>) -> bool {
    forall|i: int|
        0 <= i < entries.len() && byte_len((#[trigger] entries[i]).1) >= MIN_SECRET_LEN ==> quiet(
            marker(entries[i].0),
            form,
        )
}

proof fn lemma_sealed(text: Seq<char>, entries: Seq<(Seq<char>, Seq<char>)>, form: Seq<char>)
    requires
        nothing_cut(text, entries),
        all_quiet(entries, form),
    ensures
        sealed(marked(text, entries), form),
    decreases entries.len(),
{
    if entries.len() == 0 {
        reveal(sealed);
        assert forall|a: int, b: int| bare_run(own(text), a, b) implies #[trigger] own_run(
            own(text),
            a,
            b,
        ) by {}
    } else {
        let rest = entries.drop_last();
        assert forall|i: int|
            0 <= i < rest.len() && byte_len((#[trigger] rest[i]).1) >= MIN_SECRET_LEN implies quiet(
            marker(rest[i].0),
            form,
        ) by {
            assert(rest[i] == entries[i]);
        }
        lemma_sealed(text, rest, form);
        marked_text_is_scrubbed_text(text, rest);
        let e = entries[entries.len() - 1];
        if byte_len(e.1) >= MIN_SECRET_LEN {
            lemma_marker_bracketed(e.0);
            lemma_forms_sealed(marked(text, rest), forms(e.1), marker(e.0), form);
        }
    }
}

// ---------------------------------------------------------------------------
// Bytes and characters
// ---------------------------------------------------------------------------

/// A byte below 0x80 is a character of its own.
proof fn lemma_ascii_byte(text: Seq<char>, y: int) -> (k: int)
    requires
        0 <= y < encode_utf8(text).len(),
        encode_utf8(text)[y] < 0x80,
    ensures
        0 <= k < text.len(),
        text[k] as u32 == encode_utf8(text)[y],
        offset(text, k) == y,
        offset(text, k + 1) == y + 1,
{
    assert(text.take(0) =~= Seq::<char>::empty());
    assert(text.take(text.len() as int) =~= text);
    let k = lemma_char_at(text, 0, text.len() as int, y);
    let c = text[k];
    let s = c as u32;
    lemma_offset(text, k, k + 1);
    lemma_encode_one(c);
    assert(text.subrange(k, k + 1) =~= seq![c]);
    let bytes = encode_scalar(s);
    assert(bytes[y - offset(text, k)] == encode_utf8(text)[y]);
    lemma_scalar_bytes(s);
    k
}

proof fn lemma_scalar_bytes(s: u32)
    ensures
        s < 0x80 ==> encode_scalar(s) == seq![s as u8],
        s >= 0x80 ==> forall|i: int|
            0 <= i < encode_scalar(s).len() ==> #[trigger] encode_scalar(s)[i] >= 0x80,
{
    assert(s < 0x80 ==> (s & 0x7F) as u8 == s as u8) by (bit_vector);
    assert(forall|b: u8| #[trigger] (0xC0u8 | b) >= 0x80) by (bit_vector);
    assert(forall|b: u8| #[trigger] (0xE0u8 | b) >= 0x80) by (bit_vector);
    assert(forall|b: u8| #[trigger] (0xF0u8 | b) >= 0x80) by (bit_vector);
    assert(forall|b: u8| #[trigger] (0x80u8 | b) >= 0x80) by (bit_vector);
}

/// A form without brackets holds no byte of a bracket.
proof fn lemma_no_bracket_byte(form: Seq<char>, y: int)
    requires
        0 <= y < encode_utf8(form).len(),
        !form.contains('['),
        !form.contains(']'),
    ensures
        encode_utf8(form)[y] != 0x5b,
        encode_utf8(form)[y] != 0x5d,
{
    if encode_utf8(form)[y] < 0x80 {
        let k = lemma_ascii_byte(form, y);
        char_u32_cast(form[k], form[k] as u32);
        assert(form.contains(form[k]));
    }
}

/// A text whose own runs are clean, and whose other runs are sealed, holds nothing
/// of the form.
proof fn lemma_nothing_stands(l: Seq<(char, bool)>, form: Seq<char>)
    requires
        clean(l, form),
        sealed(l, form),
        !form.contains('['),
        !form.contains(']'),
    ensures
        !occurs(plain(l), form),
        apart(plain(l), form),
{
    reveal(clean);
    reveal(sealed);
    let text = plain(l);
    let t = encode_utf8(text);
    let v = encode_utf8(form);
    if occurs(text, form) {
        let p = choose|p: int| occurs_at(text, form, p);
        let q = p + form.len();
        assert(plain(l.subrange(p, q)) =~= form);
        assert forall|k: int| p <= k < q implies (#[trigger] l[k]).0 != '[' && l[k].0 != ']' by {
            assert(text.subrange(p, q)[k - p] == form[k - p]);
            assert(form.contains(form[k - p]));
        }
        assert(bare_run(l, p, q));
        assert(own_run(l, p, q) || !own_run(l, p, q));
        assert(false);
    }
    assert forall|i: int, j: int| !seed(t, v, i, j) by {
        lemma_no_seed(l, form, i, j);
    }
}

proof fn lemma_no_seed(l: Seq<(char, bool)>, form: Seq<char>, i: int, j: int)
    requires
        clean(l, form),
        sealed(l, form),
        !form.contains('['),
        !form.contains(']'),
    ensures
        !seed(encode_utf8(plain(l)), encode_utf8(form), i, j),
{
    let text = plain(l);
    let t = encode_utf8(text);
    let v = encode_utf8(form);
    if seed(t, v, i, j) {
        let e = i + PARTIAL_SEED;
        let n = text.len() as int;
        assert(text.take(0) =~= Seq::<char>::empty());
        assert(text.take(n) =~= text);
        let p = lemma_char_at(text, 0, n, i);
        let last = lemma_char_at(text, 0, n, e - 1);
        let q = last + 1;
        lemma_offset(text, p, p + 1);
        lemma_offset(text, 0, p);
        lemma_offset(text, last, q);
        if q <= p {
            lemma_offset(text, q, p);
        }
        assert(p < q);
        lemma_offset(text, p, q);
        assert forall|k: int| p <= k < q implies (#[trigger] l[k]).0 != '[' && l[k].0 != ']' by {
            let c = l[k].0;
            if c == '[' || c == ']' {
                lemma_offset(text, k, k + 1);
                lemma_encode_one(c);
                lemma_scalar_bytes(c as u32);
                assert(text.subrange(k, k + 1) =~= seq![c]);
                let x = offset(text, k);
                assert(t.subrange(x, x + 1)[0] == t[x]);
                if k > p {
                    lemma_offset(text, p + 1, k);
                }
                if k < last {
                    lemma_offset(text, k, last);
                }
                assert(i <= x < e);
                assert(t.subrange(i, e)[x - i] == v.subrange(j, j + PARTIAL_SEED)[x - i]);
                lemma_no_bracket_byte(form, j + (x - i));
            }
        }
        assert(bare_run(l, p, q));
        let run = text.subrange(p, q);
        assert(plain(l.subrange(p, q)) =~= run);
        let r = encode_utf8(run);
        let d = i - offset(text, p);
        assert(r.subrange(d, d + PARTIAL_SEED) =~= t.subrange(i, e));
        assert(seed(r, v, d, j));
        reveal(clean);
        reveal(sealed);
        assert(own_run(l, p, q) || !own_run(l, p, q));
    }
}

// ---------------------------------------------------------------------------
// What holds of a scrubbed text
// ---------------------------------------------------------------------------

/// No secret stands in a scrubbed text: neither a value in one of its forms, nor a
/// fragment of it as long as a seed. This goes for every form about which all the
/// markers are quiet, where no character was cut in two.
pub proof fn no_secret_stands_in_the_result(
    text: Seq<char>,
    entries: Seq<(Seq<char>, Seq<char>)>,
    i: int,
    k: int,
)
    requires
        0 <= i < entries.len(),
        byte_len(entries[i].1) >= MIN_SECRET_LEN,
        0 <= k < forms(entries[i].1).len(),
        byte_len(forms(entries[i].1)[k]) >= MIN_SECRET_LEN,
        nothing_cut(text, entries),
        all_quiet(entries, forms(entries[i].1)[k]),
    ensures
        !occurs(scrubbed(text, entries), forms(entries[i].1)[k]),
        apart(scrubbed(text, entries), forms(entries[i].1)[k]),
{
    let form = forms(entries[i].1)[k];
    no_secret_survives(text, entries, i, k);
    lemma_sealed(text, entries, form);
    assert(quiet(marker(entries[i].0), form));
    lemma_nothing_stands(marked(text, entries), form);
    marked_text_is_scrubbed_text(text, entries);
}

/// Scrubbing a scrubbed text changes nothing, where all the markers are quiet about
/// all the forms and no character was cut in two.
pub proof fn scrubbing_again_changes_nothing(
    text: Seq<char>,
    entries: Seq<(Seq<char>, Seq<char>)>,
)
    requires
        nothing_cut(text, entries),
        forall|i: int, k: int|
            0 <= i < entries.len() && byte_len(entries[i].1) >= MIN_SECRET_LEN && 0 <= k < forms(
                entries[i].1,
            ).len() && byte_len(forms(entries[i].1)[k]) >= MIN_SECRET_LEN ==> all_quiet(
                entries,
                #[trigger] forms(entries[i].1)[k],
            ),
    ensures
        scrubbed(scrubbed(text, entries), entries) == scrubbed(text, entries),
{
    let r = scrubbed(text, entries);
    assert forall|i: int|
        0 <= i < entries.len() && byte_len((#[trigger] entries[i]).1)
            >= MIN_SECRET_LEN implies untouched_by(r, entries[i].1) by {
        let list = forms(entries[i].1);
        assert forall|k: int| 0 <= k < list.len() implies free_of(r, #[trigger] list[k]) by {
            if byte_len(list[k]) >= MIN_SECRET_LEN {
                assert(all_quiet(entries, forms(entries[i].1)[k]));
                no_secret_stands_in_the_result(text, entries, i, k);
            }
        }
    }
    clean_text_is_unchanged(r, entries);
}

/// A form in ASCII cuts no character, whatever the text.
proof fn lemma_ascii_uncut(text: Seq<char>, form: Seq<char>)
    requires
        is_ascii_chars(form),
    ensures
        uncut(text, form),
{
    let t = encode_utf8(text);
    let v = encode_utf8(form);
    let h = hidden(t, v);
    is_ascii_chars_encode_utf8(form);
    assert forall|k: int, b: int|
        0 <= k < text.len() && #[trigger] offset(text, k) <= b < offset(
            text,
            k + 1,
        ) implies #[trigger] h[b] == h[offset(text, k)] by {
        lemma_offset(text, k, k + 1);
        if h[b] {
            lemma_hidden_ascii(text, form, k, b);
        }
        if h[offset(text, k)] {
            lemma_hidden_ascii(text, form, k, offset(text, k));
        }
    }
}

/// A redacted byte of a form in ASCII is a character of its own.
proof fn lemma_hidden_ascii(text: Seq<char>, form: Seq<char>, k: int, b: int)
    requires
        is_ascii_chars(form),
        0 <= k < text.len(),
        offset(text, k) <= b < offset(text, k + 1),
        hidden(encode_utf8(text), encode_utf8(form))[b],
    ensures
        b == offset(text, k),
        offset(text, k + 1) == b + 1,
{
    let t = encode_utf8(text);
    let v = encode_utf8(form);
    is_ascii_chars_encode_utf8(form);
    lemma_offset(text, k, k + 1);
    let (i, j) = choose|i: int, j: int| #[trigger] covers(t, v, i, j, b);
    assert(t.subrange(i, i + PARTIAL_SEED)[b - i] == v.subrange(j, j + PARTIAL_SEED)[b - i]);
    let m = lemma_ascii_byte(text, b);
    if m < k {
        lemma_offset(text, m + 1, k);
    }
    if k < m {
        lemma_offset(text, k + 1, m);
    }
}

proof fn lemma_escaped_ascii(s: Seq<char>)
    requires
        is_ascii_chars(s),
    ensures
        is_ascii_chars(escaped(s)),
    decreases s.len(),
{
    if s.len() > 0 {
        let rest = s.drop_last();
        assert(is_ascii_chars(rest));
        lemma_escaped_ascii(rest);
        assert(s[s.len() - 1] == s.last());
        assert(is_ascii_chars(escape(s.last())));
        assert(is_ascii_chars(escaped(s)));
    }
}

proof fn lemma_forms_ascii(text: Seq<char>, list: Seq<Seq<char>>, mark: Seq<char>)
    requires
        forall|k: int| 0 <= k < list.len() ==> is_ascii_chars(#[trigger] list[k]),
    ensures
        forms_uncut(text, list, mark),
    decreases list.len(),
{
    if list.len() > 0 {
        let rest = list.drop_last();
        assert forall|k: int| 0 <= k < rest.len() implies is_ascii_chars(#[trigger] rest[k]) by {
            assert(rest[k] == list[k]);
        }
        lemma_forms_ascii(text, rest, mark);
        assert(list[list.len() - 1] == list.last());
        lemma_ascii_uncut(replaced(forms_scrubbed(text, rest, mark), list.last(), mark), list.last());
    }
}

/// Values in ASCII cut no character in two, whatever the text.
pub proof fn ascii_values_cut_nothing(text: Seq<char>, entries: Seq<(Seq<char>, Seq<char>)>)
    requires
        forall|i: int|
            0 <= i < entries.len() && byte_len((#[trigger] entries[i]).1) >= MIN_SECRET_LEN
                ==> is_ascii_chars(entries[i].1),
    ensures
        nothing_cut(text, entries),
    decreases entries.len(),
{
    if entries.len() > 0 {
        let rest = entries.drop_last();
        assert forall|i: int|
            0 <= i < rest.len() && byte_len((#[trigger] rest[i]).1)
                >= MIN_SECRET_LEN implies is_ascii_chars(rest[i].1) by {
            assert(rest[i] == entries[i]);
        }
        ascii_values_cut_nothing(text, rest);
        let e = entries[entries.len() - 1];
        if byte_len(e.1) >= MIN_SECRET_LEN {
            lemma_escaped_ascii(e.1);
            lemma_forms_ascii(scrubbed(text, rest), forms(e.1), marker(e.0));
        }
    }
}

/// Where a character is encoded by one byte, that byte stands in the encoding.
proof fn lemma_byte_of(text: Seq<char>, k: int)
    requires
        0 <= k < text.len(),
        (text[k] as u32) < 0x80,
    ensures
        0 <= offset(text, k) < encode_utf8(text).len(),
        encode_utf8(text)[offset(text, k)] == text[k] as u32,
{
    let x = offset(text, k);
    lemma_offset(text, k, k + 1);
    lemma_encode_one(text[k]);
    lemma_scalar_bytes(text[k] as u32);
    assert(text.subrange(k, k + 1) =~= seq![text[k]]);
    assert(encode_utf8(text).subrange(x, offset(text, k + 1))[0] == encode_utf8(text)[x]);
}

/// A marker that has no byte in common with the form is quiet about it.
pub proof fn a_marker_of_other_bytes_is_quiet(name: Seq<char>, form: Seq<char>)
    requires
        form.len() > 0,
        no_byte_shared(marker(name), form),
    ensures
        quiet(marker(name), form),
{
    let mark = marker(name);
    let t = encode_utf8(mark);
    let v = encode_utf8(form);
    let n = mark.len() - 1;
    lemma_marker_bracketed(name);
    lemma_byte_of(mark, 0);
    lemma_byte_of(mark, n);
    assert forall|k: int| 0 <= k < form.len() implies #[trigger] form[k] != '[' && form[k]
        != ']' by {
        if form[k] == '[' || form[k] == ']' {
            lemma_byte_of(form, k);
            assert(t[offset(mark, 0)] != v[offset(form, k)]);
            assert(t[offset(mark, n)] != v[offset(form, k)]);
        }
    }
    lemma_offset(form, 0, form.len() as int);
    assert(form.take(0) =~= Seq::<char>::empty());
    assert(form.take(form.len() as int) =~= form);
    if occurs(mark, form) {
        let p = choose|p: int| occurs_at(mark, form, p);
        lemma_offset(mark, p, p + form.len());
        assert(v[0] == t[offset(mark, p)]);
    }
    assert forall|i: int, j: int| !seed(t, v, i, j) by {
        if seed(t, v, i, j) {
            assert(t.subrange(i, i + PARTIAL_SEED)[0] == v.subrange(j, j + PARTIAL_SEED)[0]);
            assert(t[i] == v[j]);
        }
    }
}

/// Printable ASCII that JSON writes as it is.
pub open spec fn written_plainly(s: Seq<char>) -> bool {
    forall|i: int|
        0 <= i < s.len() ==> ' ' <= #[trigger] s[i] < '\u{80}' && s[i] != '"' && s[i] != '\\'
}

proof fn lemma_escaped_plain(s: Seq<char>)
    requires
        written_plainly(s),
    ensures
        escaped(s) == s,
    decreases s.len(),
{
    if s.len() == 0 {
        assert(escaped(s) =~= s);
    } else {
        let rest = s.drop_last();
        assert forall|i: int| 0 <= i < rest.len() implies ' ' <= #[trigger] rest[i] < '\u{80}'
            && rest[i] != '"' && rest[i] != '\\' by {
            assert(rest[i] == s[i]);
        }
        lemma_escaped_plain(rest);
        assert(s[s.len() - 1] == s.last());
        assert(escaped(s) =~= s);
    }
}

/// A text that is apart from a value does not hold it.
proof fn lemma_apart_absent(text: Seq<char>, value: Seq<char>)
    requires
        byte_len(value) >= PARTIAL_SEED,
        apart(text, value),
    ensures
        !occurs(text, value),
{
    if occurs(text, value) {
        let t = encode_utf8(text);
        let v = encode_utf8(value);
        let p = choose|p: int| occurs_at(text, value, p);
        lemma_offset(text, p, p + value.len());
        let x = offset(text, p);
        assert(t.subrange(x, x + PARTIAL_SEED) =~= v.subrange(0, PARTIAL_SEED as int));
        assert(seed(t, v, x, 0));
    }
}

/// One plain secret: no run of its bytes as long as a seed, and so not the value
/// itself, stands in the scrubbed text; scrubbing again changes nothing; and a text
/// without such a run comes back as it was. The marker must be quiet about the
/// value, which it is where the two have no byte in common.
pub proof fn one_plain_secret(text: Seq<char>, name: Seq<char>, value: Seq<char>)
    requires
        byte_len(value) >= PARTIAL_SEED,
        written_plainly(value),
        quiet(marker(name), value) || no_byte_shared(marker(name), value),
    ensures
        apart(scrubbed(text, seq![(name, value)]), value),
        !occurs(scrubbed(text, seq![(name, value)]), value),
        scrubbed(scrubbed(text, seq![(name, value)]), seq![(name, value)]) == scrubbed(
            text,
            seq![(name, value)],
        ),
        apart(text, value) ==> scrubbed(text, seq![(name, value)]) == text,
{
    let entries = seq![(name, value)];
    lemma_escaped_plain(value);
    assert(forms(value) == seq![value]);
    if value.len() == 0 {
        assert(byte_len(value) == 0);
    }
    if !quiet(marker(name), value) {
        a_marker_of_other_bytes_is_quiet(name, value);
    }
    assert(is_ascii_chars(value));
    assert(all_quiet(entries, value));
    ascii_values_cut_nothing(text, entries);
    no_secret_stands_in_the_result(text, entries, 0, 0);
    scrubbing_again_changes_nothing(text, entries);
    if apart(text, value) {
        lemma_apart_absent(text, value);
        clean_text_is_unchanged(text, entries);
    }
}

} // verus!
