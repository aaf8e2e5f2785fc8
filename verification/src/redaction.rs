//! What is left of a text after scrubbing.
//!
//! Scrubbing inserts markers, and a marker may itself spell out what a value
//! says. So the guarantee speaks of the characters that are still the text's
//! own: no run of them is a value, nor holds a fragment of one. What holds of the
//! whole text, markers included, stands in `secrecy`.
use crate::text::{byte_len, lemma_encode_concat, occurs, occurs_at, replaced, starts};
use crate::vault::{
    MIN_SECRET_LEN, PARTIAL_SEED, apart, entry_scrubbed, form_scrubbed, forms, forms_scrubbed,
    fragments_scrubbed, hidden, marker, no_fragment_survives, rebuilt, scrubbed, seed,
};
use vstd::prelude::*;
use vstd::utf8::*;

verus! {

/// The characters of a marked text.
pub open spec fn plain(l: Seq<(char, bool)>) -> Seq<char> {
    l.map_values(|c: (char, bool)| c.0)
}

/// A text all of whose characters are its own.
pub open spec fn own(text: Seq<char>) -> Seq<(char, bool)> {
    text.map_values(|c: char| (c, true))
}

/// A text none of whose characters belong to the text that is scrubbed.
pub open spec fn inserted(text: Seq<char>) -> Seq<(char, bool)> {
    text.map_values(|c: char| (c, false))
}

/// The characters from `a` up to `b` are the text's own.
pub open spec fn own_run(l: Seq<(char, bool)>, a: int, b: int) -> bool {
    &&& 0 <= a <= b <= l.len()
    &&& forall|k: int| a <= k < b ==> (#[trigger] l[k]).1
}

/// Whole occurrences give way to the marker.
pub open spec fn whole_marked(
    l: Seq<(char, bool)>,
    from: Seq<char>,
    to: Seq<char>,
) -> Seq<(char, bool)>
    decreases l.len(),
{
    if l.len() == 0 || from.len() == 0 {
        l
    } else if starts(plain(l), from) {
        inserted(to) + whole_marked(l.skip(from.len() as int), from, to)
    } else {
        seq![l[0]] + whole_marked(l.skip(1), from, to)
    }
}

/// Where the encoding of character `k` begins.
pub open spec fn offset(text: Seq<char>, k: int) -> int {
    byte_len(text.take(k)) as int
}

/// No redacted stretch cuts a character in two.
pub open spec fn uncut(text: Seq<char>, value: Seq<char>) -> bool {
    let h = hidden(encode_utf8(text), encode_utf8(value));
    forall|k: int, b: int|
        0 <= k < text.len() && #[trigger] offset(text, k) <= b < offset(text, k + 1)
            ==> #[trigger] h[b] == h[offset(text, k)]
}

/// The characters that are redacted.
pub open spec fn hidden_chars(text: Seq<char>, value: Seq<char>) -> Seq<bool> {
    Seq::new(
        text.len(),
        |k: int| hidden(encode_utf8(text), encode_utf8(value))[offset(text, k)],
    )
}

/// What the first `k` characters become.
pub open spec fn fragments_rebuilt(
    l: Seq<(char, bool)>,
    h: Seq<bool>,
    mark: Seq<char>,
    k: int,
) -> Seq<(char, bool)>
    decreases k,
{
    if k <= 0 {
        Seq::empty()
    } else if !h[k - 1] {
        fragments_rebuilt(l, h, mark, k - 1).push(l[k - 1])
    } else if k == 1 || !h[k - 2] {
        fragments_rebuilt(l, h, mark, k - 1) + inserted(mark)
    } else {
        fragments_rebuilt(l, h, mark, k - 1)
    }
}

/// Fragments give way to the marker. Where that cuts a character in two, none of
/// the result counts as the text's own.
pub open spec fn fragments_marked(
    l: Seq<(char, bool)>,
    value: Seq<char>,
    mark: Seq<char>,
) -> Seq<(char, bool)> {
    if uncut(plain(l), value) {
        fragments_rebuilt(l, hidden_chars(plain(l), value), mark, l.len() as int)
    } else {
        inserted(fragments_scrubbed(plain(l), value, mark))
    }
}

pub open spec fn form_marked(
    l: Seq<(char, bool)>,
    form: Seq<char>,
    mark: Seq<char>,
) -> Seq<(char, bool)> {
    if byte_len(form) < MIN_SECRET_LEN {
        l
    } else {
        let whole = whole_marked(l, form, mark);
        if byte_len(form) >= PARTIAL_SEED {
            fragments_marked(whole, form, mark)
        } else {
            whole
        }
    }
}

pub open spec fn forms_marked(
    l: Seq<(char, bool)>,
    list: Seq<Seq<char>>,
    mark: Seq<char>,
) -> Seq<(char, bool)>
    decreases list.len(),
{
    if list.len() == 0 {
        l
    } else {
        form_marked(forms_marked(l, list.drop_last(), mark), list.last(), mark)
    }
}

pub open spec fn entry_marked(l: Seq<(char, bool)>, entry: (Seq<char>, Seq<char>)) -> Seq<
    (char, bool),
> {
    if byte_len(entry.1) < MIN_SECRET_LEN {
        l
    } else {
        forms_marked(l, forms(entry.1), marker(entry.0))
    }
}

/// The scrubbed text, each character marked by whether it is the text's own.
pub open spec fn marked(text: Seq<char>, entries: Seq<(Seq<char>, Seq<char>)>) -> Seq<(char, bool)>
    decreases entries.len(),
{
    if entries.len() == 0 {
        own(text)
    } else {
        entry_marked(marked(text, entries.drop_last()), entries.last())
    }
}

/// No run of own characters is the form or, where the form is long enough for
/// fragments, holds a fragment of it.
#[verifier::opaque]
pub open spec fn clean(l: Seq<(char, bool)>, form: Seq<char>) -> bool {
    forall|a: int, b: int|
        #[trigger] own_run(l, a, b) ==> {
            let run = plain(l.subrange(a, b));
            &&& run != form
            &&& byte_len(form) >= PARTIAL_SEED ==> apart(run, form)
        }
}

/// Every run of own characters was such a run before.
#[verifier::opaque]
pub open spec fn narrower(l: Seq<(char, bool)>, m: Seq<(char, bool)>) -> bool {
    forall|a: int, b: int|
        #[trigger] own_run(m, a, b) ==> exists|p: int| was_run(l, p, m.subrange(a, b))
}

pub open spec fn was_run(l: Seq<(char, bool)>, p: int, run: Seq<(char, bool)>) -> bool {
    own_run(l, p, p + run.len()) && l.subrange(p, p + run.len()) == run
}

// ---------------------------------------------------------------------------
// Whole occurrences
// ---------------------------------------------------------------------------

proof fn lemma_plain_concat(a: Seq<(char, bool)>, b: Seq<(char, bool)>)
    ensures
        plain(a + b) == plain(a) + plain(b),
{
    assert(plain(a + b) =~= plain(a) + plain(b));
}

proof fn lemma_plain_inserted(s: Seq<char>)
    ensures
        plain(inserted(s)) == s,
        plain(own(s)) == s,
{
    assert(plain(inserted(s)) =~= s);
    assert(plain(own(s)) =~= s);
}

pub proof fn lemma_whole_plain(l: Seq<(char, bool)>, from: Seq<char>, to: Seq<char>)
    ensures
        plain(whole_marked(l, from, to)) == replaced(plain(l), from, to),
    decreases l.len(),
{
    if l.len() == 0 || from.len() == 0 {
    } else if starts(plain(l), from) {
        let rest = l.skip(from.len() as int);
        lemma_whole_plain(rest, from, to);
        lemma_plain_concat(inserted(to), whole_marked(rest, from, to));
        lemma_plain_inserted(to);
        assert(plain(rest) =~= plain(l).skip(from.len() as int));
    } else {
        let rest = l.skip(1);
        lemma_whole_plain(rest, from, to);
        lemma_plain_concat(seq![l[0]], whole_marked(rest, from, to));
        assert(plain(seq![l[0]]) =~= seq![plain(l)[0]]);
        assert(plain(rest) =~= plain(l).skip(1));
    }
}

/// Own characters at the very beginning stood there before.
proof fn lemma_whole_prefix(l: Seq<(char, bool)>, from: Seq<char>, to: Seq<char>, n: int)
    requires
        to.len() > 0,
        own_run(whole_marked(l, from, to), 0, n),
    ensures
        n <= l.len(),
        l.take(n) == whole_marked(l, from, to).take(n),
    decreases l.len(),
{
    let m = whole_marked(l, from, to);
    if l.len() == 0 || from.len() == 0 {
    } else if starts(plain(l), from) {
        if n > 0 {
            assert(m[0] == inserted(to)[0]);
        }
        assert(l.take(n) =~= m.take(n));
    } else {
        let rest = whole_marked(l.skip(1), from, to);
        if n > 0 {
            assert forall|k: int| 0 <= k < n - 1 implies (#[trigger] rest[k]).1 by {
                assert(rest[k] == m[k + 1]);
            }
            lemma_whole_prefix(l.skip(1), from, to, n - 1);
            assert forall|k: int| 0 <= k < n implies l.take(n)[k] == m.take(n)[k] by {
                if k > 0 {
                    assert(m[k] == rest[k - 1]);
                    assert(rest.take(n - 1)[k - 1] == l.skip(1).take(n - 1)[k - 1]);
                }
            }
        }
        assert(l.take(n) =~= m.take(n));
    }
}

proof fn lemma_whole(l: Seq<(char, bool)>, from: Seq<char>, to: Seq<char>, a: int, b: int)
    requires
        from.len() > 0,
        to.len() > 0,
        own_run(whole_marked(l, from, to), a, b),
    ensures
        plain(whole_marked(l, from, to).subrange(a, b)) != from,
        exists|p: int| was_run(l, p, whole_marked(l, from, to).subrange(a, b)),
    decreases l.len(),
{
    let m = whole_marked(l, from, to);
    let run = m.subrange(a, b);
    if a == b {
        assert(was_run(l, 0, run)) by {
            assert(l.subrange(0, 0) =~= run);
        }
        assert(plain(run).len() == 0);
    } else if l.len() == 0 {
    } else if starts(plain(l), from) {
        let n = from.len() as int;
        let rest = whole_marked(l.skip(n), from, to);
        let w = to.len() as int;
        if a < w {
            assert(m[a] == inserted(to)[a]);
        }
        assert(own_run(rest, a - w, b - w)) by {
            assert forall|k: int| a - w <= k < b - w implies (#[trigger] rest[k]).1 by {
                assert(rest[k] == m[k + w]);
            }
        }
        lemma_whole(l.skip(n), from, to, a - w, b - w);
        assert(rest.subrange(a - w, b - w) =~= run);
        let p = choose|p: int| was_run(l.skip(n), p, run);
        lemma_shift_run(l, n, p, run);
    } else {
        let rest = whole_marked(l.skip(1), from, to);
        if a > 0 {
            assert(own_run(rest, a - 1, b - 1)) by {
                assert forall|k: int| a - 1 <= k < b - 1 implies (#[trigger] rest[k]).1 by {
                    assert(rest[k] == m[k + 1]);
                }
            }
            lemma_whole(l.skip(1), from, to, a - 1, b - 1);
            assert(rest.subrange(a - 1, b - 1) =~= run);
            let p = choose|p: int| was_run(l.skip(1), p, run);
            lemma_shift_run(l, 1, p, run);
        } else {
            lemma_whole_prefix(l, from, to, b);
            assert(run =~= m.take(b));
            assert(l.subrange(0, b) =~= l.take(b));
            assert forall|k: int| 0 <= k < b implies (#[trigger] l[k]).1 by {
                assert(l.take(b)[k] == m.take(b)[k]);
                assert(m[k].1);
            }
            assert(was_run(l, 0, run));
            if plain(run) == from {
                assert(plain(l).subrange(0, from.len() as int) =~= plain(run));
            }
        }
    }
}

proof fn lemma_shift_run(l: Seq<(char, bool)>, n: int, p: int, run: Seq<(char, bool)>)
    requires
        0 <= n <= l.len(),
        was_run(l.skip(n), p, run),
    ensures
        was_run(l, n + p, run),
{
    let s = l.skip(n);
    assert(l.subrange(n + p, n + p + run.len()) =~= s.subrange(p, p + run.len()));
    assert forall|k: int| n + p <= k < n + p + run.len() implies (#[trigger] l[k]).1 by {
        assert(s[k - n].1);
    }
}

// ---------------------------------------------------------------------------
// Fragments
// ---------------------------------------------------------------------------

pub proof fn lemma_encode_one(c: char)
    ensures
        encode_utf8(seq![c]) == encode_scalar(c as u32),
        encode_utf8(seq![c]).len() >= 1,
{
    reveal_with_fuel(encode_utf8, 2);
    assert(seq![c].drop_first() =~= Seq::<char>::empty());
    assert(encode_utf8(seq![c]) =~= encode_scalar(c as u32));
}

/// The bytes of the characters from `p` up to `q`.
pub proof fn lemma_offset(text: Seq<char>, p: int, q: int)
    requires
        0 <= p <= q <= text.len(),
    ensures
        0 <= offset(text, p) <= offset(text, q) <= encode_utf8(text).len(),
        p < q ==> offset(text, p) < offset(text, q),
        encode_utf8(text.subrange(p, q)) == encode_utf8(text).subrange(
            offset(text, p),
            offset(text, q),
        ),
{
    let head = text.take(p);
    let mid = text.subrange(p, q);
    let tail = text.skip(q);
    lemma_encode_concat(head, mid);
    lemma_encode_concat(head + mid, tail);
    assert(head + mid =~= text.take(q));
    assert(text.take(q) + tail =~= text);
    assert(encode_utf8(mid) =~= encode_utf8(text).subrange(offset(text, p), offset(text, q)));
    if p < q {
        lemma_encode_concat(seq![mid[0]], mid.drop_first());
        assert(seq![mid[0]] + mid.drop_first() =~= mid);
        lemma_encode_one(mid[0]);
    }
}

/// How a run of bytes that are all visible, or all hidden, is rebuilt.
proof fn lemma_rebuilt_run(t: Seq<u8>, h: Seq<bool>, m: Seq<u8>, a: int, b: int)
    requires
        0 <= a < b <= t.len(),
        h.len() == t.len(),
        forall|k: int| a <= k < b ==> #[trigger] h[k] == h[a],
    ensures
        !h[a] ==> rebuilt(t, h, m, b) == rebuilt(t, h, m, a) + t.subrange(a, b),
        h[a] && (a == 0 || !h[a - 1]) ==> rebuilt(t, h, m, b) == rebuilt(t, h, m, a) + m,
        h[a] && a > 0 && h[a - 1] ==> rebuilt(t, h, m, b) == rebuilt(t, h, m, a),
    decreases b,
{
    assert(h[b - 1] == h[a]);
    if b - 1 > a {
        lemma_rebuilt_run(t, h, m, a, b - 1);
        assert(h[b - 2] == h[a]);
        assert(t.subrange(a, b) =~= t.subrange(a, b - 1).push(t[b - 1]));
        if !h[a] {
            assert(rebuilt(t, h, m, b) =~= rebuilt(t, h, m, a) + t.subrange(a, b));
        }
    } else {
        assert(t.subrange(a, b) =~= seq![t[a]]);
        if !h[a] {
            assert(rebuilt(t, h, m, b) =~= rebuilt(t, h, m, a) + t.subrange(a, b));
        }
    }
}

proof fn lemma_fragments_bytes(l: Seq<(char, bool)>, value: Seq<char>, mark: Seq<char>, k: int)
    requires
        uncut(plain(l), value),
        0 <= k <= l.len(),
    ensures
        ({
            let text = plain(l);
            let t = encode_utf8(text);
            let h = hidden(t, encode_utf8(value));
            encode_utf8(plain(fragments_rebuilt(l, hidden_chars(text, value), mark, k)))
                == rebuilt(t, h, encode_utf8(mark), offset(text, k))
        }),
    decreases k,
{
    let text = plain(l);
    let t = encode_utf8(text);
    let h = hidden(t, encode_utf8(value));
    let hc = hidden_chars(text, value);
    let mb = encode_utf8(mark);
    if k == 0 {
        assert(text.take(0) =~= Seq::<char>::empty());
        assert(plain(fragments_rebuilt(l, hc, mark, 0)) =~= Seq::<char>::empty());
    } else {
        lemma_fragments_bytes(l, value, mark, k - 1);
        let a = offset(text, k - 1);
        let b = offset(text, k);
        lemma_offset(text, k - 1, k);
        let before = fragments_rebuilt(l, hc, mark, k - 1);
        assert(text.subrange(k - 1, k) =~= seq![text[k - 1]]);
        assert forall|i: int| a <= i < b implies #[trigger] h[i] == h[a] by {
            assert(offset(text, k - 1) <= i < offset(text, k - 1 + 1));
        }
        lemma_rebuilt_run(t, h, mb, a, b);
        assert(hc[k - 1] == h[a]);
        if !hc[k - 1] {
            assert(before.push(l[k - 1]) =~= before + seq![l[k - 1]]);
            lemma_plain_concat(before, seq![l[k - 1]]);
            assert(plain(seq![l[k - 1]]) =~= seq![text[k - 1]]);
            lemma_encode_concat(plain(before), seq![text[k - 1]]);
        } else {
            if k > 1 {
                lemma_offset(text, k - 2, k - 1);
                lemma_offset(text, 0, k - 2);
                let c = offset(text, k - 2);
                assert(offset(text, k - 2) <= a - 1 < offset(text, k - 2 + 1));
                assert(h[a - 1] == h[c]);
                assert(hc[k - 2] == h[c]);
            } else {
                assert(text.take(0) =~= Seq::<char>::empty());
                assert(a == 0);
            }
            if k == 1 || !hc[k - 2] {
                lemma_plain_concat(before, inserted(mark));
                lemma_plain_inserted(mark);
                lemma_encode_concat(plain(before), mark);
            }
        }
    }
}

proof fn lemma_fragments_plain(l: Seq<(char, bool)>, value: Seq<char>, mark: Seq<char>)
    ensures
        plain(fragments_marked(l, value, mark)) == fragments_scrubbed(plain(l), value, mark),
{
    let text = plain(l);
    if uncut(text, value) {
        let r = plain(fragments_rebuilt(l, hidden_chars(text, value), mark, l.len() as int));
        lemma_fragments_bytes(l, value, mark, l.len() as int);
        assert(text.take(l.len() as int) =~= text);
        encode_utf8_valid_utf8(r);
        encode_utf8_decode_utf8(r);
    } else {
        lemma_plain_inserted(fragments_scrubbed(text, value, mark));
    }
}

/// Own characters at the very end of what the first `k` characters become are
/// the last visible ones of these.
proof fn lemma_rebuilt_suffix(l: Seq<(char, bool)>, h: Seq<bool>, mark: Seq<char>, k: int, n: int)
    requires
        0 <= k <= l.len(),
        h.len() == l.len(),
        mark.len() > 0,
        ({
            let m = fragments_rebuilt(l, h, mark, k);
            own_run(m, m.len() - n, m.len() as int)
        }),
    ensures
        0 <= n <= k,
        k > 0 && h[k - 1] ==> n == 0,
        ({
            let m = fragments_rebuilt(l, h, mark, k);
            l.subrange(k - n, k) == m.subrange(m.len() - n, m.len() as int)
        }),
        forall|i: int| k - n <= i < k ==> !(#[trigger] h[i]),
    decreases k,
{
    let m = fragments_rebuilt(l, h, mark, k);
    if k > 0 {
        let before = fragments_rebuilt(l, h, mark, k - 1);
        if !h[k - 1] {
            if n > 0 {
                assert(own_run(before, before.len() - (n - 1), before.len() as int)) by {
                    assert forall|i: int|
                        before.len() - (n - 1) <= i < before.len() implies (#[trigger] before[i]).1 by {
                        assert(before[i] == m[i]);
                    }
                }
                lemma_rebuilt_suffix(l, h, mark, k - 1, n - 1);
                assert(l.subrange(k - n, k) =~= l.subrange(k - 1 - (n - 1), k - 1).push(l[k - 1]));
                assert(m.subrange(m.len() - n, m.len() as int) =~= before.subrange(
                    before.len() - (n - 1),
                    before.len() as int,
                ).push(l[k - 1]));
            } else {
                assert(l.subrange(k, k) =~= m.subrange(m.len() as int, m.len() as int));
            }
        } else if k == 1 || !h[k - 2] {
            if n > 0 {
                assert(m[m.len() - 1] == inserted(mark)[mark.len() - 1]);
            }
            assert(l.subrange(k, k) =~= m.subrange(m.len() as int, m.len() as int));
        } else {
            lemma_rebuilt_suffix(l, h, mark, k - 1, n);
            assert(l.subrange(k, k) =~= m.subrange(m.len() as int, m.len() as int));
        }
    } else {
        assert(l.subrange(0, 0) =~= m.subrange(0, 0));
    }
}

/// A run of own characters in what the first `k` characters become is a run of
/// visible own characters of these.
proof fn lemma_rebuilt_runs(
    l: Seq<(char, bool)>,
    h: Seq<bool>,
    mark: Seq<char>,
    k: int,
    a: int,
    b: int,
) -> (p: int)
    requires
        0 <= k <= l.len(),
        h.len() == l.len(),
        mark.len() > 0,
        own_run(fragments_rebuilt(l, h, mark, k), a, b),
    ensures
        0 <= p && p + (b - a) <= k,
        l.subrange(p, p + (b - a)) == fragments_rebuilt(l, h, mark, k).subrange(a, b),
        forall|i: int| p <= i < p + (b - a) ==> !(#[trigger] h[i]),
    decreases k,
{
    let m = fragments_rebuilt(l, h, mark, k);
    if a == b {
        assert(l.subrange(0, 0) =~= m.subrange(a, b));
        0
    } else if b == m.len() {
        lemma_rebuilt_suffix(l, h, mark, k, b - a);
        k - (b - a)
    } else {
        let before = fragments_rebuilt(l, h, mark, k - 1);
        if b > before.len() {
            assert(m[b - 1] == inserted(mark)[b - 1 - before.len()]);
        }
        assert(own_run(before, a, b)) by {
            assert forall|i: int| a <= i < b implies (#[trigger] before[i]).1 by {
                assert(before[i] == m[i]);
            }
        }
        let p = lemma_rebuilt_runs(l, h, mark, k - 1, a, b);
        assert(before.subrange(a, b) =~= m.subrange(a, b));
        p
    }
}

proof fn lemma_fragments(
    l: Seq<(char, bool)>,
    value: Seq<char>,
    mark: Seq<char>,
    a: int,
    b: int,
)
    requires
        mark.len() > 0,
        own_run(fragments_marked(l, value, mark), a, b),
    ensures
        exists|p: int| was_run(l, p, fragments_marked(l, value, mark).subrange(a, b)),
        apart(plain(fragments_marked(l, value, mark).subrange(a, b)), value),
{
    let m = fragments_marked(l, value, mark);
    let run = m.subrange(a, b);
    let text = plain(l);
    if a == b {
        assert(l.subrange(0, 0) =~= run);
        assert(was_run(l, 0, run));
        assert(plain(run) =~= Seq::<char>::empty());
    } else if uncut(text, value) {
        let t = encode_utf8(text);
        let v = encode_utf8(value);
        let h = hidden(t, v);
        let hc = hidden_chars(text, value);
        let p = lemma_rebuilt_runs(l, hc, mark, l.len() as int, a, b);
        let q = p + (b - a);
        assert forall|k: int| p <= k < q implies (#[trigger] l[k]).1 by {
            assert(l.subrange(p, q)[k - p] == run[k - p]);
            assert(m[a + (k - p)].1);
        }
        assert(was_run(l, p, run));
        assert(plain(run) =~= text.subrange(p, q));
        lemma_offset(text, p, q);
        assert forall|i: int, j: int| !seed(encode_utf8(plain(run)), v, i, j) by {
            let r = encode_utf8(plain(run));
            if seed(r, v, i, j) {
                let c = offset(text, p) + i;
                assert(t.subrange(c, c + PARTIAL_SEED) =~= r.subrange(i, i + PARTIAL_SEED));
                assert forall|x: int| c <= x < c + PARTIAL_SEED implies !(#[trigger] h[x]) by {
                    let k = lemma_char_at(text, p, q, x);
                    assert(h[x] == h[offset(text, k)]);
                    assert(!hc[k]);
                }
                no_fragment_survives(t, v, c, j);
            }
        }
    } else {
        assert(m[a] == inserted(fragments_scrubbed(text, value, mark))[a]);
    }
}

/// The character to whose encoding a byte belongs.
pub proof fn lemma_char_at(text: Seq<char>, p: int, q: int, x: int) -> (k: int)
    requires
        0 <= p <= q <= text.len(),
        offset(text, p) <= x < offset(text, q),
    ensures
        p <= k < q,
        offset(text, k) <= x < offset(text, k + 1),
    decreases q - p,
{
    if x >= offset(text, q - 1) {
        q - 1
    } else {
        lemma_char_at(text, p, q - 1, x)
    }
}

// ---------------------------------------------------------------------------
// All secrets
// ---------------------------------------------------------------------------

proof fn lemma_narrower_clean(l: Seq<(char, bool)>, m: Seq<(char, bool)>, form: Seq<char>)
    requires
        narrower(l, m),
        clean(l, form),
    ensures
        clean(m, form),
{
    reveal(narrower);
    reveal(clean);
    assert forall|a: int, b: int| #[trigger] own_run(m, a, b) implies {
        let run = plain(m.subrange(a, b));
        &&& run != form
        &&& byte_len(form) >= PARTIAL_SEED ==> apart(run, form)
    } by {
        let p = choose|p: int| was_run(l, p, m.subrange(a, b));
        assert(own_run(l, p, p + m.subrange(a, b).len()));
    }
}

proof fn lemma_narrower_trans(
    l: Seq<(char, bool)>,
    m: Seq<(char, bool)>,
    n: Seq<(char, bool)>,
)
    requires
        narrower(l, m),
        narrower(m, n),
    ensures
        narrower(l, n),
{
    reveal(narrower);
    assert forall|a: int, b: int| #[trigger] own_run(n, a, b) implies exists|p: int|
        was_run(l, p, n.subrange(a, b)) by {
        let run = n.subrange(a, b);
        let p = choose|p: int| was_run(m, p, run);
        assert(own_run(m, p, p + run.len()));
        let same_run = m.subrange(p, p + run.len());
        let q = choose|q: int| was_run(l, q, same_run);
        assert(was_run(l, q, run));
    }
}

proof fn lemma_narrower_refl(l: Seq<(char, bool)>)
    ensures
        narrower(l, l),
{
    reveal(narrower);
    assert forall|a: int, b: int| #[trigger] own_run(l, a, b) implies exists|p: int|
        was_run(l, p, l.subrange(a, b)) by {
        assert(was_run(l, a, l.subrange(a, b)));
    }
}

proof fn lemma_form(l: Seq<(char, bool)>, form: Seq<char>, mark: Seq<char>)
    requires
        mark.len() > 0,
    ensures
        plain(form_marked(l, form, mark)) == form_scrubbed(plain(l), form, mark),
        narrower(l, form_marked(l, form, mark)),
        byte_len(form) >= MIN_SECRET_LEN ==> clean(form_marked(l, form, mark), form),
{
    lemma_narrower_refl(l);
    if byte_len(form) >= MIN_SECRET_LEN {
        assert(form.len() > 0);
        let whole = whole_marked(l, form, mark);
        lemma_whole_plain(l, form, mark);
        assert(narrower(l, whole)) by {
            reveal(narrower);
            assert forall|a: int, b: int| #[trigger] own_run(whole, a, b) implies exists|p: int|
                was_run(l, p, whole.subrange(a, b)) by {
                lemma_whole(l, form, mark, a, b);
            }
        }
        if byte_len(form) >= PARTIAL_SEED {
            let m = fragments_marked(whole, form, mark);
            lemma_fragments_plain(whole, form, mark);
            assert(narrower(whole, m)) by {
                reveal(narrower);
                assert forall|a: int, b: int| #[trigger] own_run(m, a, b) implies exists|p: int|
                    was_run(whole, p, m.subrange(a, b)) by {
                    lemma_fragments(whole, form, mark, a, b);
                }
            }
            lemma_narrower_trans(l, whole, m);
            reveal(clean);
            assert forall|a: int, b: int| #[trigger] own_run(m, a, b) implies {
                let run = plain(m.subrange(a, b));
                &&& run != form
                &&& byte_len(form) >= PARTIAL_SEED ==> apart(run, form)
            } by {
                lemma_fragments(whole, form, mark, a, b);
                assert(seed(encode_utf8(form), encode_utf8(form), 0, 0));
            }
        } else {
            reveal(clean);
            assert forall|a: int, b: int| #[trigger] own_run(whole, a, b) implies {
                let run = plain(whole.subrange(a, b));
                &&& run != form
                &&& byte_len(form) >= PARTIAL_SEED ==> apart(run, form)
            } by {
                lemma_whole(l, form, mark, a, b);
            }
        }
    }
}

pub proof fn lemma_forms(l: Seq<(char, bool)>, list: Seq<Seq<char>>, mark: Seq<char>)
    requires
        mark.len() > 0,
    ensures
        plain(forms_marked(l, list, mark)) == forms_scrubbed(plain(l), list, mark),
        narrower(l, forms_marked(l, list, mark)),
        forall|k: int|
            0 <= k < list.len() && byte_len(#[trigger] list[k]) >= MIN_SECRET_LEN ==> clean(
                forms_marked(l, list, mark),
                list[k],
            ),
    decreases list.len(),
{
    lemma_narrower_refl(l);
    if list.len() > 0 {
        let before = forms_marked(l, list.drop_last(), mark);
        let after = forms_marked(l, list, mark);
        lemma_forms(l, list.drop_last(), mark);
        lemma_form(before, list.last(), mark);
        lemma_narrower_trans(l, before, after);
        assert forall|k: int|
            0 <= k < list.len() && byte_len(#[trigger] list[k]) >= MIN_SECRET_LEN implies clean(
            after,
            list[k],
        ) by {
            if k < list.len() - 1 {
                assert(list.drop_last()[k] == list[k]);
                lemma_narrower_clean(before, after, list[k]);
            }
        }
    }
}

proof fn lemma_marker_nonempty(name: Seq<char>)
    ensures
        marker(name).len() > 0,
{
    reveal_strlit("[vault:");
}

proof fn lemma_entry(l: Seq<(char, bool)>, entry: (Seq<char>, Seq<char>))
    ensures
        plain(entry_marked(l, entry)) == entry_scrubbed(plain(l), entry),
        narrower(l, entry_marked(l, entry)),
        byte_len(entry.1) >= MIN_SECRET_LEN ==> forall|k: int|
            0 <= k < forms(entry.1).len() && byte_len(#[trigger] forms(entry.1)[k])
                >= MIN_SECRET_LEN ==> clean(entry_marked(l, entry), forms(entry.1)[k]),
{
    lemma_narrower_refl(l);
    lemma_marker_nonempty(entry.0);
    lemma_forms(l, forms(entry.1), marker(entry.0));
}

/// The marked text holds the characters of the scrubbed text.
pub proof fn marked_text_is_scrubbed_text(text: Seq<char>, entries: Seq<(Seq<char>, Seq<char>)>)
    ensures
        plain(marked(text, entries)) == scrubbed(text, entries),
    decreases entries.len(),
{
    lemma_plain_inserted(text);
    if entries.len() > 0 {
        marked_text_is_scrubbed_text(text, entries.drop_last());
        lemma_entry(marked(text, entries.drop_last()), entries.last());
    }
}

/// What is left of the text as its own is a part of the text.
pub proof fn own_runs_come_from_the_text(
    text: Seq<char>,
    entries: Seq<(Seq<char>, Seq<char>)>,
    a: int,
    b: int,
)
    requires
        own_run(marked(text, entries), a, b),
    ensures
        occurs(text, plain(marked(text, entries).subrange(a, b))),
{
    reveal(narrower);
    lemma_marked_narrower(text, entries);
    let run = marked(text, entries).subrange(a, b);
    let p = choose|p: int| was_run(own(text), p, run);
    assert(text.subrange(p, p + run.len()) =~= plain(run));
    assert(occurs_at(text, plain(run), p));
}

proof fn lemma_marked_narrower(text: Seq<char>, entries: Seq<(Seq<char>, Seq<char>)>)
    ensures
        narrower(own(text), marked(text, entries)),
    decreases entries.len(),
{
    lemma_narrower_refl(own(text));
    if entries.len() > 0 {
        let before = marked(text, entries.drop_last());
        lemma_marked_narrower(text, entries.drop_last());
        lemma_entry(before, entries.last());
        lemma_narrower_trans(own(text), before, marked(text, entries));
    }
}

/// No secret survives scrubbing: no run of characters that are still the text's
/// own is a value in one of its forms, nor holds a fragment of it. This goes for
/// every entry, whatever comes after it. From a step on at which a redacted stretch
/// cuts a character in two, no character counts as the text's own.
pub proof fn no_secret_survives(
    text: Seq<char>,
    entries: Seq<(Seq<char>, Seq<char>)>,
    i: int,
    k: int,
)
    requires
        0 <= i < entries.len(),
        byte_len(entries[i].1) >= MIN_SECRET_LEN,
        0 <= k < forms(entries[i].1).len(),
        byte_len(forms(entries[i].1)[k]) >= MIN_SECRET_LEN,
    ensures
        clean(marked(text, entries), forms(entries[i].1)[k]),
    decreases entries.len(),
{
    let before = marked(text, entries.drop_last());
    lemma_entry(before, entries.last());
    if i < entries.len() - 1 {
        assert(entries.drop_last()[i] == entries[i]);
        no_secret_survives(text, entries.drop_last(), i, k);
        lemma_narrower_clean(before, marked(text, entries), forms(entries[i].1)[k]);
    }
}

} // verus!
