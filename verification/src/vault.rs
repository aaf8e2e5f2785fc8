//! Named secrets that a conversation can use but never see.
//!
//! Values are kept apart from the conversation, which only ever learns the
//! names. A command refers to a secret by its name, and everything that comes
//! back is scrubbed: each value, whole or in fragments, gives way to a marker
//! that holds the name.
//!
//! Scrubbing catches values verbatim. It guards against accidental leaks, not
//! against a script that transforms a value before it prints it.
use crate::json::{Json, Value, escaped, quote};
use crate::paths::{is_same_path, join_path, path_joined, same_path};
use crate::text::{
    before, byte_len, cat3, chars_of, comes_before, is_ascii_digit, is_ascii_lowercase,
    is_ascii_uppercase, is_digit, is_lower, is_upper, lemma_before_total, lemma_before_transitive,
    lemma_replaced_absent, occurs, occurs_at, opt_str, replace, replaced, same, stands_at,
    string_of, texts, trim, trimmed,
};
use vstd::prelude::*;
use vstd::utf8::*;

verus! {

// ---------------------------------------------------------------------------
// References to a name
// ---------------------------------------------------------------------------

pub open spec fn identifier_char(c: char) -> bool {
    is_upper(c) || is_lower(c) || is_digit(c) || c == '_'
}

/// `name` stands in `command` at `i` as a whole identifier.
pub open spec fn token_at(command: Seq<char>, name: Seq<char>, i: int) -> bool {
    &&& occurs_at(command, name, i)
    &&& i == 0 || !identifier_char(command[i - 1])
    &&& i + name.len() == command.len() || !identifier_char(command[i + name.len() as int])
}

pub open spec fn references(command: Seq<char>, name: Seq<char>) -> bool {
    name.len() > 0 && exists|i: int| token_at(command, name, i)
}

fn is_identifier_char(c: char) -> (r: bool)
    ensures
        r == identifier_char(c),
{
    is_ascii_uppercase(c) || is_ascii_lowercase(c) || is_ascii_digit(c) || c == '_'
}

/// Whether `name` appears in `command` as a whole identifier, bounded by
/// anything but letters, digits and underscores, or by an end of the command.
pub fn references_token(command: &str, name: &str) -> (r: bool)
    ensures
        r == references(command@, name@),
{
    let h = chars_of(command);
    let n = chars_of(name);
    if n.len() == 0 {
        return false;
    }
    let mut i: usize = 0;
    while i < h.len()
        invariant
            i <= h.len(),
            h@ == command@,
            n@ == name@,
            n@.len() > 0,
            forall|k: int| 0 <= k < i ==> !token_at(h@, n@, k),
        decreases h.len() - i,
    {
        if stands_at(&h, &n, i) {
            let e: usize = i + n.len();
            let left = i == 0 || !is_identifier_char(h[i - 1]);
            let right = e == h.len() || !is_identifier_char(h[e]);
            if left && right {
                assert(token_at(command@, name@, i as int));
                return true;
            }
        }
        i += 1;
    }
    false
}

// ---------------------------------------------------------------------------
// Where the values are kept
// ---------------------------------------------------------------------------

/// The file that holds the values, below the home directory, or below the
/// current one where no home directory is known.
pub open spec fn vault_file(home: Option<Seq<char>>) -> Seq<char> {
    let base = match home {
        Some(h) => h,
        None => "."@,
    };
    path_joined(path_joined(base, ".snippet"@), "vault.json"@)
}

pub fn vault_path(home: Option<&str>) -> (r: String)
    ensures
        r@ == vault_file(
            match home {
                Some(h) => Some(h@),
                None => None,
            },
        ),
{
    let dir = match home {
        Some(h) => join_path(h, ".snippet"),
        None => join_path(".", ".snippet"),
    };
    join_path(dir.as_str(), "vault.json")
}

/// Whether `path` is the file that holds the values: off limits to tools. Both
/// paths are given resolved, as far as they exist.
pub fn is_protected_path(path: &str, vault: &str) -> (r: bool)
    ensures
        r == same_path(path@, vault@),
{
    is_same_path(path, vault)
}

// ---------------------------------------------------------------------------
// Fragments of a value
// ---------------------------------------------------------------------------

/// Values with fewer bytes are neither scrubbed nor accepted: they would shred
/// ordinary text.
pub const MIN_SECRET_LEN: usize = 4;

/// Fragments with fewer bytes are indistinguishable from ordinary text.
pub const PARTIAL_SEED: usize = 8;

/// The seed: as many equal bytes in the text at `i` and in the value at `j`.
pub open spec fn seed(t: Seq<u8>, v: Seq<u8>, i: int, j: int) -> bool {
    &&& 0 <= i <= t.len() - PARTIAL_SEED
    &&& 0 <= j <= v.len() - PARTIAL_SEED
    &&& t.subrange(i, i + PARTIAL_SEED) == v.subrange(j, j + PARTIAL_SEED)
}

/// Position `p` lies in the seed at `i`, which the value holds at `j`.
pub open spec fn covers(t: Seq<u8>, v: Seq<u8>, i: int, j: int, p: int) -> bool {
    seed(t, v, i, j) && i <= p < i + PARTIAL_SEED
}

/// Which bytes of the text are redacted for the value: all that lie in a stretch,
/// at least as long as a seed, which the value holds too.
pub open spec fn hidden(t: Seq<u8>, v: Seq<u8>) -> Seq<bool> {
    Seq::new(t.len(), |p: int| exists|i: int, j: int| #[trigger] covers(t, v, i, j, p))
}

/// What the first `k` bytes become: each run of hidden bytes collapses to one
/// marker.
pub open spec fn rebuilt(t: Seq<u8>, h: Seq<bool>, marker: Seq<u8>, k: int) -> Seq<u8>
    decreases k,
{
    if k <= 0 {
        Seq::empty()
    } else if !h[k - 1] {
        rebuilt(t, h, marker, k - 1).push(t[k - 1])
    } else if k == 1 || !h[k - 2] {
        rebuilt(t, h, marker, k - 1) + marker
    } else {
        rebuilt(t, h, marker, k - 1)
    }
}

/// What `String::from_utf8_lossy` makes of bytes that are not valid UTF-8.
pub uninterp spec fn lossy(bytes: Seq<u8>) -> Seq<char>;

/// The text that bytes stand for.
pub open spec fn read_lossily(bytes: Seq<u8>) -> Seq<char> {
    if valid_utf8(bytes) {
        decode_utf8(bytes)
    } else {
        lossy(bytes)
    }
}

/// `String::from_utf8_lossy`: the text that the bytes encode where they are valid
/// UTF-8. Of other bytes only that the same bytes give the same text is claimed.
#[verifier::external_body]
pub(crate) fn from_utf8_lossy(bytes: &Vec<u8>) -> (r: String)
    ensures
        valid_utf8(bytes@) ==> r@ == decode_utf8(bytes@),
        !valid_utf8(bytes@) ==> r@ == lossy(bytes@),
{
    String::from_utf8_lossy(bytes).into_owned()
}

/// The text with every fragment of the value redacted.
pub open spec fn fragments_scrubbed(
    text: Seq<char>,
    value: Seq<char>,
    marker: Seq<char>,
) -> Seq<char> {
    let t = encode_utf8(text);
    read_lossily(rebuilt(t, hidden(t, encode_utf8(value)), encode_utf8(marker), t.len() as int))
}

/// Whether the seed at `i` and `j` holds.
fn is_seed(t: &[u8], v: &[u8], i: usize, j: usize) -> (r: bool)
    requires
        i + PARTIAL_SEED <= t.len(),
        j + PARTIAL_SEED <= v.len(),
    ensures
        r == seed(t@, v@, i as int, j as int),
{
    for k in 0..PARTIAL_SEED
        invariant
            i + PARTIAL_SEED <= t.len(),
            j + PARTIAL_SEED <= v.len(),
            forall|m: int|
                0 <= m < k ==> (#[trigger] t@.subrange(i as int, i + PARTIAL_SEED)[m])
                    == v@.subrange(j as int, j + PARTIAL_SEED)[m],
    {
        if t[i + k] != v[j + k] {
            assert(t@.subrange(i as int, i + PARTIAL_SEED)[k as int] != v@.subrange(
                j as int,
                j + PARTIAL_SEED,
            )[k as int]);
            return false;
        }
    }
    assert(t@.subrange(i as int, i + PARTIAL_SEED) =~= v@.subrange(j as int, j + PARTIAL_SEED));
    true
}

/// Whether the value holds the seed at `i` anywhere.
fn has_seed(t: &[u8], v: &[u8], i: usize) -> (r: bool)
    requires
        i + PARTIAL_SEED <= t.len(),
        PARTIAL_SEED <= v.len(),
    ensures
        r == exists|j: int| seed(t@, v@, i as int, j),
{
    let count: usize = v.len() - PARTIAL_SEED + 1;
    for j in 0..count
        invariant
            i + PARTIAL_SEED <= t.len(),
            count == v.len() - PARTIAL_SEED + 1,
            PARTIAL_SEED <= v.len(),
            forall|k: int| 0 <= k < j ==> !seed(t@, v@, i as int, k),
    {
        if is_seed(t, v, i, j) {
            return true;
        }
    }
    false
}

/// The bytes to redact.
fn hidden_bytes(t: &[u8], v: &[u8]) -> (r: Vec<bool>)
    requires
        t.len() < PARTIAL_SEED || v.len() >= PARTIAL_SEED,
    ensures
        r@ == hidden(t@, v@),
{
    let n = t.len();
    let mut flags: Vec<bool> = Vec::new();
    for k in 0..n
        invariant
            flags@.len() == k,
            forall|p: int| 0 <= p < k ==> !(#[trigger] flags@[p]),
    {
        flags.push(false);
    }
    let mut i: usize = 0;
    while n - i >= PARTIAL_SEED
        invariant
            n == t.len(),
            i <= n,
            t.len() < PARTIAL_SEED || v.len() >= PARTIAL_SEED,
            flags@.len() == n,
            forall|p: int|
                0 <= p < n ==> (#[trigger] flags@[p]) == exists|a: int, b: int|
                    a < i && #[trigger] covers(t@, v@, a, b, p),
        decreases n - i,
    {
        let ghost before = flags@;
        if has_seed(t, v, i) {
            for k in i..i + PARTIAL_SEED
                invariant
                    i + PARTIAL_SEED <= n,
                    flags@.len() == n,
                    before.len() == n,
                    forall|p: int|
                        0 <= p < n ==> (#[trigger] flags@[p]) == (before[p] || i <= p < k),
            {
                flags.set(k, true);
            }
        }
        proof {
            let found = exists|j: int| seed(t@, v@, i as int, j);
            assert forall|p: int| 0 <= p < n implies (#[trigger] flags@[p]) == exists|
                a: int,
                b: int,
            | a < i + 1 && #[trigger] covers(t@, v@, a, b, p) by {
                if before[p] {
                    let (a, b) = choose|a: int, b: int| a < i && #[trigger] covers(t@, v@, a, b, p);
                    assert(covers(t@, v@, a, b, p));
                }
                if found && i <= p < i + PARTIAL_SEED {
                    let b = choose|b: int| seed(t@, v@, i as int, b);
                    assert(covers(t@, v@, i as int, b, p));
                }
            }
        }
        i += 1;
    }
    assert(flags@ =~= hidden(t@, v@)) by {
        assert forall|p: int| 0 <= p < n implies flags@[p] == hidden(t@, v@)[p] by {
            if hidden(t@, v@)[p] {
                let (a, b) = choose|a: int, b: int| #[trigger] covers(t@, v@, a, b, p);
                assert(a < i && covers(t@, v@, a, b, p));
            }
        }
    }
    flags
}

/// Redacts every stretch of `text` that stands in `value` and is as long as a seed
/// or longer; what is redacted without a gap becomes one marker.
pub fn scrub_partials(text: &str, value: &str, marker: &str) -> (r: String)
    requires
        byte_len(text@) < PARTIAL_SEED || byte_len(value@) >= PARTIAL_SEED,
    ensures
        r@ == fragments_scrubbed(text@, value@, marker@),
{
    let t = text.as_bytes();
    let v = value.as_bytes();
    let m = marker.as_bytes();
    let redact = hidden_bytes(t, v);
    let mut out: Vec<u8> = Vec::new();
    for k in 0..t.len()
        invariant
            redact@.len() == t@.len(),
            out@ == rebuilt(t@, redact@, m@, k as int),
    {
        if !redact[k] {
            out.push(t[k]);
        } else if k == 0 || !redact[k - 1] {
            out.extend_from_slice(m);
        }
    }
    from_utf8_lossy(&out)
}

// ---------------------------------------------------------------------------
// The vault
// ---------------------------------------------------------------------------

/// Named values, in ascending order of the names.
pub struct Vault {
    secrets: Vec<(String, String)>,
}

pub open spec fn pair_texts(list: Seq<(String, String)>) -> Seq<(Seq<char>, Seq<char>)> {
    list.map_values(|p: (String, String)| (p.0@, p.1@))
}

/// Each name comes before the names after it.
pub open spec fn ascending(entries: Seq<(Seq<char>, Seq<char>)>) -> bool {
    forall|i: int, j: int|
        0 <= i < j < entries.len() ==> before(#[trigger] entries[i].0, #[trigger] entries[j].0)
}

pub open spec fn has_name(entries: Seq<(Seq<char>, Seq<char>)>, name: Seq<char>) -> bool {
    exists|i: int| 0 <= i < entries.len() && (#[trigger] entries[i]).0 == name
}

/// The mapping from names to values that a list of entries stands for.
pub open spec fn mapping(entries: Seq<(Seq<char>, Seq<char>)>) -> Map<Seq<char>, Seq<char>> {
    Map::new(
        |name: Seq<char>| has_name(entries, name),
        |name: Seq<char>|
            {
                let i = choose|i: int| 0 <= i < entries.len() && (#[trigger] entries[i]).0 == name;
                entries[i].1
            },
    )
}

/// A name fit for an environment variable, in upper case.
pub open spec fn name_ok(name: Seq<char>) -> bool {
    &&& name.len() > 0
    &&& is_upper(name[0]) || name[0] == '_'
    &&& forall|i: int|
        0 <= i < name.len() ==> {
            let c = #[trigger] name[i];
            is_upper(c) || is_digit(c) || c == '_'
        }
}

pub open spec fn bad_name_message(name: Seq<char>) -> Seq<char> {
    "invalid name `"@ + name
        + "` — use an env-var style name (A-Z, 0-9, _; e.g. STRIPE_KEY)"@
}

pub open spec fn short_value_message() -> Seq<char> {
    "value too short (min 4 chars)"@
}

impl Vault {
    /// The entries in ascending order of their names.
    pub closed spec fn entries(&self) -> Seq<(Seq<char>, Seq<char>)> {
        pair_texts(self.secrets@)
    }

    #[verifier::type_invariant]
    spec fn ordered(self) -> bool {
        ascending(pair_texts(self.secrets@))
    }
}

impl View for Vault {
    type V = Map<Seq<char>, Seq<char>>;

    open spec fn view(&self) -> Map<Seq<char>, Seq<char>> {
        mapping(self.entries())
    }
}

/// In an ascending list a name leads to the value beside it.
pub proof fn lemma_mapping_entry(entries: Seq<(Seq<char>, Seq<char>)>, i: int)
    requires
        ascending(entries),
        0 <= i < entries.len(),
    ensures
        mapping(entries).dom().contains(entries[i].0),
        mapping(entries)[entries[i].0] == entries[i].1,
{
    let name = entries[i].0;
    assert(has_name(entries, name));
    let j = choose|j: int| 0 <= j < entries.len() && (#[trigger] entries[j]).0 == name;
    lemma_before_total(name, name);
    if i < j {
        assert(before(entries[i].0, entries[j].0));
    } else if j < i {
        assert(before(entries[j].0, entries[i].0));
    }
}

impl Vault {
    /// An empty vault.
    pub fn new() -> (r: Vault)
        ensures
            r@ == Map::<Seq<char>, Seq<char>>::empty(),
            r.entries().len() == 0,
    {
        let secrets: Vec<(String, String)> = Vec::new();
        assert(pair_texts(secrets@) =~= Seq::empty());
        let r = Vault { secrets };
        assert(r@ =~= Map::<Seq<char>, Seq<char>>::empty());
        r
    }

    pub fn is_empty(&self) -> (r: bool)
        ensures
            r == (self.entries().len() == 0),
            r == (self@ == Map::<Seq<char>, Seq<char>>::empty()),
    {
        proof {
            use_type_invariant(&*self);
            if self.secrets@.len() == 0 {
                assert(self@ =~= Map::<Seq<char>, Seq<char>>::empty());
            } else {
                lemma_mapping_entry(self.entries(), 0);
            }
        }
        self.secrets.len() == 0
    }

    /// The names, in ascending order.
    pub fn names(&self) -> (r: Vec<String>)
        ensures
            texts(r@) == self.entries().map_values(|e: (Seq<char>, Seq<char>)| e.0),
            forall|i: int, j: int| 0 <= i < j < r@.len() ==> before(#[trigger] r@[i]@, #[trigger] r@[j]@),
            forall|name: Seq<char>| self@.dom().contains(name) <==> texts(r@).contains(name),
    {
        let mut out: Vec<String> = Vec::new();
        for i in 0..self.secrets.len()
            invariant
                out@.len() == i,
                forall|k: int| 0 <= k < i ==> (#[trigger] out@[k])@ == self.secrets@[k].0@,
        {
            out.push(self.secrets[i].0.clone());
        }
        proof {
            use_type_invariant(&*self);
            let e = self.entries();
            assert(texts(out@) =~= e.map_values(|e: (Seq<char>, Seq<char>)| e.0));
            assert forall|i: int, j: int| 0 <= i < j < out@.len() implies before(
                #[trigger] out@[i]@,
                #[trigger] out@[j]@,
            ) by {
                assert(before(e[i].0, e[j].0));
            }
            assert forall|name: Seq<char>| self@.dom().contains(name) <==> texts(out@).contains(
                name,
            ) by {
                if self@.dom().contains(name) {
                    let i = choose|i: int| 0 <= i < e.len() && (#[trigger] e[i]).0 == name;
                    assert(texts(out@)[i] == name);
                }
                if texts(out@).contains(name) {
                    let i = choose|i: int| 0 <= i < texts(out@).len() && texts(out@)[i] == name;
                    assert(e[i].0 == name);
                }
            }
        }
        out
    }

    /// A secret's name is a name for an environment variable, in upper case.
    pub fn valid_name(name: &str) -> (r: bool)
        ensures
            r == name_ok(name@),
    {
        let v = chars_of(name);
        if v.len() == 0 {
            return false;
        }
        if !(is_ascii_uppercase(v[0]) || v[0] == '_') {
            return false;
        }
        for i in 0..v.len()
            invariant
                v@ == name@,
                forall|k: int|
                    0 <= k < i ==> {
                        let c = #[trigger] v@[k];
                        is_upper(c) || is_digit(c) || c == '_'
                    },
        {
            let c = v[i];
            if !(is_ascii_uppercase(c) || is_ascii_digit(c) || c == '_') {
                assert(name@[i as int] == c);
                return false;
            }
        }
        true
    }

    /// How many names come before the given one.
    fn position(&self, name: &str) -> (r: usize)
        ensures
            r <= self.secrets@.len(),
            forall|i: int| 0 <= i < r ==> before(#[trigger] self.secrets@[i].0@, name@),
            forall|i: int|
                r <= i < self.secrets@.len() ==> !before(#[trigger] self.secrets@[i].0@, name@),
    {
        let mut k: usize = 0;
        while k < self.secrets.len() && comes_before(self.secrets[k].0.as_str(), name)
            invariant
                k <= self.secrets@.len(),
                forall|i: int| 0 <= i < k ==> before(#[trigger] self.secrets@[i].0@, name@),
            decreases self.secrets@.len() - k,
        {
            k += 1;
        }
        proof {
            use_type_invariant(&*self);
            let e = pair_texts(self.secrets@);
            assert forall|i: int| k <= i < self.secrets@.len() implies !before(
                #[trigger] self.secrets@[i].0@,
                name@,
            ) by {
                if k < i && before(self.secrets@[i].0@, name@) {
                    assert(before(e[k as int].0, e[i].0));
                    lemma_before_transitive(e[k as int].0, e[i].0, name@);
                }
            }
        }
        k
    }
}

/// The mapping of an ascending list, by the entries it holds.
proof fn lemma_mapping_is(entries: Seq<(Seq<char>, Seq<char>)>, m: Map<Seq<char>, Seq<char>>)
    requires
        ascending(entries),
        forall|i: int|
            0 <= i < entries.len() ==> m.dom().contains((#[trigger] entries[i]).0)
                && m[entries[i].0] == entries[i].1,
        forall|name: Seq<char>| m.dom().contains(name) ==> has_name(entries, name),
    ensures
        mapping(entries) == m,
{
    assert forall|name: Seq<char>| mapping(entries).dom().contains(name) implies m.dom().contains(
        name,
    ) && mapping(entries)[name] == m[name] by {
        let i = choose|i: int| 0 <= i < entries.len() && (#[trigger] entries[i]).0 == name;
        lemma_mapping_entry(entries, i);
    }
    assert(mapping(entries) =~= m);
}

/// The place of a name among ascending entries: those in front come before it.
spec fn place(entries: Seq<(Seq<char>, Seq<char>)>, name: Seq<char>, p: int) -> bool {
    &&& ascending(entries)
    &&& 0 <= p <= entries.len()
    &&& forall|i: int| 0 <= i < p ==> before((#[trigger] entries[i]).0, name)
    &&& forall|i: int| p <= i < entries.len() ==> !before((#[trigger] entries[i]).0, name)
}

proof fn lemma_after_place(entries: Seq<(Seq<char>, Seq<char>)>, name: Seq<char>, p: int, i: int)
    requires
        place(entries, name, p),
        p <= i < entries.len(),
        i > p || entries[p].0 != name,
    ensures
        before(name, entries[i].0),
{
    lemma_before_total(entries[i].0, name);
    if i > p && entries[i].0 == name {
        assert(before(entries[p].0, entries[i].0));
    }
}

proof fn lemma_insert(
    entries: Seq<(Seq<char>, Seq<char>)>,
    p: int,
    name: Seq<char>,
    value: Seq<char>,
)
    requires
        place(entries, name, p),
        p == entries.len() || entries[p].0 != name,
    ensures
        ascending(entries.insert(p, (name, value))),
        mapping(entries.insert(p, (name, value))) == mapping(entries).insert(name, value),
{
    let new = entries.insert(p, (name, value));
    let m = mapping(entries).insert(name, value);
    assert forall|i: int, j: int| 0 <= i < j < new.len() implies before(
        #[trigger] new[i].0,
        #[trigger] new[j].0,
    ) by {
        if j == p {
            assert(new[i] == entries[i]);
        } else if i == p {
            assert(new[j] == entries[j - 1]);
            lemma_after_place(entries, name, p, j - 1);
        } else {
            let a = if i < p {
                i
            } else {
                i - 1
            };
            let b = if j < p {
                j
            } else {
                j - 1
            };
            assert(new[i] == entries[a] && new[j] == entries[b]);
            assert(before(entries[a].0, entries[b].0));
        }
    }
    assert forall|i: int| 0 <= i < new.len() implies m.dom().contains((#[trigger] new[i]).0)
        && m[new[i].0] == new[i].1 by {
        if i != p {
            let a = if i < p {
                i
            } else {
                i - 1
            };
            assert(new[i] == entries[a]);
            lemma_mapping_entry(entries, a);
            lemma_before_total(name, name);
            if i > p {
                lemma_after_place(entries, name, p, a);
            }
        }
    }
    assert forall|n: Seq<char>| m.dom().contains(n) implies has_name(new, n) by {
        if n == name {
            assert(new[p].0 == n);
        } else {
            let a = choose|a: int| 0 <= a < entries.len() && (#[trigger] entries[a]).0 == n;
            let i = if a < p {
                a
            } else {
                a + 1
            };
            assert(new[i] == entries[a]);
        }
    }
    lemma_mapping_is(new, m);
}

proof fn lemma_update(
    entries: Seq<(Seq<char>, Seq<char>)>,
    p: int,
    value: Seq<char>,
)
    requires
        ascending(entries),
        0 <= p < entries.len(),
    ensures
        ascending(entries.update(p, (entries[p].0, value))),
        mapping(entries.update(p, (entries[p].0, value))) == mapping(entries).insert(
            entries[p].0,
            value,
        ),
{
    let name = entries[p].0;
    let new = entries.update(p, (name, value));
    let m = mapping(entries).insert(name, value);
    assert forall|i: int, j: int| 0 <= i < j < new.len() implies before(
        #[trigger] new[i].0,
        #[trigger] new[j].0,
    ) by {
        assert(before(entries[i].0, entries[j].0));
    }
    assert forall|i: int| 0 <= i < new.len() implies m.dom().contains((#[trigger] new[i]).0)
        && m[new[i].0] == new[i].1 by {
        lemma_mapping_entry(entries, i);
        lemma_before_total(name, name);
        if i < p {
            assert(before(entries[i].0, entries[p].0));
        } else if i > p {
            assert(before(entries[p].0, entries[i].0));
        }
    }
    assert forall|n: Seq<char>| m.dom().contains(n) implies has_name(new, n) by {
        if n == name {
            assert(new[p].0 == n);
        } else {
            let a = choose|a: int| 0 <= a < entries.len() && (#[trigger] entries[a]).0 == n;
            assert(new[a].0 == entries[a].0);
        }
    }
    lemma_mapping_is(new, m);
}

proof fn lemma_remove(entries: Seq<(Seq<char>, Seq<char>)>, p: int)
    requires
        ascending(entries),
        0 <= p < entries.len(),
    ensures
        ascending(entries.remove(p)),
        mapping(entries.remove(p)) == mapping(entries).remove(entries[p].0),
{
    let name = entries[p].0;
    let new = entries.remove(p);
    let m = mapping(entries).remove(name);
    assert forall|i: int, j: int| 0 <= i < j < new.len() implies before(
        #[trigger] new[i].0,
        #[trigger] new[j].0,
    ) by {
        let a = if i < p {
            i
        } else {
            i + 1
        };
        let b = if j < p {
            j
        } else {
            j + 1
        };
        assert(new[i] == entries[a] && new[j] == entries[b]);
        assert(before(entries[a].0, entries[b].0));
    }
    assert forall|i: int| 0 <= i < new.len() implies m.dom().contains((#[trigger] new[i]).0)
        && m[new[i].0] == new[i].1 by {
        let a = if i < p {
            i
        } else {
            i + 1
        };
        assert(new[i] == entries[a]);
        lemma_mapping_entry(entries, a);
        lemma_before_total(name, name);
        if a < p {
            assert(before(entries[a].0, entries[p].0));
        } else {
            assert(before(entries[p].0, entries[a].0));
        }
    }
    assert forall|n: Seq<char>| m.dom().contains(n) implies has_name(new, n) by {
        let a = choose|a: int| 0 <= a < entries.len() && (#[trigger] entries[a]).0 == n;
        let i = if a < p {
            a
        } else {
            a - 1
        };
        assert(a != p);
        assert(new[i] == entries[a]);
    }
    lemma_mapping_is(new, m);
}

/// The pairs before `p` and those from `q` on.
pub fn without(list: &Vec<(String, String)>, p: usize, q: usize) -> (r: (
    Vec<(String, String)>,
    Vec<(String, String)>,
))
    requires
        p <= q <= list.len(),
    ensures
        pair_texts(r.0@) == pair_texts(list@).take(p as int),
        pair_texts(r.1@) == pair_texts(list@).skip(q as int),
{
    let mut head: Vec<(String, String)> = Vec::new();
    for i in 0..p
        invariant
            p <= list.len(),
            pair_texts(head@) == pair_texts(list@).take(i as int),
    {
        let ghost before = pair_texts(head@);
        head.push((list[i].0.clone(), list[i].1.clone()));
        assert(pair_texts(head@) =~= before.push(pair_texts(list@)[i as int]));
    }
    let mut tail: Vec<(String, String)> = Vec::new();
    for i in q..list.len()
        invariant
            q <= i <= list.len(),
            pair_texts(tail@) == pair_texts(list@).subrange(q as int, i as int),
    {
        let ghost before = pair_texts(tail@);
        tail.push((list[i].0.clone(), list[i].1.clone()));
        assert(pair_texts(tail@) =~= before.push(pair_texts(list@)[i as int]));
    }
    (head, tail)
}

impl Vault {
    /// Keeps `value` under `name`, in place of what was kept there before.
    fn put(&mut self, name: &str, value: String)
        ensures
            final(self)@ == old(self)@.insert(name@, value@),
    {
        let p = self.position(name);
        let ghost e = pair_texts(self.secrets@);
        let ghost item = (name@, value@);
        proof {
            use_type_invariant(&*self);
            assert forall|i: int| 0 <= i < p implies before((#[trigger] e[i]).0, name@) by {
                assert(before(self.secrets@[i].0@, name@));
            }
            assert forall|i: int| p <= i < e.len() implies !before((#[trigger] e[i]).0, name@) by {
                assert(!before(self.secrets@[i].0@, name@));
            }
        }
        let found = p < self.secrets.len() && same(self.secrets[p].0.as_str(), name);
        let q: usize = if found {
            p + 1
        } else {
            p
        };
        let (mut list, mut tail) = without(&self.secrets, p, q);
        let ghost head = pair_texts(list@);
        let ghost rest = pair_texts(tail@);
        list.push((name.to_owned(), value));
        list.append(&mut tail);
        proof {
            assert(pair_texts(list@) =~= head.push(item) + rest);
            if found {
                lemma_update(e, p as int, item.1);
                assert(head.push(item) + rest =~= e.update(p as int, item));
            } else {
                lemma_insert(e, p as int, item.0, item.1);
                assert(head.push(item) + rest =~= e.insert(p as int, item));
            }
        }
        self.secrets = list;
    }

    /// Keeps the value, without the white space around it, under the name. The
    /// name must be fit for an environment variable, and the value must not be
    /// too short.
    pub fn set(&mut self, name: &str, value: &str) -> (r: Result<(), String>)
        ensures
            r is Ok <==> name_ok(name@) && byte_len(trimmed(value@)) >= MIN_SECRET_LEN,
            r is Ok ==> final(self)@ == old(self)@.insert(name@, trimmed(value@)),
            r is Err ==> *final(self) == *old(self),
            r matches Err(message) ==> message@ == if name_ok(name@) {
                short_value_message()
            } else {
                bad_name_message(name@)
            },
    {
        if !Self::valid_name(name) {
            return Err(
                cat3(
                    "invalid name `",
                    name,
                    "` — use an env-var style name (A-Z, 0-9, _; e.g. STRIPE_KEY)",
                ),
            );
        }
        let kept = trim(value);
        if kept.as_str().as_bytes().len() < MIN_SECRET_LEN {
            return Err("value too short (min 4 chars)".to_string());
        }
        self.put(name, kept);
        Ok(())
    }

    /// Forgets a name. Says whether it was there.
    pub fn remove(&mut self, name: &str) -> (r: Result<bool, String>)
        ensures
            r == Ok::<bool, String>(old(self)@.dom().contains(name@)),
            final(self)@ == old(self)@.remove(name@),
    {
        let p = self.position(name);
        let ghost e = pair_texts(self.secrets@);
        proof {
            use_type_invariant(&*self);
            assert forall|i: int| 0 <= i < p implies before((#[trigger] e[i]).0, name@) by {
                assert(before(self.secrets@[i].0@, name@));
            }
            assert forall|i: int| p <= i < e.len() implies !before((#[trigger] e[i]).0, name@) by {
                assert(!before(self.secrets@[i].0@, name@));
            }
        }
        if p < self.secrets.len() && same(self.secrets[p].0.as_str(), name) {
            let (mut list, mut tail) = without(&self.secrets, p, p + 1);
            let ghost head = pair_texts(list@);
            let ghost rest = pair_texts(tail@);
            list.append(&mut tail);
            proof {
                assert(pair_texts(list@) =~= head + rest);
                assert(head + rest =~= e.remove(p as int));
                lemma_remove(e, p as int);
                lemma_mapping_entry(e, p as int);
            }
            self.secrets = list;
            Ok(true)
        } else {
            proof {
                if self@.dom().contains(name@) {
                    let i = choose|i: int| 0 <= i < e.len() && (#[trigger] e[i]).0 == name@;
                    lemma_before_total(name@, name@);
                    if i > p {
                        assert(before(e[p as int].0, e[i].0));
                    }
                }
                assert(self@.remove(name@) =~= self@);
            }
            Ok(false)
        }
    }

    /// A vault that holds the given entries; of two with one name, the later.
    /// Such entries come from a file, so neither names nor values are checked.
    pub fn of_entries(list: &Vec<(String, String)>) -> (r: Vault)
        ensures
            r@ == entered(pair_texts(list@)),
    {
        let mut vault = Vault::new();
        let ghost all = pair_texts(list@);
        assert(entered(all.take(0)) =~= Map::empty());
        for i in 0..list.len()
            invariant
                all == pair_texts(list@),
                vault@ == entered(all.take(i as int)),
        {
            proof {
                assert(all.take(i + 1).drop_last() =~= all.take(i as int));
                assert(all.take(i + 1).last() == all[i as int]);
            }
            vault.put(list[i].0.as_str(), list[i].1.clone());
        }
        assert(all.take(all.len() as int) =~= all);
        vault
    }
}

/// The mapping that results from entering the pairs one after the other.
pub open spec fn entered(list: Seq<(Seq<char>, Seq<char>)>) -> Map<Seq<char>, Seq<char>>
    decreases list.len(),
{
    if list.len() == 0 {
        Map::empty()
    } else {
        entered(list.drop_last()).insert(list.last().0, list.last().1)
    }
}

impl Vault {
    /// The entries as they are kept in the file.
    pub fn pairs(&self) -> (r: Vec<(String, String)>)
        ensures
            pair_texts(r@) == self.entries(),
            ascending(pair_texts(r@)),
    {
        proof {
            use_type_invariant(&*self);
        }
        let mut out: Vec<(String, String)> = Vec::new();
        let ghost all = self.entries();
        assert(pair_texts(out@) =~= all.take(0));
        for i in 0..self.secrets.len()
            invariant
                all == pair_texts(self.secrets@),
                pair_texts(out@) == all.take(i as int),
        {
            let ghost before = out@;
            out.push((self.secrets[i].0.clone(), self.secrets[i].1.clone()));
            proof {
                assert(pair_texts(out@) =~= pair_texts(before).push(all[i as int]));
                assert(all.take(i + 1) =~= all.take(i as int).push(all[i as int]));
            }
        }
        assert(all.take(all.len() as int) =~= all);
        out
    }
}

/// A vault that is loaded from the entries of a vault holds what that one held.
pub proof fn what_is_kept_is_loaded(entries: Seq<(Seq<char>, Seq<char>)>)
    requires
        ascending(entries),
    ensures
        entered(entries) == mapping(entries),
    decreases entries.len(),
{
    if entries.len() > 0 {
        let rest = entries.drop_last();
        let last = entries.last();
        what_is_kept_is_loaded(rest);
        lemma_mapping_entry(entries, entries.len() - 1);
        assert forall|name: Seq<char>| #[trigger]
            mapping(entries).dom().contains(name) <==> name == last.0 || mapping(
                rest,
            ).dom().contains(name) by {
            if has_name(entries, name) {
                let i = choose|i: int| 0 <= i < entries.len() && (#[trigger] entries[i]).0 == name;
                if i < rest.len() {
                    assert(rest[i].0 == name);
                }
            }
            if has_name(rest, name) {
                let i = choose|i: int| 0 <= i < rest.len() && (#[trigger] rest[i]).0 == name;
                assert(entries[i].0 == name);
            }
        }
        assert forall|name: Seq<char>| #[trigger]
            mapping(rest).dom().contains(name) && name != last.0 implies mapping(entries)[name]
            == mapping(rest)[name] by {
            let i = choose|i: int| 0 <= i < rest.len() && (#[trigger] rest[i]).0 == name;
            assert(entries[i] == rest[i]);
            lemma_mapping_entry(entries, i);
            lemma_mapping_entry(rest, i);
        }
        assert(mapping(entries) =~= mapping(rest).insert(last.0, last.1));
    } else {
        assert(mapping(entries) =~= Map::empty());
    }
}

// ---------------------------------------------------------------------------
// The file
// ---------------------------------------------------------------------------

/// The entries that the text of a vault file holds, where it is a JSON object whose
/// members are all texts.
pub uninterp spec fn file_entries(text: Seq<char>) -> Option<Seq<(Seq<char>, Seq<char>)>>;

pub open spec fn opt_pairs(r: Option<Vec<(String, String)>>) -> Option<
    Seq<(Seq<char>, Seq<char>)>,
> {
    match r {
        Some(list) => Some(pair_texts(list@)),
        None => None,
    }
}

/// `serde_json::from_str` into a map from texts to texts: its entries, or nothing
/// where the text cannot be read as one. What it gives follows from the text.
#[verifier::external_body]
pub(crate) fn parse_entries(text: &str) -> (r: Option<Vec<(String, String)>>)
    ensures
        opt_pairs(r) == file_entries(text@),
{
    let map: std::collections::BTreeMap<String, String> = serde_json::from_str(text).ok()?;
    Some(map.into_iter().collect())
}

/// The text of a vault file with these entries.
pub uninterp spec fn entries_text(entries: Seq<(Seq<char>, Seq<char>)>) -> Seq<char>;

/// `serde_json::to_string_pretty` on a map with these entries. Writing texts to
/// memory never fails. Entries that are in order, each name once, are read back as
/// they were.
#[verifier::external_body]
pub(crate) fn write_entries(list: &Vec<(String, String)>) -> (r: String)
    ensures
        r@ == entries_text(pair_texts(list@)),
        ascending(pair_texts(list@)) ==> file_entries(r@) == Some(pair_texts(list@)),
{
    let map: std::collections::BTreeMap<String, String> = list.iter().cloned().collect();
    serde_json::to_string_pretty(&map).unwrap_or_default()
}

/// What a vault holds that is loaded from the text of a file. A file that is missing
/// or cannot be read is an empty vault.
pub open spec fn loaded(contents: Option<Seq<char>>) -> Map<Seq<char>, Seq<char>> {
    match contents {
        Some(text) => match file_entries(text) {
            Some(list) => entered(list),
            None => Map::empty(),
        },
        None => Map::empty(),
    }
}

impl Vault {
    /// The vault in a file, given what the file holds, where it could be read.
    pub fn load(contents: Option<&str>) -> (r: Vault)
        ensures
            r@ == loaded(opt_str(contents)),
    {
        match contents {
            Some(text) => match parse_entries(text) {
                Some(list) => Vault::of_entries(&list),
                None => Vault::new(),
            },
            None => Vault::new(),
        }
    }

    /// What the file of this vault holds. A vault that is loaded from it holds what
    /// this one does.
    pub fn file_text(&self) -> (r: String)
        ensures
            r@ == entries_text(self.entries()),
            file_entries(r@) == Some(self.entries()),
            loaded(Some(r@)) == self@,
    {
        let list = self.pairs();
        proof {
            what_is_kept_is_loaded(self.entries());
        }
        write_entries(&list)
    }
}

// ---------------------------------------------------------------------------
// Secrets in a command
// ---------------------------------------------------------------------------

/// The entries whose names the command refers to.
pub open spec fn used(
    entries: Seq<(Seq<char>, Seq<char>)>,
    command: Seq<char>,
) -> Seq<(Seq<char>, Seq<char>)>
    decreases entries.len(),
{
    if entries.len() == 0 {
        Seq::empty()
    } else {
        let before = used(entries.drop_last(), command);
        if references(command, entries.last().0) {
            before.push(entries.last())
        } else {
            before
        }
    }
}

/// An entry is used exactly when the list holds it and the command refers to its
/// name.
pub proof fn used_entries(
    entries: Seq<(Seq<char>, Seq<char>)>,
    command: Seq<char>,
    entry: (Seq<char>, Seq<char>),
)
    ensures
        used(entries, command).contains(entry) <==> entries.contains(entry) && references(
            command,
            entry.0,
        ),
    decreases entries.len(),
{
    if entries.len() > 0 {
        let rest = entries.drop_last();
        used_entries(rest, command, entry);
        assert(entries =~= rest.push(entries.last()));
        assert(entries.contains(entry) <==> rest.contains(entry) || entry == entries.last()) by {
            if entries.contains(entry) {
                let i = choose|i: int| 0 <= i < entries.len() && entries[i] == entry;
                if i < rest.len() {
                    assert(rest[i] == entry);
                }
            }
            if rest.contains(entry) {
                let i = choose|i: int| 0 <= i < rest.len() && rest[i] == entry;
                assert(entries[i] == entry);
            }
            assert(entries[entries.len() - 1] == entries.last());
        }
        let before = used(rest, command);
        if references(command, entries.last().0) {
            let now = before.push(entries.last());
            assert(now.contains(entry) <==> before.contains(entry) || entry == entries.last()) by {
                if now.contains(entry) {
                    let i = choose|i: int| 0 <= i < now.len() && now[i] == entry;
                    if i < before.len() {
                        assert(before[i] == entry);
                    }
                }
                if before.contains(entry) {
                    let i = choose|i: int| 0 <= i < before.len() && before[i] == entry;
                    assert(now[i] == entry);
                }
                assert(now[now.len() - 1] == entries.last());
            }
        }
    }
}

impl Vault {
    /// The variables to set for a command: the secrets that it refers to, and no
    /// others.
    pub fn env_for_command(&self, command: &str) -> (r: Vec<(String, String)>)
        ensures
            pair_texts(r@) == used(self.entries(), command@),
    {
        let ghost all = self.entries();
        let mut out: Vec<(String, String)> = Vec::new();
        assert(pair_texts(out@) =~= used(all.take(0), command@));
        for i in 0..self.secrets.len()
            invariant
                all == pair_texts(self.secrets@),
                pair_texts(out@) == used(all.take(i as int), command@),
        {
            assert(all.take(i + 1).drop_last() =~= all.take(i as int));
            assert(all.take(i + 1).last() == all[i as int]);
            if references_token(command, self.secrets[i].0.as_str()) {
                let ghost before = pair_texts(out@);
                out.push((self.secrets[i].0.clone(), self.secrets[i].1.clone()));
                assert(pair_texts(out@) =~= before.push(all[i as int]));
            }
        }
        assert(all.take(all.len() as int) =~= all);
        out
    }

    /// The names of the secrets that a command refers to. Using a secret always
    /// needs approval.
    pub fn referenced_names(&self, command: &str) -> (r: Vec<String>)
        ensures
            texts(r@) == used(self.entries(), command@).map_values(
                |e: (Seq<char>, Seq<char>)| e.0,
            ),
    {
        let list = self.env_for_command(command);
        let mut out: Vec<String> = Vec::new();
        for i in 0..list.len()
            invariant
                out@.len() == i,
                forall|k: int| 0 <= k < i ==> (#[trigger] out@[k])@ == list@[k].0@,
        {
            out.push(list[i].0.clone());
        }
        assert(texts(out@) =~= pair_texts(list@).map_values(|e: (Seq<char>, Seq<char>)| e.0));
        out
    }
}

// ---------------------------------------------------------------------------
// Scrubbing
// ---------------------------------------------------------------------------

/// What stands in place of a value.
pub open spec fn marker(name: Seq<char>) -> Seq<char> {
    "[vault:"@ + name + "]"@
}

/// How the value stands in a JSON file, without the quotation marks around it.
pub open spec fn on_disk(value: Seq<char>) -> Seq<char> {
    escaped(value)
}

/// How the value stands in a JSON file, without the quotation marks around it.
fn disk_form(value: &str) -> (r: String)
    ensures
        r@ == on_disk(value@),
{
    let json = quote(value);
    let v = chars_of(json.as_str());
    let r = string_of(&v, 1, v.len() - 1);
    assert(r@ =~= escaped(value@));
    r
}

/// The forms of a value that are scrubbed: the value, and how it stands on disk
/// where that differs.
pub open spec fn forms(value: Seq<char>) -> Seq<Seq<char>> {
    if on_disk(value) == value {
        seq![value]
    } else {
        seq![value, on_disk(value)]
    }
}

/// The text without one form of a value: each whole occurrence gives way to the
/// marker, then each fragment.
pub open spec fn form_scrubbed(text: Seq<char>, form: Seq<char>, mark: Seq<char>) -> Seq<char> {
    if byte_len(form) < MIN_SECRET_LEN {
        text
    } else {
        let whole = replaced(text, form, mark);
        if byte_len(form) >= PARTIAL_SEED {
            fragments_scrubbed(whole, form, mark)
        } else {
            whole
        }
    }
}

/// The text without the listed forms, one after the other.
pub open spec fn forms_scrubbed(
    text: Seq<char>,
    list: Seq<Seq<char>>,
    mark: Seq<char>,
) -> Seq<char>
    decreases list.len(),
{
    if list.len() == 0 {
        text
    } else {
        form_scrubbed(forms_scrubbed(text, list.drop_last(), mark), list.last(), mark)
    }
}

/// The text without the value of one entry.
pub open spec fn entry_scrubbed(text: Seq<char>, entry: (Seq<char>, Seq<char>)) -> Seq<char> {
    if byte_len(entry.1) < MIN_SECRET_LEN {
        text
    } else {
        forms_scrubbed(text, forms(entry.1), marker(entry.0))
    }
}

/// The text without the values of the entries, one entry after the other.
pub open spec fn scrubbed(text: Seq<char>, entries: Seq<(Seq<char>, Seq<char>)>) -> Seq<char>
    decreases entries.len(),
{
    if entries.len() == 0 {
        text
    } else {
        entry_scrubbed(scrubbed(text, entries.drop_last()), entries.last())
    }
}

proof fn lemma_bytes_of_empty(s: Seq<char>)
    ensures
        s.len() == 0 ==> byte_len(s) == 0,
{
}

/// The text without one form of a value.
pub fn scrub_form(text: &str, form: &str, mark: &str) -> (r: String)
    ensures
        r@ == form_scrubbed(text@, form@, mark@),
{
    let size = form.as_bytes().len();
    if size < MIN_SECRET_LEN {
        return text.to_owned();
    }
    proof {
        lemma_bytes_of_empty(form@);
    }
    let whole = replace(text, form, mark);
    if size >= PARTIAL_SEED {
        scrub_partials(whole.as_str(), form, mark)
    } else {
        whole
    }
}

/// The text without the value of one entry.
pub fn scrub_entry(text: &str, name: &str, value: &str) -> (r: String)
    ensures
        r@ == entry_scrubbed(text@, (name@, value@)),
{
    if value.as_bytes().len() < MIN_SECRET_LEN {
        return text.to_owned();
    }
    let mark = cat3("[vault:", name, "]");
    let disk = disk_form(value);
    let first = scrub_form(text, value, mark.as_str());
    proof {
        reveal_with_fuel(forms_scrubbed, 3);
        let f = forms(value@);
        assert(f.drop_last() =~= if f.len() == 1 {
            Seq::empty()
        } else {
            seq![value@]
        });
        assert(seq![value@].drop_last() =~= Seq::<Seq<char>>::empty());
    }
    if same(disk.as_str(), value) {
        first
    } else {
        scrub_form(first.as_str(), disk.as_str(), mark.as_str())
    }
}

impl Vault {
    /// Puts `[vault:NAME]` in place of every value, whole or in part, in its own
    /// form and in the form in which it stands on disk.
    pub fn scrub_str(&self, text: &str) -> (r: String)
        ensures
            r@ == scrubbed(text@, self.entries()),
    {
        let ghost all = self.entries();
        let mut out = text.to_owned();
        assert(scrubbed(text@, all.take(0)) == text@);
        for i in 0..self.secrets.len()
            invariant
                all == pair_texts(self.secrets@),
                out@ == scrubbed(text@, all.take(i as int)),
        {
            assert(all.take(i + 1).drop_last() =~= all.take(i as int));
            assert(all.take(i + 1).last() == all[i as int]);
            out = scrub_entry(out.as_str(), self.secrets[i].0.as_str(), self.secrets[i].1.as_str());
        }
        assert(all.take(all.len() as int) =~= all);
        out
    }

    /// The value with every text in it scrubbed.
    fn scrubbed_copy(&self, value: &Json) -> (r: Json)
        ensures
            r@ == value_scrubbed(value@, self.entries()),
        decreases value,
    {
        match value {
            Json::Text(s) => Json::Text(self.scrub_str(s.as_str())),
            Json::Array(items) => {
                let mut out: Vec<Json> = Vec::new();
                for i in 0..items.len()
                    invariant
                        decreases_to!(value => items),
                        out@.len() == i,
                        forall|k: int|
                            0 <= k < i ==> (#[trigger] out@[k])@ == value_scrubbed(
                                items@[k]@,
                                self.entries(),
                            ),
                {
                    out.push(self.scrubbed_copy(&items[i]));
                }
                let r = Json::Array(out);
                assert(r@->Array_0 =~= value_scrubbed(value@, self.entries())->Array_0);
                r
            },
            Json::Object(members) => {
                let mut out: Vec<(String, Json)> = Vec::new();
                for i in 0..members.len()
                    invariant
                        decreases_to!(value => members),
                        out@.len() == i,
                        forall|k: int|
                            0 <= k < i ==> (#[trigger] out@[k]).0@ == members@[k].0@ && out@[k].1@
                                == value_scrubbed(members@[k].1@, self.entries()),
                {
                    out.push((members[i].0.clone(), self.scrubbed_copy(&members[i].1)));
                }
                let r = Json::Object(out);
                assert(r@->Object_0 =~= value_scrubbed(value@, self.entries())->Object_0);
                r
            },
            _ => value.copy(),
        }
    }

    /// Scrubs every text inside a JSON value. Names of members stay.
    pub fn scrub_value(&self, value: &mut Json)
        ensures
            final(value)@ == value_scrubbed(old(value)@, self.entries()),
    {
        if self.secrets.len() == 0 {
            proof {
                lemma_value_untouched(value@, self.entries());
            }
            return;
        }
        let scrubbed = self.scrubbed_copy(value);
        *value = scrubbed;
    }
}

pub open spec fn value_scrubbed(v: Value, entries: Seq<(Seq<char>, Seq<char>)>) -> Value
    decreases v,
{
    match v {
        Value::Text(s) => Value::Text(scrubbed(s, entries)),
        Value::Array(items) => Value::Array(
            Seq::new(
                items.len(),
                |i: int|
                    if 0 <= i < items.len() {
                        value_scrubbed(items[i], entries)
                    } else {
                        Value::Null
                    },
            ),
        ),
        Value::Object(members) => Value::Object(
            Seq::new(
                members.len(),
                |i: int|
                    if 0 <= i < members.len() {
                        (members[i].0, value_scrubbed(members[i].1, entries))
                    } else {
                        (Seq::empty(), Value::Null)
                    },
            ),
        ),
        _ => v,
    }
}

/// An empty vault changes no value.
proof fn lemma_value_untouched(v: Value, entries: Seq<(Seq<char>, Seq<char>)>)
    requires
        entries.len() == 0,
    ensures
        value_scrubbed(v, entries) == v,
    decreases v,
{
    match v {
        Value::Array(items) => {
            assert forall|i: int| 0 <= i < items.len() implies value_scrubbed(
                #[trigger] items[i],
                entries,
            ) == items[i] by {
                lemma_value_untouched(items[i], entries);
            }
            assert(value_scrubbed(v, entries)->Array_0 =~= items);
        },
        Value::Object(members) => {
            assert forall|i: int| 0 <= i < members.len() implies value_scrubbed(
                (#[trigger] members[i]).1,
                entries,
            ) == members[i].1 by {
                lemma_value_untouched(members[i].1, entries);
            }
            assert(value_scrubbed(v, entries)->Object_0 =~= members);
        },
        _ => {},
    }
}

// ---------------------------------------------------------------------------
// What scrubbing guarantees
// ---------------------------------------------------------------------------

/// No fragment survives: as many bytes of the text as make a seed, none of them
/// redacted, stand nowhere in the value.
pub proof fn no_fragment_survives(t: Seq<u8>, v: Seq<u8>, p: int, j: int)
    requires
        0 <= p <= t.len() - PARTIAL_SEED,
        forall|k: int| p <= k < p + PARTIAL_SEED ==> !(#[trigger] hidden(t, v)[k]),
    ensures
        !seed(t, v, p, j),
{
    if seed(t, v, p, j) {
        assert(covers(t, v, p, j, p));
        assert(hidden(t, v)[p]);
    }
}

/// The stretch of the text from `s` to `e` stands in the value at `j`.
pub open spec fn shared(t: Seq<u8>, v: Seq<u8>, s: int, e: int, j: int) -> bool {
    &&& 0 <= s <= e <= t.len()
    &&& 0 <= j <= v.len() - (e - s)
    &&& t.subrange(s, e) == v.subrange(j, j + (e - s))
}

/// A stretch that the text shares with the value, at least as long as a seed, is
/// redacted from end to end.
pub proof fn shared_stretches_are_hidden(t: Seq<u8>, v: Seq<u8>, s: int, e: int, j: int, p: int)
    requires
        shared(t, v, s, e, j),
        e - s >= PARTIAL_SEED,
        s <= p < e,
    ensures
        hidden(t, v)[p],
{
    let a = if p + PARTIAL_SEED <= e {
        p
    } else {
        e - PARTIAL_SEED
    };
    let b = j + (a - s);
    let run = t.subrange(s, e);
    assert(t.subrange(a, a + PARTIAL_SEED) =~= run.subrange(a - s, a - s + PARTIAL_SEED));
    assert(v.subrange(b, b + PARTIAL_SEED) =~= v.subrange(j, j + (e - s)).subrange(
        a - s,
        a - s + PARTIAL_SEED,
    ));
    assert(covers(t, v, a, b, p));
}

/// Nothing else is redacted: every redacted byte lies in a stretch, at least as
/// long as a seed, that the text shares with the value.
pub proof fn only_fragments_are_hidden(t: Seq<u8>, v: Seq<u8>, p: int)
    requires
        0 <= p < t.len(),
        hidden(t, v)[p],
    ensures
        exists|s: int, e: int, j: int|
            s <= p < e && e - s >= PARTIAL_SEED && #[trigger] shared(t, v, s, e, j),
{
    let (i, j) = choose|i: int, j: int| #[trigger] covers(t, v, i, j, p);
    let e = i + PARTIAL_SEED;
    assert(i <= p < e && shared(t, v, i, e, j));
}

proof fn lemma_rebuilt_plain(t: Seq<u8>, h: Seq<bool>, m: Seq<u8>, k: int)
    requires
        0 <= k <= t.len(),
        h.len() == t.len(),
        forall|p: int| 0 <= p < t.len() ==> !(#[trigger] h[p]),
    ensures
        rebuilt(t, h, m, k) == t.take(k),
    decreases k,
{
    if k > 0 {
        lemma_rebuilt_plain(t, h, m, k - 1);
        assert(t.take(k) =~= t.take(k - 1).push(t[k - 1]));
    } else {
        assert(t.take(0) =~= Seq::empty());
    }
}

/// The text and the value have no stretch in common that is as long as a seed.
pub open spec fn apart(text: Seq<char>, value: Seq<char>) -> bool {
    forall|i: int, j: int| !seed(encode_utf8(text), encode_utf8(value), i, j)
}

proof fn lemma_apart_unchanged(text: Seq<char>, value: Seq<char>, mark: Seq<char>)
    requires
        apart(text, value),
    ensures
        fragments_scrubbed(text, value, mark) == text,
{
    let t = encode_utf8(text);
    let v = encode_utf8(value);
    let h = hidden(t, v);
    assert forall|p: int| 0 <= p < t.len() implies !(#[trigger] h[p]) by {
        if h[p] {
            only_fragments_are_hidden(t, v, p);
            let (s, e, j) = choose|s: int, e: int, j: int|
                s <= p < e && e - s >= PARTIAL_SEED && #[trigger] shared(t, v, s, e, j);
            assert(t.subrange(s, s + PARTIAL_SEED) =~= t.subrange(s, e).take(PARTIAL_SEED as int));
            assert(v.subrange(j, j + PARTIAL_SEED) =~= v.subrange(j, j + (e - s)).take(
                PARTIAL_SEED as int,
            ));
            assert(seed(t, v, s, j));
        }
    }
    lemma_rebuilt_plain(t, h, encode_utf8(mark), t.len() as int);
    assert(t.take(t.len() as int) =~= t);
    encode_utf8_valid_utf8(text);
    encode_utf8_decode_utf8(text);
}

/// The form is too short to be scrubbed, or neither it nor a fragment of it stands
/// in the text.
pub open spec fn free_of(text: Seq<char>, form: Seq<char>) -> bool {
    byte_len(form) >= MIN_SECRET_LEN ==> !occurs(text, form) && apart(text, form)
}

/// Neither the value nor a fragment of it stands in the text, in any form.
pub open spec fn untouched_by(text: Seq<char>, value: Seq<char>) -> bool {
    forall|k: int| 0 <= k < forms(value).len() ==> free_of(text, #[trigger] forms(value)[k])
}

/// A text that holds no secret, whole or in part, comes back unchanged.
pub proof fn clean_text_is_unchanged(text: Seq<char>, entries: Seq<(Seq<char>, Seq<char>)>)
    requires
        forall|i: int|
            0 <= i < entries.len() && byte_len((#[trigger] entries[i]).1) >= MIN_SECRET_LEN
                ==> untouched_by(text, entries[i].1),
    ensures
        scrubbed(text, entries) == text,
    decreases entries.len(),
{
    if entries.len() > 0 {
        let rest = entries.drop_last();
        assert forall|i: int|
            0 <= i < rest.len() && byte_len((#[trigger] rest[i]).1)
                >= MIN_SECRET_LEN implies untouched_by(text, rest[i].1) by {
            assert(rest[i] == entries[i]);
        }
        clean_text_is_unchanged(text, rest);
        let e = entries[entries.len() - 1];
        if byte_len(e.1) >= MIN_SECRET_LEN {
            lemma_forms_unchanged(text, forms(e.1), marker(e.0));
        }
    }
}

proof fn lemma_forms_unchanged(text: Seq<char>, list: Seq<Seq<char>>, mark: Seq<char>)
    requires
        forall|k: int| 0 <= k < list.len() ==> free_of(text, #[trigger] list[k]),
    ensures
        forms_scrubbed(text, list, mark) == text,
    decreases list.len(),
{
    if list.len() > 0 {
        let rest = list.drop_last();
        assert forall|k: int| 0 <= k < rest.len() implies free_of(text, #[trigger] rest[k]) by {
            assert(rest[k] == list[k]);
        }
        lemma_forms_unchanged(text, rest, mark);
        let f = list[list.len() - 1];
        if byte_len(f) >= MIN_SECRET_LEN {
            lemma_replaced_absent(text, f, mark);
            lemma_apart_unchanged(text, f, mark);
        }
    }
}

} // verus!
