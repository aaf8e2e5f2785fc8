//! What the choice of a release comes to: which versions are newer, which entry of
//! an archive is the executable, and what is installed.
use crate::json::{Value, member, text_of};
use crate::lexis::{
    numbers_read_back, separators_part_a_text, stripping_takes_the_run,
    trimming_takes_the_white_space_around,
};
use crate::text::{
    all_digits, blank, decimal, ends, is_digit, is_white, lemma_decimal, occurs, occurs_at, parsed,
    pieces, repeated, starts,
};
use crate::update::{
    archive_data, archive_path, asset, binary_from, binary_in, binary_path, core_of, executable,
    extracted, higher, last_part, part_start, readable, tag_version, unzipped, version,
};
use vstd::prelude::*;

verus! {

// ---------------------------------------------------------------------------
// Versions
// ---------------------------------------------------------------------------

/// Of two versions the one with the larger major number is higher, whatever follows
/// it. With equal major numbers the larger minor number decides, whatever the patch
/// numbers are, and with equal minor numbers the larger patch number.
pub proof fn the_foremost_number_decides(
    major: nat,
    minor: nat,
    patch: nat,
    by: nat,
    b: nat,
    c: nat,
)
    requires
        by > 0,
    ensures
        higher((major + by, b, c), (major, minor, patch)),
        !higher((major, minor, patch), (major + by, b, c)),
        higher((major, minor + by, c), (major, minor, patch)),
        !higher((major, minor, patch), (major, minor + by, c)),
        higher((major, minor, patch + by), (major, minor, patch)),
        !higher((major, minor, patch), (major, minor, patch + by)),
        !higher((major, minor, patch), (major, minor, patch)),
{
}

/// Three numbers with points between them.
pub open spec fn dotted(major: nat, minor: nat, patch: nat) -> Seq<char> {
    decimal(major) + seq!['.'] + (decimal(minor) + seq!['.'] + decimal(patch))
}

/// A version is its three numbers; what is left out counts as zero, and what
/// follows a `-` or a `+` does not count.
pub proof fn versions_are_three_numbers(major: nat, minor: nat, patch: nat, rest: Seq<char>)
    requires
        major <= u64::MAX,
        minor <= u64::MAX,
        patch <= u64::MAX,
    ensures
        version(dotted(major, minor, patch)) == Some((major, minor, patch)),
        version(decimal(major) + seq!['.'] + decimal(minor)) == Some((major, minor, 0nat)),
        version(decimal(major)) == Some((major, 0nat, 0nat)),
        version(dotted(major, minor, patch) + seq!['-'] + rest) == Some((major, minor, patch)),
        version(dotted(major, minor, patch) + seq!['+'] + rest) == Some((major, minor, patch)),
{
    let a = decimal(major);
    let b = decimal(minor);
    let c = decimal(patch);
    lemma_number_part(major);
    lemma_number_part(minor);
    lemma_number_part(patch);
    let ab = a + seq!['.'] + b;
    let all = dotted(major, minor, patch);
    let bc = b + seq!['.'] + c;
    separators_part_a_text(a, bc, '.');
    separators_part_a_text(b, c, '.');
    separators_part_a_text(a, b, '.');
    separators_part_a_text(c, b, '.');
    assert(pieces(all, '.') =~= seq![a, b, c]);
    assert(pieces(ab, '.') =~= seq![a, b]);
    numbers_read_back(major, u64::MAX as nat);
    numbers_read_back(minor, u64::MAX as nat);
    numbers_read_back(patch, u64::MAX as nat);
    assert(numeric(ab)) by {
        assert forall|i: int| 0 <= i < ab.len() implies (#[trigger] ab[i]) == '.' || is_digit(
            ab[i],
        ) by {
            if i < a.len() {
                assert(ab[i] == a[i]);
            } else if i > a.len() {
                assert(ab[i] == b[i - a.len() - 1]);
            }
        }
    }
    assert(numeric(all)) by {
        assert(all =~= ab + seq!['.'] + c);
        assert forall|i: int| 0 <= i < all.len() implies (#[trigger] all[i]) == '.' || is_digit(
            all[i],
        ) by {
            if i < ab.len() {
                assert(all[i] == ab[i]);
            } else if i > ab.len() {
                assert(all[i] == c[i - ab.len() - 1]);
            }
        }
    }
    lemma_core(a, Seq::empty());
    lemma_core(ab, Seq::empty());
    lemma_core(all, Seq::empty());
    assert(a + Seq::<char>::empty() =~= a);
    assert(ab + Seq::<char>::empty() =~= ab);
    assert(all + Seq::<char>::empty() =~= all);
    lemma_core(all, seq!['-'] + rest);
    lemma_core(all, seq!['+'] + rest);
    assert(all + (seq!['-'] + rest) =~= all + seq!['-'] + rest);
    assert(all + (seq!['+'] + rest) =~= all + seq!['+'] + rest);
}

/// What does not begin with a number is no version.
pub proof fn without_a_number_no_version(word: Seq<char>, rest: Seq<char>)
    requires
        parsed(word, u64::MAX as nat) is None,
        !word.contains('.'),
        !word.contains('-'),
        !word.contains('+'),
    ensures
        version(word) is None,
        version(word + seq!['.'] + rest) is None,
{
    lemma_core_keeps(word, Seq::empty());
    assert(word + Seq::<char>::empty() =~= word);
    assert(core_of(Seq::<char>::empty()) =~= Seq::<char>::empty());
    lemma_core_keeps(word, seq!['.'] + rest);
    assert(word + (seq!['.'] + rest) =~= word + seq!['.'] + rest);
    assert((seq!['.'] + rest).skip(1) =~= rest);
    assert(core_of(seq!['.'] + rest) =~= seq!['.'] + core_of(rest));
    assert(word + (seq!['.'] + core_of(rest)) =~= word + seq!['.'] + core_of(rest));
    separators_part_a_text(word, core_of(rest), '.');
}

/// Nothing but digits and points.
spec fn numeric(s: Seq<char>) -> bool {
    forall|i: int| 0 <= i < s.len() ==> (#[trigger] s[i]) == '.' || is_digit(s[i])
}

proof fn lemma_number_part(n: nat)
    ensures
        decimal(n).len() > 0,
        !decimal(n).contains('.'),
        numeric(decimal(n)),
        all_digits(decimal(n)),
{
    lemma_decimal(n);
    let d = decimal(n);
    if d.contains('.') {
        let i = choose|i: int| 0 <= i < d.len() && d[i] == '.';
        assert(is_digit(d[i]));
    }
}

proof fn lemma_core_keeps(s: Seq<char>, t: Seq<char>)
    requires
        !s.contains('-'),
        !s.contains('+'),
    ensures
        core_of(s + t) == s + core_of(t),
    decreases s.len(),
{
    if s.len() == 0 {
        assert(s + t =~= t);
        assert(s + core_of(t) =~= core_of(t));
    } else {
        let r = s.skip(1);
        assert(s.contains(s[0]));
        assert forall|c: char| r.contains(c) implies s.contains(c) by {
            let i = choose|i: int| 0 <= i < r.len() && r[i] == c;
            assert(s[i + 1] == c);
        }
        assert((s + t)[0] == s[0]);
        assert((s + t).skip(1) =~= r + t);
        lemma_core_keeps(r, t);
        assert(seq![s[0]] + (r + core_of(t)) =~= s + core_of(t));
    }
}

proof fn lemma_core(s: Seq<char>, t: Seq<char>)
    requires
        numeric(s),
        t.len() == 0 || t[0] == '-' || t[0] == '+',
    ensures
        core_of(s + t) == s,
{
    if s.contains('-') {
        let i = choose|i: int| 0 <= i < s.len() && s[i] == '-';
        assert(s[i] == '.' || is_digit(s[i]));
    }
    if s.contains('+') {
        let i = choose|i: int| 0 <= i < s.len() && s[i] == '+';
        assert(s[i] == '.' || is_digit(s[i]));
    }
    lemma_core_keeps(s, t);
    assert(s + Seq::<char>::empty() =~= s);
}

/// Whatever follows them, of two releases the one with the larger major number is the
/// newer one, then the one with the larger minor number, then the one with the larger
/// patch number; a release is not newer than itself.
pub proof fn newer_releases_are_newer(
    latest: &str,
    current: &str,
    newer: bool,
    a: (nat, nat, nat),
    b: (nat, nat, nat),
)
    requires
        a.0 <= u64::MAX && a.1 <= u64::MAX && a.2 <= u64::MAX,
        b.0 <= u64::MAX && b.1 <= u64::MAX && b.2 <= u64::MAX,
        latest@ == dotted(a.0, a.1, a.2),
        current@ == dotted(b.0, b.1, b.2),
        call_ensures(crate::update::is_newer_than, (latest, current), newer),
    ensures
        a.0 > b.0 ==> newer,
        a.0 < b.0 ==> !newer,
        a.0 == b.0 && a.1 > b.1 ==> newer,
        a.0 == b.0 && a.1 < b.1 ==> !newer,
        a.0 == b.0 && a.1 == b.1 ==> (newer <==> a.2 > b.2),
{
    versions_are_three_numbers(a.0, a.1, a.2, Seq::empty());
    versions_are_three_numbers(b.0, b.1, b.2, Seq::empty());
}

/// A tag names its version, with or without a `v` in front and with any white space
/// around it.
pub proof fn tags_name_versions(release: Value, w: Seq<char>, v: nat, s: Seq<char>, x: Seq<char>)
    requires
        blank(w),
        blank(x),
        s.len() > 0,
        s[0] != 'v',
        !is_white(s[0]),
        !is_white(s.last()),
        text_of(member(release, "tag_name"@)) == Some(w + (repeated('v', v) + s) + x),
    ensures
        tag_version(release) == Some(s),
{
    let named = repeated('v', v) + s;
    assert(named.last() == s.last());
    assert(named[0] == if v > 0 {
        'v'
    } else {
        s[0]
    });
    trimming_takes_the_white_space_around(w, named, x);
    stripping_takes_the_run(v, 'v', s);
}

/// The asset of a platform is named after its processor, and there is one for two
/// platforms only.
pub proof fn assets_are_named_after_the_platform(os: Seq<char>, arch: Seq<char>)
    ensures
        asset(os, arch) is Some <==> (os == "linux"@ && arch == "x86_64"@) || (os == "macos"@
            && arch == "aarch64"@),
        asset(os, arch) matches Some(name) ==> starts(name, "snippet-"@ + arch + "-"@) && ends(
            name,
            ".tar.gz"@,
        ) && occurs(
            name,
            if os == "macos"@ {
                "apple-darwin"@
            } else {
                "unknown-linux-gnu"@
            },
        ),
{
    reveal_strlit("linux");
    reveal_strlit("macos");
    reveal_strlit("x86_64");
    reveal_strlit("aarch64");
    reveal_strlit("snippet-");
    reveal_strlit("-");
    reveal_strlit(".tar.gz");
    reveal_strlit("apple-darwin");
    reveal_strlit("unknown-linux-gnu");
    reveal_strlit("snippet-x86_64-unknown-linux-gnu.tar.gz");
    reveal_strlit("snippet-aarch64-apple-darwin.tar.gz");
    let l = "snippet-x86_64-unknown-linux-gnu.tar.gz"@;
    let m = "snippet-aarch64-apple-darwin.tar.gz"@;
    assert("linux"@ != "macos"@) by {
        assert("linux"@[0] == 'l' && "macos"@[0] == 'm');
    }
    assert(l.subrange(0, 15) =~= "snippet-"@ + "x86_64"@ + "-"@);
    assert(l.subrange(32, 39) =~= ".tar.gz"@);
    assert(l.subrange(15, 32) =~= "unknown-linux-gnu"@);
    assert(occurs_at(l, "unknown-linux-gnu"@, 15));
    assert(m.subrange(0, 16) =~= "snippet-"@ + "aarch64"@ + "-"@);
    assert(m.subrange(28, 35) =~= ".tar.gz"@);
    assert(m.subrange(16, 28) =~= "apple-darwin"@);
    assert(occurs_at(m, "apple-darwin"@, 16));
}

// ---------------------------------------------------------------------------
// Archives
// ---------------------------------------------------------------------------

/// What an executable is called in a release.
pub open spec fn binary_name() -> Seq<u8> {
    seq![0x73u8, 0x6eu8, 0x69u8, 0x70u8, 0x70u8, 0x65u8, 0x74u8]
}

/// An entry is the executable by its last part alone, in whatever directory it is.
pub proof fn the_last_part_names_the_executable(dir: Seq<u8>, name: Seq<u8>)
    requires
        name.len() > 0,
        name != seq![0x2eu8],
        !name.contains(0x2f),
    ensures
        binary_path(name) <==> name == binary_name(),
        binary_path(dir + seq![0x2fu8] + name) <==> name == binary_name(),
        binary_path(dir + seq![0x2fu8]) <==> binary_path(dir),
        binary_path(dir + seq![0x2fu8, 0x2eu8]) <==> binary_path(dir),
{
    let p = dir + seq![0x2fu8] + name;
    let n = name.len() as int;
    lemma_part_start(p, (dir.len() + 1) as int, p.len() as int, name);
    assert(p.subrange((dir.len() + 1) as int, p.len() as int) =~= name);
    lemma_part_start(name, 0, n, name);
    assert(name.subrange(0, n) =~= name);
    let q = dir + seq![0x2fu8];
    let e = dir.len() as int;
    assert(q[e] == 0x2f);
    assert(part_start(q, e + 1) == e + 1);
    lemma_last_part_prefix(dir, q, e);
    let r = dir + seq![0x2fu8, 0x2eu8];
    assert(r[e] == 0x2f && r[e + 1] == 0x2e);
    assert(part_start(r, e + 1) == e + 1);
    assert(part_start(r, e + 2) == e + 1);
    assert(r.subrange(e + 1, e + 2) =~= seq![0x2eu8]);
    lemma_last_part_prefix(dir, r, e);
}

proof fn lemma_part_start(p: Seq<u8>, s: int, e: int, name: Seq<u8>)
    requires
        0 <= s <= e <= p.len(),
        s == 0 || p[s - 1] == 0x2f,
        forall|i: int| s <= i < e ==> #[trigger] p[i] == name[i - s],
        e - s <= name.len(),
        !name.contains(0x2f),
    ensures
        part_start(p, e) == s,
    decreases e - s,
{
    if s < e {
        assert(p[e - 1] == name[e - 1 - s]);
        assert(name.contains(name[e - 1 - s]));
        lemma_part_start(p, s, e - 1, name);
    }
}

proof fn lemma_part_start_prefix(a: Seq<u8>, b: Seq<u8>, e: int)
    requires
        0 <= e <= a.len() <= b.len(),
        forall|i: int| 0 <= i < a.len() ==> #[trigger] a[i] == b[i],
    ensures
        part_start(a, e) == part_start(b, e),
        part_start(a, e) <= e,
        0 <= part_start(a, e),
    decreases e,
{
    if e > 0 {
        assert(a[e - 1] == b[e - 1]);
        lemma_part_start_prefix(a, b, e - 1);
    }
}

proof fn lemma_last_part_prefix(a: Seq<u8>, b: Seq<u8>, e: int)
    requires
        0 <= e <= a.len() <= b.len(),
        forall|i: int| 0 <= i < a.len() ==> #[trigger] a[i] == b[i],
    ensures
        last_part(a, e) == last_part(b, e),
    decreases e,
{
    if e > 0 {
        lemma_part_start_prefix(a, b, e);
        let s = part_start(a, e);
        assert(a.subrange(s, e) =~= b.subrange(s, e));
        if s > 0 {
            lemma_last_part_prefix(a, b, s - 1);
        }
    }
}

/// The executable of an archive is the first entry that is named like it. An entry
/// that cannot be read before it, or none at all, is an error.
pub proof fn the_first_executable_is_taken(tar: Seq<u8>, k: nat)
    requires
        readable(tar),
        k < usize::MAX,
    ensures
        (forall|j: nat|
            j < k ==> match #[trigger] archive_path(tar, j) {
                Some(Ok(path)) => !binary_path(path),
                _ => false,
            }) ==> match archive_path(tar, k) {
            None => binary_in(tar) == Err::<Seq<u8>, Seq<char>>(
                "`snippet` not found in the release archive"@,
            ),
            Some(Err(e)) => binary_in(tar) == Err::<Seq<u8>, Seq<char>>(e),
            Some(Ok(path)) => binary_path(path) ==> binary_in(tar) == archive_data(tar, k),
        },
{
    if forall|j: nat|
        j < k ==> match #[trigger] archive_path(tar, j) {
            Some(Ok(path)) => !binary_path(path),
            _ => false,
        } {
        lemma_skipped(tar, 0, k);
    }
}

proof fn lemma_skipped(tar: Seq<u8>, from: nat, k: nat)
    requires
        from <= k < usize::MAX,
        forall|j: nat|
            from <= j < k ==> match #[trigger] archive_path(tar, j) {
                Some(Ok(path)) => !binary_path(path),
                _ => false,
            },
    ensures
        binary_from(tar, from) == binary_from(tar, k),
    decreases k - from,
{
    if from < k {
        assert(match archive_path(tar, from) {
            Some(Ok(path)) => !binary_path(path),
            _ => false,
        });
        lemma_skipped(tar, from + 1, k);
    }
}

/// What is damaged is not unpacked, and of the rest the archive within counts.
pub proof fn a_damaged_archive_gives_nothing(gz: Seq<u8>)
    ensures
        unzipped(gz) is Err ==> extracted(gz) == Err::<Seq<u8>, Seq<char>>(unzipped(gz)->Err_0),
        unzipped(gz) matches Ok(tar) ==> extracted(gz) == binary_in(tar),
        unzipped(gz) matches Ok(tar) && !readable(tar) ==> extracted(gz) is Err,
{
}

/// Whether bytes begin like an executable is decided by the first four of them.
pub proof fn four_bytes_tell_an_executable(b: Seq<u8>, rest: Seq<u8>)
    ensures
        b.len() >= 4 ==> (executable(b + rest) <==> executable(b)),
        b.len() < 4 ==> !executable(b),
        executable(b) <==> b.len() >= 4 && ((b[0] == 0x7f && b[1] == 0x45 && b[2] == 0x4c && b[3]
            == 0x46) || ((b[0] == 0xcf || b[0] == 0xce) && b[1] == 0xfa && b[2] == 0xed && b[3]
            == 0xfe) || (b[0] == 0xca && b[1] == 0xfe && b[2] == 0xba && b[3] == 0xbe)),
{
    if b.len() >= 4 {
        assert((b + rest).take(4) =~= b.take(4));
        let t = b.take(4);
        assert(t[0] == b[0] && t[1] == b[1] && t[2] == b[2] && t[3] == b[3]);
        assert(t =~= seq![b[0], b[1], b[2], b[3]]);
        let m0 = seq![0x7fu8, 0x45, 0x4c, 0x46];
        let m1 = seq![0xcfu8, 0xfa, 0xed, 0xfe];
        let m2 = seq![0xceu8, 0xfa, 0xed, 0xfe];
        let m3 = seq![0xcau8, 0xfe, 0xba, 0xbe];
        assert(t == m0 ==> t[0] == m0[0] && t[1] == m0[1] && t[2] == m0[2] && t[3] == m0[3]);
        assert(t == m1 ==> t[0] == m1[0] && t[1] == m1[1] && t[2] == m1[2] && t[3] == m1[3]);
        assert(t == m2 ==> t[0] == m2[0] && t[1] == m2[1] && t[2] == m2[2] && t[3] == m2[3]);
        assert(t == m3 ==> t[0] == m3[0] && t[1] == m3[1] && t[2] == m3[2] && t[3] == m3[3]);
    }
}

} // verus!
