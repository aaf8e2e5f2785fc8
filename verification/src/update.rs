//! Self-update: whether a published release is newer than this build, what to
//! fetch, and what of the fetched archive may take the place of the executable.
//! Whatever goes wrong leaves the present executable untouched.
use crate::json::{Json, Value, member, text_of};
use crate::text::{
    cat2, cat3, cat5, chars_of, parse_unsigned, parsed, pieces, same, split, strip_start,
    stripped_start, texts, trim, trimmed,
};
use vstd::prelude::*;

verus! {

pub const REPO: &'static str = "wacht-platform/snippet-service";

pub const CURRENT_VERSION: &'static str = "0.1.0";

pub const USER_AGENT: &'static str = "snippet/0.1.0 (self-update)";

/// A release has at least this many bytes.
pub const MIN_BINARY_LEN: usize = 1_000_000;

/// The release asset for a platform, where there is one.
pub open spec fn asset(os: Seq<char>, arch: Seq<char>) -> Option<Seq<char>> {
    if os == "linux"@ && arch == "x86_64"@ {
        Some("snippet-x86_64-unknown-linux-gnu.tar.gz"@)
    } else if os == "macos"@ && arch == "aarch64"@ {
        Some("snippet-aarch64-apple-darwin.tar.gz"@)
    } else {
        None
    }
}

pub fn asset_name(os: &str, arch: &str) -> (r: Option<&'static str>)
    ensures
        asset(os@, arch@) == match r {
            Some(s) => Some(s@),
            None => None,
        },
{
    if same(os, "linux") && same(arch, "x86_64") {
        Some("snippet-x86_64-unknown-linux-gnu.tar.gz")
    } else if same(os, "macos") && same(arch, "aarch64") {
        Some("snippet-aarch64-apple-darwin.tar.gz")
    } else {
        None
    }
}

/// Where the latest release is described.
pub fn latest_url() -> (r: String)
    ensures
        r@ == "https://api.github.com/repos/"@ + REPO@ + "/releases/latest"@,
{
    cat3("https://api.github.com/repos/", REPO, "/releases/latest")
}

/// Where an asset of a release is found.
pub fn download_url(version: &str, asset: &str) -> (r: String)
    ensures
        r@ == "https://github.com/"@ + REPO@ + "/releases/download/v"@ + version@ + "/"@ + asset@,
{
    let base = cat5("https://github.com/", REPO, "/releases/download/v", version, "/");
    cat2(base.as_str(), asset)
}

/// The version that a tag names: without white space around it and without a
/// leading `v`.
pub open spec fn tag_version(release: Value) -> Option<Seq<char>> {
    match text_of(member(release, "tag_name"@)) {
        Some(tag) => Some(stripped_start(trimmed(tag), 'v')),
        None => None,
    }
}

/// The version of the release that a reply describes.
pub fn release_version(release: &Json) -> (r: Option<String>)
    ensures
        tag_version(release@) == match r {
            Some(s) => Some(s@),
            None => None,
        },
{
    match release.text_at("tag_name") {
        Some(tag) => {
            let t = trim(tag.as_str());
            Some(strip_start(t.as_str(), 'v'))
        },
        None => None,
    }
}

// ---------------------------------------------------------------------------
// Versions
// ---------------------------------------------------------------------------

/// What stands before the first `-` or `+`.
pub open spec fn core_of(v: Seq<char>) -> Seq<char>
    decreases v.len(),
{
    if v.len() == 0 || v[0] == '-' || v[0] == '+' {
        Seq::empty()
    } else {
        seq![v[0]] + core_of(v.skip(1))
    }
}

/// The number of a part, zero where it is missing or none.
pub open spec fn part_or_zero(parts: Seq<Seq<char>>, i: int) -> nat {
    if i < parts.len() {
        match parsed(parts[i], u64::MAX as nat) {
            Some(n) => n,
            None => 0,
        }
    } else {
        0
    }
}

/// Major, minor and patch number. Without a major number it is no version.
pub open spec fn version(v: Seq<char>) -> Option<(nat, nat, nat)> {
    let parts = pieces(core_of(v), '.');
    match parsed(parts[0], u64::MAX as nat) {
        Some(major) => Some((major, part_or_zero(parts, 1), part_or_zero(parts, 2))),
        None => None,
    }
}

/// `a` is a higher version than `b`.
pub open spec fn higher(a: (nat, nat, nat), b: (nat, nat, nat)) -> bool {
    ||| a.0 > b.0
    ||| a.0 == b.0 && a.1 > b.1
    ||| a.0 == b.0 && a.1 == b.1 && a.2 > b.2
}

fn core_text(v: &str) -> (r: String)
    ensures
        r@ == core_of(v@),
{
    let s = chars_of(v);
    let mut out = String::new();
    let mut i: usize = 0;
    assert(out@ + core_of(s@.skip(0)) =~= core_of(v@)) by {
        assert(s@.skip(0) =~= v@);
    }
    while i < s.len() && s[i] != '-' && s[i] != '+'
        invariant
            i <= s.len(),
            out@ + core_of(s@.skip(i as int)) == core_of(v@),
        decreases s.len() - i,
    {
        let ghost before = out@;
        out.push(s[i]);
        proof {
            assert(s@.skip(i as int).skip(1) =~= s@.skip(i + 1));
            assert(before + (seq![s@[i as int]] + core_of(s@.skip(i + 1))) =~= out@ + core_of(
                s@.skip(i + 1),
            ));
        }
        i += 1;
    }
    assert(out@ + Seq::<char>::empty() =~= out@);
    out
}

fn number_at(parts: &Vec<String>, i: usize) -> (r: u64)
    ensures
        r == part_or_zero(texts(parts@), i as int),
{
    if i < parts.len() {
        assert(texts(parts@)[i as int] == parts@[i as int]@);
        match parse_unsigned(parts[i].as_str(), u64::MAX) {
            Some(n) => n,
            None => 0,
        }
    } else {
        0
    }
}

pub fn parse(v: &str) -> (r: Option<(u64, u64, u64)>)
    ensures
        version(v@) == match r {
            Some(t) => Some((t.0 as nat, t.1 as nat, t.2 as nat)),
            None => None,
        },
{
    let core = core_text(v);
    let parts = split(core.as_str(), '.');
    assert(texts(parts@)[0] == parts@[0]@);
    match parse_unsigned(parts[0].as_str(), u64::MAX) {
        Some(major) => Some((major, number_at(&parts, 1), number_at(&parts, 2))),
        None => None,
    }
}

/// Whether `latest` is strictly newer than `current`.
pub fn is_newer_than(latest: &str, current: &str) -> (r: bool)
    ensures
        r == match (version(latest@), version(current@)) {
            (Some(l), Some(c)) => higher(l, c),
            _ => false,
        },
{
    match (parse(latest), parse(current)) {
        (Some(l), Some(c)) => l.0 > c.0 || (l.0 == c.0 && (l.1 > c.1 || (l.1 == c.1 && l.2 > c.2))),
        _ => false,
    }
}

/// Whether `latest` is strictly newer than this build.
pub fn is_newer(latest: &str) -> (r: bool)
    ensures
        r == match (version(latest@), version(CURRENT_VERSION@)) {
            (Some(l), Some(c)) => higher(l, c),
            _ => false,
        },
{
    is_newer_than(latest, CURRENT_VERSION)
}

/// A version is not higher than itself, of two different ones exactly one is
/// higher, and what is higher than a higher one is higher.
pub proof fn higher_is_a_strict_order(
    a: (nat, nat, nat),
    b: (nat, nat, nat),
    c: (nat, nat, nat),
)
    ensures
        !higher(a, a),
        a != b ==> (higher(a, b) <==> !higher(b, a)),
        higher(a, b) && higher(b, c) ==> higher(a, c),
{
}

/// What to install: the latest release, where updating is not turned off and the
/// release is newer.
pub fn wanted_version(disabled: bool, latest: Option<String>) -> (r: Option<String>)
    ensures
        match latest {
            Some(l) => {
                let newer = match (version(l@), version(CURRENT_VERSION@)) {
                    (Some(a), Some(c)) => higher(a, c),
                    _ => false,
                };
                if !disabled && newer {
                    r matches Some(v) && v@ == l@
                } else {
                    r is None
                }
            },
            None => r is None,
        },
{
    match latest {
        Some(l) => if !disabled && is_newer(l.as_str()) {
            Some(l)
        } else {
            None
        },
        None => None,
    }
}

// ---------------------------------------------------------------------------
// Archives
// ---------------------------------------------------------------------------

/// The bytes begin with the given four.
pub open spec fn begins(b: Seq<u8>, magic: Seq<u8>) -> bool {
    b.len() >= 4 && b.take(4) == magic
}

/// The beginning of an executable: ELF, or one of the Mach-O forms.
pub open spec fn executable(b: Seq<u8>) -> bool {
    ||| begins(b, seq![0x7f, 0x45, 0x4c, 0x46])
    ||| begins(b, seq![0xcf, 0xfa, 0xed, 0xfe])
    ||| begins(b, seq![0xce, 0xfa, 0xed, 0xfe])
    ||| begins(b, seq![0xca, 0xfe, 0xba, 0xbe])
}

fn begins_with(b: &Vec<u8>, m0: u8, m1: u8, m2: u8, m3: u8) -> (r: bool)
    ensures
        r == begins(b@, seq![m0, m1, m2, m3]),
{
    if b.len() < 4 {
        return false;
    }
    let r = b[0] == m0 && b[1] == m1 && b[2] == m2 && b[3] == m3;
    proof {
        if r {
            assert(b@.take(4) =~= seq![m0, m1, m2, m3]);
        } else {
            let t = b@.take(4);
            assert(t[0] == b@[0] && t[1] == b@[1] && t[2] == b@[2] && t[3] == b@[3]);
        }
    }
    r
}

pub fn looks_like_executable(b: &Vec<u8>) -> (r: bool)
    ensures
        r == executable(b@),
{
    begins_with(b, 0x7f, 0x45, 0x4c, 0x46) || begins_with(b, 0xcf, 0xfa, 0xed, 0xfe) || begins_with(
        b,
        0xce,
        0xfa,
        0xed,
        0xfe,
    ) || begins_with(b, 0xca, 0xfe, 0xba, 0xbe)
}

/// A downloaded executable is large and begins like one; a truncated download
/// or an error page does not.
pub fn check_binary(bin: &Vec<u8>) -> (r: Result<(), String>)
    ensures
        r is Ok <==> bin@.len() >= MIN_BINARY_LEN && executable(bin@),
        r matches Err(m) ==> m@ == "downloaded artifact doesn't look like a snippet binary"@,
{
    if bin.len() < MIN_BINARY_LEN || !looks_like_executable(bin) {
        return Err("downloaded artifact doesn't look like a snippet binary".to_string());
    }
    Ok(())
}

// ---------------------------------------------------------------------------
// Archives
// ---------------------------------------------------------------------------

/// What decompressing gives: the bytes, or the message of the error.
pub uninterp spec fn unzipped(gz: Seq<u8>) -> Result<Seq<u8>, Seq<char>>;

pub open spec fn data_view(r: Result<Vec<u8>, String>) -> Result<Seq<u8>, Seq<char>> {
    match r {
        Ok(b) => Ok(b@),
        Err(e) => Err(e@),
    }
}

/// `std::io::Read::read_to_end` on a `flate2::read::GzDecoder`: the decompressed
/// bytes, or the message of the error where any part of the stream is bad. What it
/// gives follows from the bytes.
#[verifier::external_body]
pub(crate) fn unzip(gz: &[u8]) -> (r: Result<Vec<u8>, String>)
    ensures
        data_view(r) == unzipped(gz@),
{
    let mut buf = Vec::new();
    let mut decoder = flate2::read::GzDecoder::new(gz);
    std::io::Read::read_to_end(&mut decoder, &mut buf).map_err(|e| e.to_string())?;
    Ok(buf)
}

/// An archive is read in blocks of this many bytes.
pub const BLOCK: usize = 512;

/// Block `i` reads as the header of a sparse file in GNU's format.
pub open spec fn sparse_header(tar: Seq<u8>, i: int) -> bool {
    &&& BLOCK * i + BLOCK <= tar.len()
    &&& tar[BLOCK * i + 156] == 0x53
    &&& tar.subrange(BLOCK * i + 257, BLOCK * i + 265) == seq![
        0x75u8,
        0x73u8,
        0x74u8,
        0x61u8,
        0x72u8,
        0x20u8,
        0x20u8,
        0u8,
    ]
}

/// Such a header whose length, stored or real, is not in octal digits and so may be
/// any number.
pub open spec fn boundless_header(tar: Seq<u8>, i: int) -> bool {
    sparse_header(tar, i) && (tar[BLOCK * i + 124] >= 0x80 || tar[BLOCK * i + 483] >= 0x80)
}

/// Such a header that goes on in the blocks behind it.
pub open spec fn extended_header(tar: Seq<u8>, i: int) -> bool {
    sparse_header(tar, i) && tar[BLOCK * i + 482] == 1
}

/// Block `i` reads as the header of a pax record, which may give any length to the
/// entry behind it.
pub open spec fn pax_header(tar: Seq<u8>, i: int) -> bool {
    BLOCK * i + BLOCK <= tar.len() && tar[BLOCK * i + 156] == 0x78
}

/// No entry of the archive can be a sparse file of a boundless length. Positions
/// behind an extended header are added up unchecked, and a sparse file is filled up
/// with zeros to its real length.
pub open spec fn readable(tar: Seq<u8>) -> bool {
    &&& forall|i: int| 0 <= i ==> !(#[trigger] boundless_header(tar, i))
    &&& (forall|i: int| 0 <= i ==> !(#[trigger] extended_header(tar, i))) || (forall|i: int|
        0 <= i ==> !(#[trigger] pax_header(tar, i)))
}

fn is_sparse_header(tar: &[u8], i: usize) -> (r: bool)
    requires
        BLOCK * i + BLOCK <= tar.len(),
    ensures
        r == sparse_header(tar@, i as int),
{
    let p: usize = BLOCK * i;
    let r = tar[p + 156] == 0x53 && tar[p + 257] == 0x75 && tar[p + 258] == 0x73 && tar[p + 259]
        == 0x74 && tar[p + 260] == 0x61 && tar[p + 261] == 0x72 && tar[p + 262] == 0x20 && tar[p
        + 263] == 0x20 && tar[p + 264] == 0;
    proof {
        let mark = seq![0x75u8, 0x73u8, 0x74u8, 0x61u8, 0x72u8, 0x20u8, 0x20u8, 0u8];
        let part = tar@.subrange(BLOCK * i + 257, BLOCK * i + 265);
        if r {
            assert(part =~= mark);
        } else if part == mark {
            assert(part[0] == tar@[p + 257] && part[1] == tar@[p + 258] && part[2] == tar@[p + 259]);
            assert(part[3] == tar@[p + 260] && part[4] == tar@[p + 261] && part[5] == tar@[p + 262]);
            assert(part[6] == tar@[p + 263] && part[7] == tar@[p + 264]);
        }
    }
    r
}

/// Whether the archive can be read.
pub fn is_readable(tar: &[u8]) -> (r: bool)
    ensures
        r == readable(tar@),
{
    let n: usize = tar.len() / BLOCK;
    let mut extended: bool = false;
    let mut pax: bool = false;
    for i in 0..n
        invariant
            n == tar.len() / BLOCK,
            forall|k: int| 0 <= k < i ==> !(#[trigger] boundless_header(tar@, k)),
            extended == exists|k: int| 0 <= k < i && #[trigger] extended_header(tar@, k),
            pax == exists|k: int| 0 <= k < i && #[trigger] pax_header(tar@, k),
    {
        let p: usize = BLOCK * i;
        if is_sparse_header(tar, i) {
            if tar[p + 124] >= 0x80 || tar[p + 483] >= 0x80 {
                assert(boundless_header(tar@, i as int));
                return false;
            }
            if tar[p + 482] == 1 {
                assert(extended_header(tar@, i as int));
                extended = true;
            }
        }
        if tar[p + 156] == 0x78 {
            assert(pax_header(tar@, i as int));
            pax = true;
        }
    }
    proof {
        assert forall|k: int| 0 <= k && (#[trigger] boundless_header(tar@, k)) implies k < n by {}
        assert forall|k: int| 0 <= k && (#[trigger] extended_header(tar@, k)) implies k < n by {}
        assert forall|k: int| 0 <= k && (#[trigger] pax_header(tar@, k)) implies k < n by {}
    }
    !(extended && pax)
}

/// What iterating over the entries of an archive gives at position `k`: nothing
/// after the last entry, an error, or the bytes of the entry's path.
pub uninterp spec fn archive_path(tar: Seq<u8>, k: nat) -> Option<Result<Seq<u8>, Seq<char>>>;

pub open spec fn path_view(r: Option<Result<Vec<u8>, String>>) -> Option<
    Result<Seq<u8>, Seq<char>>,
> {
    match r {
        None => None,
        Some(item) => Some(data_view(item)),
    }
}

/// The item at position `k` of `tar::Archive::entries`: the bytes that
/// `tar::Entry::path_bytes` gives, or the message of the error. What it gives
/// follows from the bytes of the archive and the position. The archive is read anew
/// for each position.
#[verifier::external_body]
pub(crate) fn entry_path(tar: &[u8], k: usize) -> (r: Option<Result<Vec<u8>, String>>)
    requires
        readable(tar@),
    ensures
        path_view(r) == archive_path(tar@, k as nat),
{
    let mut archive = tar::Archive::new(tar);
    let mut entries = match archive.entries() {
        Ok(entries) => entries,
        Err(e) => return Some(Err(e.to_string())),
    };
    let entry = entries.nth(k)?;
    Some(entry.map(|e| e.path_bytes().into_owned()).map_err(|e| e.to_string()))
}

/// What reading the entry at position `k` of an archive to its end gives.
pub uninterp spec fn archive_data(tar: Seq<u8>, k: nat) -> Result<Seq<u8>, Seq<char>>;

/// `std::io::Read::read_to_end` on the entry at position `k` of the archive: its
/// bytes, or the message of the error. What it gives follows from the bytes of the
/// archive and the position.
#[verifier::external_body]
pub(crate) fn entry_data(tar: &[u8], k: usize) -> (r: Result<Vec<u8>, String>)
    requires
        readable(tar@),
    ensures
        data_view(r) == archive_data(tar@, k as nat),
{
    let mut archive = tar::Archive::new(tar);
    let mut entries = archive.entries().map_err(|e| e.to_string())?;
    let mut buf = Vec::new();
    if let Some(entry) = entries.nth(k) {
        let mut entry = entry.map_err(|e| e.to_string())?;
        std::io::Read::read_to_end(&mut entry, &mut buf).map_err(|e| e.to_string())?;
    }
    Ok(buf)
}

/// Where the part of a path begins that ends before `e`.
pub open spec fn part_start(path: Seq<u8>, e: int) -> int
    decreases e,
{
    if e <= 0 || path[e - 1] == 0x2f {
        e
    } else {
        part_start(path, e - 1)
    }
}

/// The last part of a path before `e`. Empty parts and `.` do not count.
pub open spec fn last_part(path: Seq<u8>, e: int) -> Option<Seq<u8>>
    decreases e,
{
    if e <= 0 {
        None
    } else {
        let s = part_start(path, e);
        let part = path.subrange(s, e);
        if s < e && part != seq![0x2eu8] {
            Some(part)
        } else if 0 < s <= e {
            last_part(path, s - 1)
        } else {
            None
        }
    }
}

/// The path of the executable in a release: its last part is `snippet`.
pub open spec fn binary_path(path: Seq<u8>) -> bool {
    last_part(path, path.len() as int) == Some(
        seq![0x73u8, 0x6eu8, 0x69u8, 0x70u8, 0x70u8, 0x65u8, 0x74u8],
    )
}

fn start_of_part(path: &[u8], e: usize) -> (s: usize)
    requires
        e <= path.len(),
    ensures
        s <= e,
        s == part_start(path@, e as int),
{
    let mut s: usize = e;
    while s > 0 && path[s - 1] != 0x2f
        invariant
            s <= e <= path.len(),
            part_start(path@, e as int) == part_start(path@, s as int),
        decreases s,
    {
        s -= 1;
    }
    s
}

/// Whether an entry with this path is the executable.
pub fn is_binary_path(path: &[u8]) -> (r: bool)
    ensures
        r == binary_path(path@),
{
    let mut e: usize = path.len();
    while e > 0
        invariant
            e <= path.len(),
            last_part(path@, path@.len() as int) == last_part(path@, e as int),
        decreases e,
    {
        let s = start_of_part(path, e);
        let ghost part = path@.subrange(s as int, e as int);
        if s < e && !(e - s == 1 && path[s] == 0x2e) {
            proof {
                let dot = seq![0x2eu8];
                if part == dot {
                    assert(part[0] == path@[s as int]);
                }
                assert(last_part(path@, e as int) == Some(part));
            }
            let r = e - s == 7 && path[s] == 0x73 && path[s + 1] == 0x6e && path[s + 2] == 0x69
                && path[s + 3] == 0x70 && path[s + 4] == 0x70 && path[s + 5] == 0x65 && path[s + 6]
                == 0x74;
            proof {
                let name = seq![0x73u8, 0x6eu8, 0x69u8, 0x70u8, 0x70u8, 0x65u8, 0x74u8];
                if r {
                    assert(part =~= name);
                } else if part == name {
                    assert(part.len() == name.len());
                    assert(part[0] == path@[s as int] && part[1] == path@[s + 1]);
                    assert(part[2] == path@[s + 2] && part[3] == path@[s + 3]);
                    assert(part[4] == path@[s + 4] && part[5] == path@[s + 5]);
                    assert(part[6] == path@[s + 6]);
                }
            }
            return r;
        }
        proof {
            if s < e {
                assert(part =~= seq![0x2eu8]);
            }
        }
        if s == 0 {
            return false;
        }
        e = s - 1;
    }
    false
}

/// The first entry from position `k` on that holds the executable, or why there
/// is none.
pub open spec fn binary_from(tar: Seq<u8>, k: nat) -> Result<Seq<u8>, Seq<char>>
    decreases usize::MAX - k,
{
    if k >= usize::MAX {
        Err("`snippet` not found in the release archive"@)
    } else {
        match archive_path(tar, k) {
            None => Err("`snippet` not found in the release archive"@),
            Some(Err(e)) => Err(e),
            Some(Ok(path)) => if binary_path(path) {
                archive_data(tar, k)
            } else {
                binary_from(tar, k + 1)
            },
        }
    }
}

/// The executable in a decompressed archive, or why there is none.
pub open spec fn binary_in(tar: Seq<u8>) -> Result<Seq<u8>, Seq<char>> {
    if readable(tar) {
        binary_from(tar, 0)
    } else {
        Err("unreadable sparse file in the release archive"@)
    }
}

/// The executable in a release archive. A stream that is damaged anywhere is
/// refused.
pub open spec fn extracted(gz: Seq<u8>) -> Result<Seq<u8>, Seq<char>> {
    match unzipped(gz) {
        Ok(tar) => binary_in(tar),
        Err(e) => Err(e),
    }
}

/// The executable in a decompressed archive.
pub fn find_binary(tar: &[u8]) -> (r: Result<Vec<u8>, String>)
    ensures
        data_view(r) == binary_in(tar@),
{
    if !is_readable(tar) {
        return Err("unreadable sparse file in the release archive".to_string());
    }
    for k in 0..usize::MAX
        invariant
            readable(tar@),
            binary_from(tar@, 0) == binary_from(tar@, k as nat),
    {
        match entry_path(tar, k) {
            None => {
                return Err("`snippet` not found in the release archive".to_string());
            },
            Some(Err(e)) => {
                return Err(e);
            },
            Some(Ok(path)) => {
                if is_binary_path(path.as_slice()) {
                    return entry_data(tar, k);
                }
            },
        }
    }
    Err("`snippet` not found in the release archive".to_string())
}

/// The executable in a release archive.
pub fn extract_binary(gz: &[u8]) -> (r: Result<Vec<u8>, String>)
    ensures
        data_view(r) == extracted(gz@),
{
    match unzip(gz) {
        Ok(tar) => find_binary(tar.as_slice()),
        Err(e) => Err(e),
    }
}

/// The executable to install from a downloaded archive.
pub fn accepted_binary(gz: &[u8]) -> (r: Result<Vec<u8>, String>)
    ensures
        match extracted(gz@) {
            Err(e) => r matches Err(m) && m@ == e,
            Ok(bin) => if bin.len() >= MIN_BINARY_LEN && executable(bin) {
                r matches Ok(b) && b@ == bin
            } else {
                r matches Err(m) && m@ == "downloaded artifact doesn't look like a snippet binary"@
            },
        },
{
    let bin = extract_binary(gz)?;
    match check_binary(&bin) {
        Ok(()) => Ok(bin),
        Err(e) => Err(e),
    }
}

} // verus!
