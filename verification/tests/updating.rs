//! Releases: versions, addresses and archives.
use flate2::write::GzEncoder;
use flate2::Compression;
use snippet::json::Json;
use snippet::update::{
    accepted_binary, asset_name, check_binary, download_url, extract_binary, find_binary,
    is_binary_path, is_newer, is_newer_than, is_readable, latest_url, looks_like_executable, parse,
    release_version, wanted_version, CURRENT_VERSION, MIN_BINARY_LEN,
};

fn archive(files: &[(&str, &[u8])]) -> Vec<u8> {
    let mut builder = tar::Builder::new(GzEncoder::new(Vec::new(), Compression::default()));
    for (path, data) in files {
        let mut header = tar::Header::new_gnu();
        header.set_size(data.len() as u64);
        header.set_mode(0o755);
        header.set_cksum();
        builder.append_data(&mut header, path, *data).unwrap();
    }
    builder.into_inner().unwrap().finish().unwrap()
}

fn elf(len: usize) -> Vec<u8> {
    let mut b = vec![0u8; len];
    b[..4].copy_from_slice(&[0x7f, b'E', b'L', b'F']);
    b
}

#[test]
fn versions_have_three_numbers() {
    assert_eq!(parse("1.2.3"), Some((1, 2, 3)));
    assert_eq!(parse("1"), Some((1, 0, 0)));
    assert_eq!(parse("1.x.4"), Some((1, 0, 4)));
    assert_eq!(parse("1.2.3.4"), Some((1, 2, 3)));
    assert_eq!(parse("2.0.0-rc.1"), Some((2, 0, 0)));
    assert_eq!(parse("2.1+build.5"), Some((2, 1, 0)));
    assert_eq!(parse("+1.2"), None);
    assert_eq!(parse("v1.2.3"), None);
    assert_eq!(parse(""), None);
    assert_eq!(parse("18446744073709551615.0.0"), Some((u64::MAX, 0, 0)));
    assert_eq!(parse("18446744073709551616.0.0"), None);
}

#[test]
fn newer_is_strict() {
    assert!(is_newer_than("1.2.4", "1.2.3"));
    assert!(is_newer_than("1.10.0", "1.9.9"));
    assert!(is_newer_than("2.0.0", "1.99.99"));
    assert!(!is_newer_than("1.2.3", "1.2.3"));
    assert!(!is_newer_than("1.2.3", "1.2.4"));
    assert!(!is_newer_than("junk", "0.0.1"));
    assert!(!is_newer_than("9.9.9", "junk"));
    assert!(is_newer("9999.0.0"));
    assert!(!is_newer(CURRENT_VERSION));
}

#[test]
fn only_a_newer_release_is_wanted() {
    let latest = || Some("9999.0.0".to_string());
    assert_eq!(wanted_version(false, latest()), latest());
    assert_eq!(wanted_version(true, latest()), None);
    assert_eq!(wanted_version(false, Some(CURRENT_VERSION.to_string())), None);
    assert_eq!(wanted_version(false, None), None);
}

#[test]
fn a_release_names_its_version_in_its_tag() {
    let release = |tag: Json| Json::Object(vec![("tag_name".to_string(), tag)]);
    assert_eq!(
        release_version(&release(Json::Text(" vv1.2.3 \n".to_string()))),
        Some("1.2.3".to_string())
    );
    assert_eq!(release_version(&release(Json::Null)), None);
    assert_eq!(release_version(&Json::Array(vec![])), None);
}

#[test]
fn assets_are_found_by_platform_and_version() {
    let asset = asset_name("linux", "x86_64").unwrap();
    assert_eq!(asset, "snippet-x86_64-unknown-linux-gnu.tar.gz");
    assert_eq!(
        asset_name("macos", "aarch64"),
        Some("snippet-aarch64-apple-darwin.tar.gz")
    );
    assert_eq!(asset_name("linux", "aarch64"), None);
    assert_eq!(
        latest_url(),
        "https://api.github.com/repos/wacht-platform/snippet-service/releases/latest"
    );
    assert_eq!(
        download_url("1.2.3", asset),
        "https://github.com/wacht-platform/snippet-service/releases/download/v1.2.3/snippet-x86_64-unknown-linux-gnu.tar.gz"
    );
}

#[test]
fn executables_begin_with_a_known_mark() {
    assert!(looks_like_executable(&elf(4)));
    assert!(looks_like_executable(&vec![0xcf, 0xfa, 0xed, 0xfe, 1]));
    assert!(looks_like_executable(&vec![0xce, 0xfa, 0xed, 0xfe]));
    assert!(looks_like_executable(&vec![0xca, 0xfe, 0xba, 0xbe]));
    assert!(!looks_like_executable(&vec![0x7f, b'E', b'L']));
    assert!(!looks_like_executable(&b"<html>".to_vec()));
}

#[test]
fn a_binary_is_large_and_executable() {
    let refused = Err("downloaded artifact doesn't look like a snippet binary".to_string());
    assert_eq!(check_binary(&elf(MIN_BINARY_LEN)), Ok(()));
    assert_eq!(check_binary(&elf(MIN_BINARY_LEN - 1)), refused);
    assert_eq!(check_binary(&vec![0u8; MIN_BINARY_LEN]), refused);
}

#[test]
fn the_first_entry_of_that_name_is_extracted() {
    let gz = archive(&[
        ("README", b"read me"),
        ("release/snippet", b"the one"),
        ("snippet", b"another"),
    ]);
    assert_eq!(extract_binary(&gz), Ok(b"the one".to_vec()));
}

#[test]
fn an_archive_without_the_binary_is_refused() {
    let gz = archive(&[("README", b"read me"), ("snippet/README", b"more")]);
    assert_eq!(
        extract_binary(&gz),
        Err("`snippet` not found in the release archive".to_string())
    );
}

#[test]
fn what_is_no_archive_is_refused() {
    assert_eq!(extract_binary(b"not gzip at all"), Err("invalid gzip header".to_string()));
    let mut gz = archive(&[("snippet", &elf(5000))]);
    gz.truncate(40);
    assert!(extract_binary(&gz).is_err());
}

#[test]
fn a_damaged_stream_is_refused() {
    let mut gz = archive(&[("snippet", b"the one")]);
    assert_eq!(extract_binary(&gz), Ok(b"the one".to_vec()));
    let at = gz.len() - 8;
    gz[at] ^= 1;
    assert!(extract_binary(&gz).is_err());
}

#[test]
fn the_last_part_of_a_path_names_the_binary() {
    for path in ["snippet", "./snippet", "a/b/snippet", "a//snippet", "/snippet", "snippet/", "snippet/.", "a/snippet/.//"] {
        assert!(is_binary_path(path.as_bytes()), "{path}");
    }
    for path in ["", "/", ".", "./.", "snippets", "asnippet", "snippet/a", "snippet/..", "a.snippet", "SNIPPET"] {
        assert!(!is_binary_path(path.as_bytes()), "{path}");
    }
    assert!(is_binary_path(b"\xff/snippet"));
    assert!(!is_binary_path(b"\xffsnippet"));
}

/// The header of a sparse file of 1024 bytes, the first half of which is a hole.
fn sparse() -> tar::Header {
    let mut header = tar::Header::new_gnu();
    header.set_path("snippet").unwrap();
    header.set_entry_type(tar::EntryType::GNUSparse);
    header.set_size(512);
    header.set_mode(0o755);
    let gnu = header.as_gnu_mut().unwrap();
    gnu.sparse[0].offset.copy_from_slice(b"00000001000\0");
    gnu.sparse[0].numbytes.copy_from_slice(b"00000001000\0");
    gnu.realsize.copy_from_slice(b"00000002000\0");
    header
}

fn blocks(list: &[&[u8]]) -> Vec<u8> {
    let mut out = Vec::new();
    for b in list {
        out.extend_from_slice(b);
        out.resize(out.len().div_ceil(512) * 512, 0);
    }
    out.extend_from_slice(&[0u8; 1024]);
    out
}

#[test]
fn a_sparse_binary_is_filled_up() {
    let mut header = sparse();
    header.set_cksum();
    let tar = blocks(&[header.as_bytes(), &[7u8; 512]]);
    assert!(is_readable(&tar));
    let mut whole = vec![0u8; 512];
    whole.extend_from_slice(&[7u8; 512]);
    assert_eq!(find_binary(&tar), Ok(whole));
}

#[test]
fn a_sparse_file_without_bounds_is_refused() {
    let refused = Err("unreadable sparse file in the release archive".to_string());
    // The stored length is close to the largest number there is.
    let mut header = sparse();
    let gnu = header.as_gnu_mut().unwrap();
    gnu.isextended[0] = 1;
    gnu.size.copy_from_slice(&[0x80, 0, 0, 0, 255, 255, 255, 255, 255, 255, 252, 0]);
    header.set_cksum();
    let tar = blocks(&[header.as_bytes(), &[0u8; 512]]);
    assert!(!is_readable(&tar));
    assert_eq!(find_binary(&tar), refused);
    // So is the real length.
    let mut header = sparse();
    header.as_gnu_mut().unwrap().realsize.copy_from_slice(&[0x80, 0, 0, 0, 127, 0, 0, 0, 0, 0, 0, 0]);
    header.set_cksum();
    assert!(!is_readable(&blocks(&[header.as_bytes(), &[7u8; 512]])));
    // A record in front may give any length to a header that goes on.
    let mut header = sparse();
    header.as_gnu_mut().unwrap().isextended[0] = 1;
    header.set_cksum();
    let mut pax = tar::Header::new_ustar();
    pax.set_entry_type(tar::EntryType::XHeader);
    let record = b"29 size=18446744073709550592\n";
    pax.set_size(record.len() as u64);
    pax.set_cksum();
    let tar = blocks(&[pax.as_bytes(), record, header.as_bytes(), &[0u8; 512]]);
    assert!(!is_readable(&tar));
    assert_eq!(find_binary(&tar), refused);
    assert!(is_readable(&blocks(&[pax.as_bytes(), record])));
    assert!(is_readable(&blocks(&[header.as_bytes()])));
}

#[test]
fn an_accepted_binary_is_extracted_and_checked() {
    let bin = elf(MIN_BINARY_LEN);
    assert_eq!(accepted_binary(&archive(&[("snippet", &bin)])), Ok(bin));
    assert_eq!(
        accepted_binary(&archive(&[("snippet", b"<html>")])),
        Err("downloaded artifact doesn't look like a snippet binary".to_string())
    );
    assert_eq!(
        accepted_binary(&archive(&[("other", b"x")])),
        Err("`snippet` not found in the release archive".to_string())
    );
}
