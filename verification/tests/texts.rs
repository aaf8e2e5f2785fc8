//! Texts, held against the same operations of the standard library.
use snippet::json::Json;
use snippet::text::{
    comes_before, contains, decimal_string, ends_with, is_whitespace, join, lines, parse_unsigned,
    replace, sort_texts, split, split_whitespace, starts_with, strip_prefix, to_ascii_lowercase,
    trim, trim_end, trim_start,
};
use snippet::tools::tool_call_parts;

const SAMPLES: [&str; 16] = [
    "",
    " ",
    "a",
    "  a b  ",
    "\ta\r\nb\n",
    "\n\nx\n\n",
    "a\r\n\r\nb\r",
    "é日本 語\u{a0}x\u{3000}",
    "\u{2003}y\u{2029}z\u{85}",
    "aaa",
    "aXbXc",
    "XX",
    "/goal do it",
    "ÀÉ ÎÕ abc ABC",
    "0012",
    "🦀 crab 🦀",
];

#[test]
fn white_space_is_that_of_the_standard() {
    for n in 0..=0x10ffffu32 {
        if let Some(c) = char::from_u32(n) {
            assert_eq!(is_whitespace(c), c.is_whitespace(), "{n:x}");
        }
    }
}

#[test]
fn capitals_are_those_of_the_standard() {
    for n in 0..=0x10ffffu32 {
        if let Some(c) = char::from_u32(n) {
            if c != '_' {
                let args = Json::Object(vec![("id".to_string(), Json::Text("i".to_string()))]);
                let tool = format!("{c}x");
                let expected = format!("{}x", c.to_uppercase());
                assert_eq!(tool_call_parts(&tool, &args).0, expected, "{n:x}");
            }
        }
    }
}

#[test]
fn texts_are_trimmed_as_in_the_standard() {
    for s in SAMPLES {
        assert_eq!(trim(s), s.trim(), "{s:?}");
        assert_eq!(trim_start(s), s.trim_start(), "{s:?}");
        assert_eq!(trim_end(s), s.trim_end(), "{s:?}");
        assert_eq!(to_ascii_lowercase(s), s.to_ascii_lowercase(), "{s:?}");
    }
}

#[test]
fn texts_are_split_as_in_the_standard() {
    for s in SAMPLES {
        assert_eq!(lines(s), s.lines().collect::<Vec<_>>(), "{s:?}");
        assert_eq!(split(s, 'X'), s.split('X').collect::<Vec<_>>(), "{s:?}");
        assert_eq!(split(s, '\n'), s.split('\n').collect::<Vec<_>>(), "{s:?}");
        assert_eq!(split_whitespace(s), s.split_whitespace().collect::<Vec<_>>(), "{s:?}");
        assert_eq!(join(&split(s, ' '), " "), s);
    }
}

#[test]
fn texts_are_searched_as_in_the_standard() {
    for s in SAMPLES {
        for p in ["a", "aa", "X", " ", "語", "bXc", "🦀"] {
            assert_eq!(contains(s, p), s.contains(p), "{s:?} {p:?}");
            assert_eq!(starts_with(s, p), s.starts_with(p), "{s:?} {p:?}");
            assert_eq!(ends_with(s, p), s.ends_with(p), "{s:?} {p:?}");
            assert_eq!(strip_prefix(s, p), s.strip_prefix(p).map(str::to_string), "{s:?} {p:?}");
            assert_eq!(replace(s, p, "<a>"), s.replace(p, "<a>"), "{s:?} {p:?}");
        }
    }
}

#[test]
fn texts_are_ordered_as_in_the_standard() {
    for a in SAMPLES {
        for b in SAMPLES {
            assert_eq!(comes_before(a, b), a < b, "{a:?} {b:?}");
        }
    }
    let all: Vec<String> = SAMPLES.iter().map(|s| s.to_string()).collect();
    let mut sorted = all.clone();
    sorted.sort();
    assert_eq!(sort_texts(&all), sorted);
}

#[test]
fn numbers_are_read_and_written_as_in_the_standard() {
    for s in ["", "+", "-1", "+7", "007", "12x", " 1", "18446744073709551615", "18446744073709551616", "९"] {
        assert_eq!(parse_unsigned(s, u64::MAX), s.parse::<u64>().ok(), "{s:?}");
    }
    for s in ["255", "256", "+0"] {
        assert_eq!(parse_unsigned(s, 255), s.parse::<u8>().ok().map(u64::from), "{s:?}");
    }
    for n in [0, 9, 10, 4096, u64::MAX] {
        assert_eq!(decimal_string(n), n.to_string());
    }
}

#[test]
fn json_is_written_as_by_serde() {
    let texts = ["plain", "q\"b\\s/", "\u{8}\u{c}\n\r\t\u{1}\u{1f}\u{7f}", "日本\u{2028}"];
    for t in texts {
        let value = serde_json::Value::String(t.to_string());
        assert_eq!(Json::Text(t.to_string()).to_text(), value.to_string());
    }
    let nested = Json::Object(vec![
        ("a\n".to_string(), Json::Array(vec![Json::Null, Json::Bool(false)])),
        ("b".to_string(), Json::Object(vec![])),
        (
            "c".to_string(),
            Json::Number { notation: "-1.5e3".to_string(), unsigned: None },
        ),
    ]);
    assert_eq!(nested.to_text(), "{\"a\\n\":[null,false],\"b\":{},\"c\":-1.5e3}");
}

#[test]
fn json_members_are_found() {
    let v = Json::Object(vec![
        ("n".to_string(), Json::Number { notation: "7".to_string(), unsigned: Some(7) }),
        ("t".to_string(), Json::Text("x".to_string())),
        ("b".to_string(), Json::Bool(true)),
        ("l".to_string(), Json::Array(vec![Json::Null])),
    ]);
    assert_eq!(v.u64_at("n"), Some(7));
    assert_eq!(v.u64_at("t"), None);
    assert_eq!(v.text_at("t"), Some("x".to_string()));
    assert_eq!(v.text_or_empty_at("n"), "");
    assert_eq!(v.bool_at("b"), Some(true));
    assert_eq!(v.array_at("l").map(|l| l.len()), Some(1));
    assert!(v.get("missing").is_none());
    assert!(Json::Null.get("n").is_none());
    assert_eq!(v.copy().to_text(), v.to_text());
}
