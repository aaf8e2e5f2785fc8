//! The vault, and what is scrubbed from text.
use snippet::json::Json;
use snippet::vault::{
    is_protected_path, references_token, scrub_entry, scrub_form, scrub_partials, vault_path, Vault,
};

fn vault(entries: &[(&str, &str)]) -> Vault {
    let mut v = Vault::new();
    for (name, value) in entries {
        v.set(name, value).unwrap();
    }
    v
}

#[test]
fn a_name_is_referenced_as_a_whole_token() {
    for command in [
        "os.environ['DATABASE_URL']",
        "echo $DATABASE_URL",
        "echo ${DATABASE_URL}",
        "process.env.DATABASE_URL",
        "DATABASE_URL",
        "MY_DATABASE_URL_X; DATABASE_URL",
    ] {
        assert!(references_token(command, "DATABASE_URL"), "{command}");
    }
    assert!(!references_token("MY_DATABASE_URL_X", "DATABASE_URL"));
    assert!(!references_token("DATABASE_URL2", "DATABASE_URL"));
    assert!(!references_token("anything", ""));
    assert!(references_token("é$A_KEY", "A_KEY"));
}

#[test]
fn the_vault_lies_below_the_home_directory() {
    assert_eq!(vault_path(Some("/home/u")), "/home/u/.snippet/vault.json");
    assert_eq!(vault_path(None), "./.snippet/vault.json");
    assert!(is_protected_path("/home/u/.snippet/vault.json", "/home/u/.snippet//vault.json"));
    assert!(!is_protected_path("/home/u/.snippet/vault.json.bak", "/home/u/.snippet/vault.json"));
}

#[test]
fn names_are_those_of_environment_variables() {
    for name in ["STRIPE_KEY", "_A1", "A"] {
        assert!(Vault::valid_name(name), "{name}");
    }
    for name in ["", "1A", "a", "A-B", "É"] {
        assert!(!Vault::valid_name(name), "{name}");
    }
}

#[test]
fn a_bad_name_is_refused() {
    let mut v = Vault::new();
    assert_eq!(
        v.set("bad name", "long enough"),
        Err("invalid name `bad name` — use an env-var style name (A-Z, 0-9, _; e.g. STRIPE_KEY)"
            .to_string())
    );
    assert!(v.is_empty());
}

#[test]
fn a_short_value_is_refused() {
    let mut v = Vault::new();
    assert_eq!(v.set("KEY", "  abc  "), Err("value too short (min 4 chars)".to_string()));
    assert!(v.is_empty());
    // Four bytes are enough, in two characters.
    assert_eq!(v.set("KEY", "éé"), Ok(()));
}

#[test]
fn entries_are_kept_in_the_order_of_their_names() {
    let mut v = vault(&[("B_KEY", "second-value"), ("A_KEY", "  first-value "), ("_C", "third-value")]);
    assert_eq!(v.names(), vec!["A_KEY", "B_KEY", "_C"]);
    assert_eq!(v.set("B_KEY", "another-value"), Ok(()));
    assert_eq!(v.names().len(), 3);
    assert_eq!(
        v.env_for_command("echo $B_KEY ${A_KEY}"),
        vec![
            ("A_KEY".to_string(), "first-value".to_string()),
            ("B_KEY".to_string(), "another-value".to_string()),
        ]
    );
    assert_eq!(v.referenced_names("run _C"), vec!["_C"]);
    assert!(v.env_for_command("echo A_KEYS").is_empty());
    assert_eq!(v.remove("B_KEY"), Ok(true));
    assert_eq!(v.remove("B_KEY"), Ok(false));
    assert_eq!(v.names(), vec!["A_KEY", "_C"]);
}

#[test]
fn a_later_entry_replaces_an_earlier_one() {
    let list = vec![
        ("B".to_string(), "one-value".to_string()),
        ("A".to_string(), "two-value".to_string()),
        ("B".to_string(), "last-value".to_string()),
    ];
    let v = Vault::of_entries(&list);
    assert_eq!(v.names(), vec!["A", "B"]);
    assert_eq!(v.env_for_command("B"), vec![("B".to_string(), "last-value".to_string())]);
}

#[test]
fn what_is_kept_can_be_loaded() {
    let v = vault(&[("B_KEY", "second-value"), ("A_KEY", "first-value")]);
    let kept = v.pairs();
    assert_eq!(
        kept,
        vec![
            ("A_KEY".to_string(), "first-value".to_string()),
            ("B_KEY".to_string(), "second-value".to_string()),
        ]
    );
    assert_eq!(Vault::of_entries(&kept).pairs(), kept);
}

#[test]
fn a_saved_vault_is_loaded_again() {
    let v = vault(&[("B_KEY", "with \"marks\" and \\"), ("A_KEY", "línea\nzwei\u{1}"), ("C", "four")]);
    let text = v.file_text();
    let again = Vault::load(Some(&text));
    assert_eq!(again.pairs(), v.pairs());
    assert_eq!(again.file_text(), text);
    assert_eq!(vault(&[("K", "a\"bc")]).file_text(), "{\n  \"K\": \"a\\\"bc\"\n}");
    assert_eq!(Vault::new().file_text(), "{}");
}

#[test]
fn a_file_that_cannot_be_read_is_an_empty_vault() {
    assert!(Vault::load(None).is_empty());
    for text in ["", "null", "[]", "{\"K\": 1}", "{\"K\": \"value\"", "{\"K\": \"value\"} x"] {
        assert!(Vault::load(Some(text)).is_empty(), "{text}");
    }
    // Neither names nor values are checked.
    let v = Vault::load(Some("{\"b\": \"\", \"a\": \"first\", \"a\": \"last\"}"));
    assert_eq!(v.names(), vec!["a", "b"]);
    assert_eq!(v.pairs()[0].1, "last");
}

#[test]
fn whole_values_are_scrubbed() {
    let v = vault(&[("KEY", "sk-12345678"), ("PIN", "4711")]);
    assert_eq!(v.scrub_str("the key is sk-12345678, the pin 4711."), "the key is [vault:KEY], the pin [vault:PIN].");
    assert_eq!(v.scrub_str("nothing here"), "nothing here");
}

#[test]
fn fragments_are_scrubbed_as_one_run() {
    let v = vault(&[("KEY", "abcdefghijklmnop")]);
    assert_eq!(v.scrub_str("x cdefghijklm y"), "x [vault:KEY] y");
    // Seven bytes are too few.
    assert_eq!(v.scrub_str("x cdefghi y"), "x cdefghi y");
    assert_eq!(scrub_partials("short", "abcdefgh", "[M]"), "short");
    assert_eq!(scrub_partials("short", "short", "[M]"), "short");
    assert_eq!(scrub_partials("..abcdefgh..", "abcdefgh", "[M]"), "..[M]..");
}

#[test]
fn fragments_that_overlap_are_scrubbed_together() {
    assert_eq!(scrub_partials("abcdefghijkl", "abcdefghXefghijkl", "[M]"), "[M]");
    assert_eq!(scrub_partials("-abcdefghijkl-", "efghijklYabcdefgh", "[M]"), "-[M]-");
    assert_eq!(scrub_partials("abcdefghijk", "abcdefghXefghijkl", "[M]"), "[M]ijk");
    // Fragments that touch leave one marker, fragments apart leave two.
    assert_eq!(scrub_partials("abcdefghijklmnop", "ijklmnopabcdefgh", "[M]"), "[M]");
    assert_eq!(scrub_partials("abcdefgh ijklmnop", "ijklmnopabcdefgh", "[M]"), "[M] [M]");
}

#[test]
fn no_plain_secret_stands_in_the_result() {
    let value = "0123456789-SECRET";
    let v = vault(&[("K", value)]);
    for text in [
        "0123456789-SECRET",
        "a 0123456789-SECRETS b",
        "012345670123456789-S 9-SECRET",
        "23456789é89-SECRET\n9-SECRE",
        "[vault:K]0123456[vault:K]",
    ] {
        let r = v.scrub_str(text);
        for i in 0..=value.len() - 8 {
            assert!(!r.contains(&value[i..i + 8]), "{r}");
        }
        assert_eq!(v.scrub_str(&r), r);
    }
    let free = "01234567 is short, 9-SECRE too";
    assert_eq!(v.scrub_str("0123456 7, 9-SECRE"), "0123456 7, 9-SECRE");
    assert_eq!(v.scrub_str(free), "[vault:K] is short, 9-SECRE too");
}

#[test]
fn scrubbing_again_changes_nothing() {
    // The markers share letters with the values, but hold no part of them.
    let v = vault(&[
        ("API_TOKEN", "ghp_vaultAPI_TOKxyz"),
        ("DB", "ul\"t:\\4"),
        ("PIN", "4711"),
    ]);
    let text = "use ghp_vaultAPI_TOKxyz or _vaultAPI_TO, ul\"t:\\4, ul\\\"t:\\\\4 and 47114711";
    let r = v.scrub_str(text);
    assert_eq!(
        r,
        "use [vault:API_TOKEN] or [vault:API_TOKEN], [vault:DB], [vault:DB] and [vault:PIN][vault:PIN]"
    );
    assert_eq!(v.scrub_str(&r), r);
}

#[test]
fn the_escaped_form_of_a_value_is_scrubbed() {
    let v = vault(&[("KEY", "a\"b\\c")]);
    assert_eq!(v.scrub_str("file: \"a\\\"b\\\\c\""), "file: \"[vault:KEY]\"");
    assert_eq!(v.scrub_str("raw: a\"b\\c"), "raw: [vault:KEY]");
    assert_eq!(scrub_entry("tab\there", "K", "ab\the"), "t[vault:K]re");
    assert_eq!(scrub_entry("tt\\u0001x", "K", "tt\u{1}x"), "[vault:K]");
    assert_eq!(scrub_form("aaaaa", "aaaa", "[M]"), "[M]a");
}

#[test]
fn quotation_marks_at_the_ends_belong_to_the_escaped_form() {
    let v = vault(&[("K", "abcd\"")]);
    assert_eq!(v.scrub_str("abcd\\\""), "[vault:K]");
    assert_eq!(v.scrub_str("\"abcd\\\"\""), "\"[vault:K]\"");
    let v = vault(&[("K", "\"\"ab\"\"")]);
    assert_eq!(v.scrub_str("x\\\"\\\"ab\\\"\\\"y"), "x[vault:K]y");
    assert_eq!(v.scrub_str("x\"\"ab\"\"y"), "x[vault:K]y");
}

#[test]
fn values_are_scrubbed_in_every_text_of_a_json_value() {
    let v = vault(&[("KEY", "sk-12345678")]);
    let mut json = Json::Object(vec![
        ("sk-12345678".to_string(), Json::Text("see sk-12345678".to_string())),
        (
            "list".to_string(),
            Json::Array(vec![Json::Text("sk-12345678".to_string()), Json::Bool(true), Json::Null]),
        ),
    ]);
    v.scrub_value(&mut json);
    assert_eq!(
        json.to_text(),
        "{\"sk-12345678\":\"see [vault:KEY]\",\"list\":[\"[vault:KEY]\",true,null]}"
    );
}

#[test]
fn an_empty_vault_scrubs_nothing() {
    let v = Vault::new();
    let mut json = Json::Text("sk-12345678".to_string());
    v.scrub_value(&mut json);
    assert_eq!(json.to_text(), "\"sk-12345678\"");
    assert_eq!(v.scrub_str("sk-12345678"), "sk-12345678");
}
