//! Watched files: the manager, and the tail of one file.
use snippet::watches::{
    cap_tail, look, read, tail_of, wake, Next, Phase, Tail, WatchManager, WatchRecord,
    DEBOUNCE_MAX_MS, DEBOUNCE_MS, MAX_DELIVER_BYTES, MAX_WATCHES, POLL_MS,
};

const NOW: &str = "2026-01-02T03:04:05+00:00";

fn manager() -> WatchManager {
    WatchManager::new("/work".to_string())
}

fn record(id: &str, label: &str, path: &str, filter: Option<&str>) -> WatchRecord {
    WatchRecord {
        id: id.to_string(),
        label: label.to_string(),
        path: path.to_string(),
        filter: filter.map(str::to_string),
        offset: 0,
        created_at: NOW.to_string(),
    }
}

#[test]
fn cap_keeps_tail() {
    let (text, skipped) = cap_tail("aaaabbbb", 4);
    assert_eq!(text, "bbbb");
    assert_eq!(skipped, 4);
}

#[test]
fn cap_respects_char_boundary() {
    let s = "aé日本語end";
    let (text, _) = cap_tail(s, 4);
    assert!(s.ends_with(&text));
    assert!(!text.is_empty());
}

#[test]
fn cap_rounds_towards_the_end() {
    // Four bytes from the end stands inside the last three-byte character.
    assert_eq!(cap_tail("aé日本語end", 4), ("end".to_string(), 12));
    assert_eq!(cap_tail("aé日本語end", 6), ("語end".to_string(), 9));
    assert_eq!(cap_tail("abc", 3), ("abc".to_string(), 0));
    assert_eq!(cap_tail("語", 1), ("".to_string(), 3));
}

#[test]
fn add_remove_and_tail_appends() {
    let mut mgr = manager();
    let old = "old content\n";
    let rec = mgr.add("/work/out.log", "test watch", None, old.len() as u64, NOW).unwrap();
    assert_eq!(rec.offset, old.len() as u64); // starts at the end of the file

    let grown = "old content\nBUILD FAILED here\n";
    let size = grown.len() as u64;
    let (tail, next) = tail_of(&rec);
    assert_eq!(next, Next::Look { after_ms: POLL_MS });
    let (tail, next) = look(&tail, Some(size), 0);
    assert_eq!(next, Next::Look { after_ms: DEBOUNCE_MS });
    let (tail, next) = look(&tail, Some(size), DEBOUNCE_MS);
    assert_eq!(next, Next::Read { from: 12, to: 30 });
    let bytes = grown.as_bytes()[12..30].to_vec();
    let (tail, next, event) = read(&rec, &tail, 30, Some(bytes));
    assert_eq!(next, Next::Look { after_ms: POLL_MS });
    assert_eq!(tail, Tail { offset: 30, phase: Phase::Watching });
    let ev = match event {
        Some(ev) => ev,
        None => panic!("watch should fire"),
    };
    assert_eq!(ev.appended, "BUILD FAILED here\n");
    assert_eq!(ev.skipped, 0);
    assert_eq!(ev.new_offset, 30);
    assert_eq!(ev.id, "watch-1");
    assert_eq!(ev.label, "test watch");
    assert_eq!(ev.path, "/work/out.log");

    assert_eq!(mgr.remove("test watch").unwrap(), "test watch");
    assert!(mgr.records().is_empty());
}

#[test]
fn filter_must_be_valid_regex() {
    let mut mgr = WatchManager::new("/tmp".to_string());
    assert!(mgr.add("x.log", "bad", Some("(unclosed"), 0, NOW).is_err());
}

#[test]
fn a_refused_filter_says_why_and_adds_nothing() {
    let mut mgr = manager();
    match mgr.add("x.log", "bad", Some("(unclosed"), 0, NOW) {
        Err(e) => {
            assert!(e.starts_with("filter is not a valid regex: "));
            assert!(e.contains("unclosed group"));
        }
        Ok(_) => panic!("the filter should be refused"),
    }
    assert!(mgr.records().is_empty());
    assert_eq!(mgr.counter(), 0);
    assert!(mgr.add("x.log", "good", Some("^ERR"), 7, NOW).is_ok());
    assert_eq!(mgr.records()[0].id, "watch-1");
    assert_eq!(mgr.records()[0].path, "/work/x.log");
    assert_eq!(mgr.records()[0].filter, Some("^ERR".to_string()));
    assert_eq!(mgr.records()[0].offset, 7);
    assert_eq!(mgr.records()[0].created_at, NOW);
}

#[test]
fn one_file_is_watched_once() {
    let mut mgr = manager();
    mgr.add("a.log", "first", None, 0, NOW).unwrap();
    match mgr.add("/work/a.log", "second", None, 0, NOW) {
        Err(e) => assert_eq!(
            e,
            "`/work/a.log` is already being watched — remove it first to change the filter."
        ),
        Ok(_) => panic!("the file is watched already"),
    }
    assert_eq!(mgr.records().len(), 1);
}

#[test]
fn watches_are_limited() {
    let mut mgr = manager();
    for i in 0..MAX_WATCHES {
        mgr.add(&format!("{i}.log"), "w", None, 0, NOW).unwrap();
    }
    match mgr.add("more.log", "w", None, 0, NOW) {
        Err(e) => assert_eq!(
            e,
            format!("{MAX_WATCHES} watches are already active — remove one (action:\"remove\") before adding more.")
        ),
        Ok(_) => panic!("there is no room"),
    }
    assert_eq!(mgr.records().len(), MAX_WATCHES);
}

#[test]
fn a_watch_is_removed_by_id_label_or_path() {
    for key in ["watch-2", "two", "/work/2.log", "2.log"] {
        let mut mgr = manager();
        mgr.add("1.log", "one", None, 0, NOW).unwrap();
        mgr.add("2.log", "two", None, 0, NOW).unwrap();
        assert_eq!(mgr.remove(key).unwrap(), "two");
        assert_eq!(mgr.records().len(), 1);
        assert_eq!(mgr.records()[0].label, "one");
    }
}

#[test]
fn an_unknown_watch_is_named_with_the_known_ones() {
    let mut mgr = manager();
    match mgr.remove("x") {
        Err(e) => assert_eq!(e, "no watch matches `x`. Active: []."),
        Ok(_) => panic!("nothing is watched"),
    }
    mgr.add("1.log", "one", None, 0, NOW).unwrap();
    mgr.add("2.log", "two", None, 0, NOW).unwrap();
    match mgr.remove("x") {
        Err(e) => assert_eq!(
            e,
            "no watch matches `x`. Active: [\"one\" (watch-1), \"two\" (watch-2)]."
        ),
        Ok(_) => panic!("x is not watched"),
    }
}

#[test]
fn restored_watches_keep_their_ids_free() {
    let mut mgr = manager();
    let kept = vec![
        record("watch-3", "c", "/c", None),
        record("own", "d", "/d", None),
    ];
    mgr.restore(&kept);
    assert_eq!(mgr.counter(), 3);
    assert_eq!(mgr.records().len(), 2);
    mgr.restore(&kept);
    assert_eq!(mgr.records().len(), 2);
    assert_eq!(mgr.add("e", "e", None, 0, NOW).unwrap().id, "watch-4");
}

#[test]
fn the_id_of_a_removed_watch_is_not_given_again() {
    let mut mgr = manager();
    assert_eq!(mgr.add("a", "a", None, 0, NOW).unwrap().id, "watch-1");
    assert_eq!(mgr.add("b", "b", None, 0, NOW).unwrap().id, "watch-2");
    mgr.remove("watch-2").unwrap();
    mgr.remove("watch-1").unwrap();
    assert_eq!(mgr.add("b", "b", None, 0, NOW).unwrap().id, "watch-3");
    mgr.restore(&vec![record("watch-9", "c", "/c", None)]);
    mgr.remove("c").unwrap();
    mgr.advance_offset("watch-3", 5);
    mgr.abort_all();
    assert_eq!(mgr.add("d", "d", None, 0, NOW).unwrap().id, "watch-10");
}

#[test]
fn numbers_for_watches_run_out() {
    let mut mgr = manager();
    mgr.restore(&vec![record(&format!("watch-{}", usize::MAX), "c", "/c", None)]);
    assert_eq!(mgr.counter(), usize::MAX);
    assert!(mgr.try_add("d", "d", None, 0, NOW).is_none());
    assert_eq!(mgr.records().len(), 1);
    // What is refused anyway is refused all the same.
    assert!(matches!(mgr.try_add("d", "d", Some("(unclosed"), 0, NOW), Some(Err(_))));
    assert!(matches!(mgr.try_add("/c", "d", None, 0, NOW), Some(Err(_))));
    assert!(mgr.add("d", "d", Some("(unclosed"), 0, NOW).is_err());
    let mut mgr = manager();
    assert_eq!(mgr.try_add("d", "d", None, 0, NOW).unwrap().unwrap().id, "watch-1");
}

#[test]
fn the_delivered_offset_is_recorded() {
    let mut mgr = manager();
    mgr.add("1.log", "one", None, 5, NOW).unwrap();
    mgr.advance_offset("watch-9", 50);
    assert_eq!(mgr.records()[0].offset, 5);
    mgr.advance_offset("watch-1", 50);
    assert_eq!(mgr.records()[0].offset, 50);
    assert_eq!(mgr.abort_all(), vec!["watch-1".to_string()]);
    assert!(mgr.abort_all().is_empty());
    assert_eq!(mgr.records().len(), 1);
}

#[test]
fn a_missing_or_unchanged_file_is_looked_at_again() {
    let tail = Tail { offset: 10, phase: Phase::Watching };
    let again = Next::Look { after_ms: POLL_MS };
    assert_eq!(look(&tail, None, 0), (tail, again));
    assert_eq!(look(&tail, Some(10), 0), (tail, again));
}

#[test]
fn a_shrunken_file_is_read_from_its_start() {
    let tail = Tail { offset: 10, phase: Phase::Watching };
    let (tail, _) = look(&tail, Some(4), 0);
    assert_eq!(tail, Tail { offset: 0, phase: Phase::Settling { size: 4 } });
    let (_, next) = look(&tail, Some(4), DEBOUNCE_MS);
    assert_eq!(next, Next::Read { from: 0, to: 4 });
}

#[test]
fn a_burst_is_waited_out_for_a_while() {
    let tail = Tail { offset: 0, phase: Phase::Settling { size: 4 } };
    let (tail, next) = look(&tail, Some(9), DEBOUNCE_MS);
    assert_eq!(tail.phase, Phase::Settling { size: 9 });
    assert_eq!(next, Next::Look { after_ms: DEBOUNCE_MS });
    let (tail, next) = look(&tail, Some(20), DEBOUNCE_MAX_MS);
    assert_eq!(tail.phase, Phase::Reading { size: 20 });
    assert_eq!(next, Next::Read { from: 0, to: 20 });
}

#[test]
fn a_failed_read_is_tried_again() {
    let rec = record("watch-1", "w", "/w", None);
    let tail = Tail { offset: 3, phase: Phase::Reading { size: 9 } };
    let (tail, next, event) = read(&rec, &tail, 9, None);
    assert_eq!(tail, Tail { offset: 3, phase: Phase::Watching });
    assert_eq!(next, Next::Look { after_ms: POLL_MS });
    assert!(event.is_none());
}

#[test]
fn a_filter_gates_the_wake_and_not_the_offset() {
    let rec = record("watch-1", "w", "/w", Some("ERR[0-9]+"));
    let tail = Tail { offset: 0, phase: Phase::Reading { size: 3 } };
    let (tail, _, event) = read(&rec, &tail, 3, Some(b"ok\n".to_vec()));
    assert!(event.is_none());
    assert_eq!(tail.offset, 3);
    let tail = Tail { offset: 3, phase: Phase::Reading { size: 9 } };
    let (tail, _, event) = read(&rec, &tail, 9, Some(b"ERR42\n".to_vec()));
    assert_eq!(tail.offset, 9);
    assert_eq!(event.map(|e| e.appended), Some("ERR42\n".to_string()));
}

#[test]
fn bytes_that_are_no_text_are_replaced() {
    let rec = record("watch-1", "w", "/w", None);
    let tail = Tail { offset: 0, phase: Phase::Reading { size: 3 } };
    let (_, _, event) = read(&rec, &tail, 3, Some(vec![b'a', 0xff, b'b']));
    assert_eq!(event.map(|e| e.appended), Some("a\u{fffd}b".to_string()));
}

#[test]
fn a_large_delta_is_capped() {
    let rec = record("watch-1", "w", "/w", None);
    let delta = "x".repeat(MAX_DELIVER_BYTES) + "end";
    let size = delta.len() as u64;
    match wake(&rec, &delta, None, size) {
        Some(e) => {
            assert_eq!(e.skipped, 3);
            assert_eq!(e.appended.len(), MAX_DELIVER_BYTES);
            assert!(e.appended.ends_with("end"));
            assert_eq!(e.new_offset, size);
        }
        None => panic!("watch should fire"),
    }
    assert!(wake(&rec, &delta, Some(false), size).is_none());
    assert!(wake(&rec, &delta, Some(true), size).is_some());
}
