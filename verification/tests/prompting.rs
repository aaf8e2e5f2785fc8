//! The prompt: editing, history, pastes, attachments and layout.
use snippet::keyboard::Edit;
use snippet::messages::{count_attachments, strip_attachment_markers};
use snippet::prompt::{dropped_path, is_image_path, layout_input, Attachment, Prompt};

fn prompt(s: &str) -> Prompt {
    let mut p = Prompt::new();
    p.set(s.to_string());
    p
}

fn shown(p: &Prompt) -> (&str, usize) {
    (p.input().as_str(), p.cursor())
}

#[test]
fn typing_and_deleting() {
    let mut p = Prompt::new();
    for c in "héllo".chars() {
        p.insert(c);
    }
    assert_eq!(shown(&p), ("héllo", 5));
    p.move_left();
    p.move_left();
    p.insert('X');
    assert_eq!(shown(&p), ("hélXlo", 4));
    assert_eq!(p.backspace(), None);
    assert_eq!(shown(&p), ("héllo", 3));
    p.delete();
    assert_eq!(shown(&p), ("hélo", 3));
    p.move_end();
    p.delete();
    assert_eq!(shown(&p), ("hélo", 4));
    p.move_home();
    assert_eq!(p.backspace(), None);
    p.move_left();
    assert_eq!(shown(&p), ("hélo", 0));
    p.move_right();
    assert_eq!(shown(&p), ("hélo", 1));
}

#[test]
fn words_are_skipped_and_deleted() {
    let mut p = prompt("one  two three");
    assert_eq!(p.prev_word(), 9);
    p.move_prev_word();
    p.move_prev_word();
    assert_eq!(p.cursor(), 5);
    assert_eq!(p.next_word(), 8);
    p.delete_word_forward();
    assert_eq!(shown(&p), ("one   three", 5));
    p.delete_word_back();
    assert_eq!(shown(&p), (" three", 0));
    p.move_next_word();
    assert_eq!(p.cursor(), 6);
    p.move_home();
    p.move_right();
    p.delete_to_start();
    assert_eq!(shown(&p), ("three", 0));
    p.move_right();
    p.move_right();
    p.delete_to_end();
    assert_eq!(shown(&p), ("th", 2));
}

#[test]
fn edits_are_applied() {
    let mut p = prompt("one two");
    p.apply(Edit::WordBack);
    p.apply(Edit::Insert('x'));
    assert_eq!(shown(&p), ("one x", 5));
    p.apply(Edit::Home);
    p.apply(Edit::ToEnd);
    assert_eq!(shown(&p), ("", 0));
}

#[test]
fn lines_keep_the_column() {
    let mut p = prompt("abcd\nx\nefgh");
    assert!(!p.on_first_line() && p.on_last_line());
    p.move_up();
    assert_eq!(p.cursor(), 6);
    p.move_up();
    assert_eq!(p.cursor(), 1);
    assert!(p.on_first_line());
    p.move_up();
    assert_eq!(p.cursor(), 1);
    p.move_down();
    assert_eq!(p.cursor(), 6);
    p.move_down();
    assert_eq!(p.cursor(), 8);
    p.move_down();
    assert_eq!(p.cursor(), 8);
}

#[test]
fn history_is_recalled_and_left_again() {
    let mut p = Prompt::new();
    assert!(!p.recall_prev());
    p.remember("first");
    p.remember("second");
    p.remember("second");
    p.set("draft".to_string());
    assert!(!p.recall_next());
    assert!(p.recall_prev());
    assert_eq!(shown(&p), ("second", 6));
    assert!(p.recall_prev());
    assert_eq!(shown(&p), ("first", 5));
    assert!(p.recall_prev());
    assert_eq!(shown(&p), ("first", 5));
    assert!(p.recall_next());
    assert_eq!(shown(&p), ("second", 6));
    assert!(p.recall_next());
    assert_eq!(shown(&p), ("draft", 5));
    assert!(!p.recall_next());
}

#[test]
fn large_pastes_are_collapsed_and_expanded() {
    let mut p = prompt("see ");
    p.paste("one line");
    assert_eq!(shown(&p), ("see one line", 12));
    p.paste("a\r\nb");
    assert_eq!(p.input(), "see one line[Pasted #1 · 2 lines]");
    let long = "x".repeat(201);
    p.paste(&long);
    assert_eq!(p.input(), "see one line[Pasted #1 · 2 lines][Pasted #2 · 1 line]");
    assert_eq!(p.expand(), format!("see one linea\nb{long}"));
    p.clear();
    assert_eq!(p.expand(), "");
}

#[test]
fn attachments_go_with_the_message() {
    let mut p = prompt("look");
    p.attach(Attachment { image: true, path: "/s/a.png".to_string(), name: "a.png".to_string() });
    p.attach(Attachment { image: false, path: "/s/b.txt".to_string(), name: "b.txt".to_string() });
    let sent = p.message_for_send();
    assert_eq!(
        sent,
        "look\n[attached image — call read_image on this exact path to view it: /s/a.png]\n[attached file — read it at this exact path: /s/b.txt]"
    );
    // What is sent as a marker is hidden and counted.
    assert_eq!(strip_attachment_markers(&sent), "look");
    assert_eq!(count_attachments(&sent), (1, 1));
    // So it is behind a text that ends with a carriage return.
    let behind = format!("look\r{}", &sent["look".len()..]);
    assert_eq!(strip_attachment_markers(&behind), strip_attachment_markers("look\r"));
    assert_eq!(count_attachments(&behind), (1, 1));
    p.move_home();
    assert_eq!(p.backspace(), Some("attachment removed · 📎 1 left".to_string()));
    assert_eq!(p.backspace(), Some("attachment removed".to_string()));
    assert_eq!(p.backspace(), None);
    assert_eq!(p.attachment_count(), 0);
    assert_eq!(p.message_for_send(), "look");
}

#[test]
fn dropped_paths_are_unquoted() {
    assert_eq!(dropped_path(" '/a b.png' "), Some("/a b.png".to_string()));
    assert_eq!(dropped_path("\"/a\""), Some("/a".to_string()));
    assert_eq!(dropped_path("/a\\ b"), Some("/a b".to_string()));
    assert_eq!(dropped_path("/a\\\\b"), Some("/a\\b".to_string()));
    assert_eq!(dropped_path("  "), None);
    assert_eq!(dropped_path("''"), None);
    assert_eq!(dropped_path("'"), Some("'".to_string()));
    assert!(is_image_path("/a/b.PNG"));
    assert!(is_image_path("x.heif"));
    assert!(!is_image_path("x.txt"));
    assert!(!is_image_path(".png"));
}

#[test]
fn input_is_laid_out_in_rows() {
    let rows = |v: &[&str]| v.iter().map(|s| s.to_string()).collect::<Vec<_>>();
    assert_eq!(layout_input("abcde", 3, 3), (rows(&["abc", "de"]), (1, 0)));
    assert_eq!(layout_input("abc", 3, 3), (rows(&["abc"]), (0, 3)));
    assert_eq!(layout_input("ab\ncd", 2, 5), (rows(&["ab", "cd"]), (0, 2)));
    assert_eq!(layout_input("ab\n", 3, 5), (rows(&["ab", ""]), (1, 0)));
    assert_eq!(layout_input("", 0, 0), (rows(&[""]), (0, 0)));
    assert_eq!(layout_input("ab", 9, 0), (rows(&["a", "b"]), (1, 1)));
    let (laid, _) = layout_input("one two\nthree", 0, 4);
    assert_eq!(laid.concat(), "one twothree");
}
