//! Wrapping, Markdown, tables, tools, results and the transcript.
use snippet::blocks::{
    compaction_divider, marker_block, result_block, result_block_verbatim, tool_prune_divider,
};
use snippet::events::{
    Checkpoint, GoalStatus, HarnessEvent, HarnessState, HarnessStatus, LaneRecord, LaneStatus,
};
use snippet::figures::{fmt_si, home_path, rate_window_label};
use snippet::json::Json;
use snippet::markdown::{center_line, heading_text, is_thematic_break, parse_inline_md};
use snippet::mascot::mascot_halfblock_lines;
use snippet::messages::{
    attachment_summary, count_attachments, present_file_lines, split_audio_sections, steer_lines,
    strip_attachment_markers, user_lines,
};
use snippet::prose::render_prose;
use snippet::results::{
    bash_result_items, result_has_body, tool_is_expandable, tool_result_lines,
    tool_result_lines_expanded, tool_result_oneliner,
};
use snippet::style::{colored, line1, line2, raw_span, span, unstyled, Color, Line, Span, Style};
use snippet::table::{cell_align, is_table_separator, render_md_table, split_table_cells, CellAlign};
use snippet::theme::{accent, code, danger, faint, ink, muted, success, warn};
use snippet::tools::{
    ellipsize_one_line, tool_call_head_lines_status, tool_call_lines, tool_call_parts,
    tool_call_preview, ToolRowStatus,
};
use snippet::transcript::{
    empty_state_lines, event_lines, lane_completed_lines, thinking_lines, transcript_lines,
    turn_has_visible_action, Activity, LANE_PREVIEW_LINES,
};
use snippet::wrap::{hard_chunks, wrap_code_line, wrap_one, wrap_runs};

fn shown(l: &Line) -> String {
    l.spans.iter().map(|s| s.text.as_str()).collect::<Vec<_>>().concat()
}

fn all_shown(list: &[Line]) -> Vec<String> {
    list.iter().map(shown).collect()
}

fn text(s: &str) -> Json {
    Json::Text(s.to_string())
}

fn object(members: Vec<(&str, Json)>) -> Json {
    Json::Object(members.into_iter().map(|(k, v)| (k.to_string(), v)).collect())
}

fn number(n: u64) -> Json {
    Json::Number { notation: n.to_string(), unsigned: Some(n) }
}

fn state(events: Vec<HarnessEvent>) -> HarnessState {
    HarnessState {
        status: HarnessStatus::Idle,
        title: None,
        user_request: "".to_string(),
        initial_request: None,
        events,
        lanes: vec![],
        checkpoints: Vec::<Checkpoint>::new(),
        pending_question: None,
        manual_approval: false,
        goal: None::<GoalStatus>,
        watching: 0,
        prompt_tokens: 0,
        completion_tokens: 0,
        cache_read_tokens: 0,
        total_tokens: 0,
        last_prompt_tokens: 0,
    }
}

fn at_rest() -> Activity {
    Activity { alive: false, compacting: false, thinking: "".to_string(), live: "".to_string() }
}

fn user(s: &str) -> HarnessEvent {
    HarnessEvent::UserInput { text: s.to_string() }
}

fn says(s: &str) -> HarnessEvent {
    HarnessEvent::AssistantText { text: s.to_string() }
}

fn call(tool: &str, arguments: Json) -> HarnessEvent {
    HarnessEvent::ToolCall { tool_name: tool.to_string(), arguments }
}

fn answer(tool: &str, result: Json) -> HarnessEvent {
    HarnessEvent::ToolResult { tool_name: tool.to_string(), result }
}

// --- wrapping ---

#[test]
fn chunks_are_full_but_for_the_last() {
    assert_eq!(hard_chunks("abcdefgh", 3), vec!["abc", "def", "gh"]);
    assert_eq!(hard_chunks("日本語", 2), vec!["日本", "語"]);
    assert!(hard_chunks("", 3).is_empty());
}

#[test]
fn words_are_wrapped() {
    assert_eq!(wrap_one("one two three four", 10), vec!["one two", "three four"]);
    assert_eq!(wrap_one("a  b", 10), vec!["a b"]);
    assert_eq!(wrap_one("x\n\ny", 10), vec!["x", "", "y"]);
    // A narrower width counts as ten.
    assert_eq!(wrap_one("one two three four", 2), vec!["one two", "three four"]);
    assert_eq!(wrap_one("go abcdefghijklm x", 10), vec!["go", "abcdefghij", "klm x"]);
    assert_eq!(wrap_one("abcdefghij", 10), vec!["abcdefghij"]);
    assert_eq!(wrap_one("", 10), vec![""]);
    // Spaces at the ends of a line are dropped, and no line that fits is left over.
    assert_eq!(wrap_one("  a   bcdefgh  ij  ", 10), vec!["a bcdefgh", "ij"]);
    assert_eq!(wrap_one(" \n  x", 10), vec!["", "x"]);
    assert_eq!(wrap_one("aaa bbb cc d e", 10), vec!["aaa bbb cc", "d e"]);
}

#[test]
fn code_keeps_its_indent() {
    assert_eq!(wrap_code_line("\tx", 10), vec!["    x"]);
    assert_eq!(wrap_code_line("  abcdefghijkl", 10), vec!["  abcdefgh", "  ijkl"]);
    assert_eq!(wrap_code_line("a  b", 10), vec!["a  b"]);
}

#[test]
fn runs_keep_their_style_when_wrapped() {
    let runs = vec![
        Span { text: "plain words".to_string(), style: colored(ink()) },
        Span { text: "bold ones".to_string(), style: colored(ink()).bolded() },
    ];
    let lines = wrap_runs(&runs, 12);
    assert_eq!(all_shown(&lines), vec!["plain words", "bold ones"]);
    assert!(lines[1].spans[0].style.bold);
    assert!(!lines[0].spans[0].style.bold);
    assert_eq!(all_shown(&wrap_runs(&vec![], 12)), vec![""]);
}

// --- Markdown ---

#[test]
fn headings_and_breaks_are_recognised() {
    assert_eq!(heading_text("## Title"), Some("Title".to_string()));
    assert_eq!(heading_text("#### Deep"), Some("Deep".to_string()));
    assert_eq!(heading_text("##### Deeper"), None);
    assert_eq!(heading_text("#Tag"), None);
    assert!(is_thematic_break("---"));
    assert!(is_thematic_break(" * * * "));
    assert!(!is_thematic_break("--"));
    assert!(!is_thematic_break("--*"));
    assert!(!is_thematic_break(""));
}

#[test]
fn inline_markup_becomes_style() {
    let base = colored(ink());
    let runs = parse_inline_md("a **b** `c_d` *e* _f_ 2*3", base);
    let texts: Vec<&str> = runs.iter().map(|r| r.text.as_str()).collect();
    assert_eq!(texts, vec!["a ", "b", " ", "c_d", " ", "e", " ", "f", " 2*3"]);
    assert_eq!(runs[1].style, base.bolded());
    assert_eq!(runs[3].style, colored(code()));
    assert_eq!(runs[5].style, base.slanted());
    assert_eq!(runs[7].style, base.slanted());
    assert_eq!(runs[8].style, base);
    assert_eq!(parse_inline_md("plain", base).len(), 1);
    assert!(parse_inline_md("", base).is_empty());
}

#[test]
fn prose_is_rendered() {
    let lines = render_prose("# Head\n\n- item **one**\n---\n```\n  let x = 1;\n```\nend", 20);
    assert_eq!(
        all_shown(&lines),
        vec![
            "Head".to_string(),
            "".to_string(),
            "• item one".to_string(),
            "─".repeat(20),
            "    let x = 1;".to_string(),
            "end".to_string(),
        ]
    );
    assert_eq!(lines[0].spans[0].style, colored(accent()).bolded());
    assert_eq!(lines[4].spans[1].style, colored(code()));
    assert_eq!(all_shown(&render_prose("", 20)), vec![""]);
    assert_eq!(all_shown(&render_prose("    kept  _as is_", 30)), vec!["      kept  _as is_"]);
}

#[test]
fn a_line_is_centred() {
    assert_eq!(shown(&center_line(line1(raw_span("ab")), 7)), "  ab");
    // Wide characters take two columns each.
    assert_eq!(shown(&center_line(line1(raw_span("日本")), 8)), "  日本");
    assert_eq!(shown(&center_line(line1(raw_span("abc")), 3)), "abc");
}

// --- tables ---

#[test]
fn table_rows_are_split() {
    assert_eq!(split_table_cells("| a | b |"), vec!["a", "b"]);
    assert_eq!(split_table_cells("a | b"), vec!["a", "b"]);
    assert_eq!(split_table_cells(""), vec![""]);
    assert!(is_table_separator("|---|:--:|"));
    assert!(!is_table_separator("| a | b |"));
    assert!(!is_table_separator("|:|"));
    for row in ["| -:- |", "|::|", "|::-|", "|-::|", "|:-:-:|", "|- -|", "||", "|---||"] {
        assert!(!is_table_separator(row), "{row}");
    }
    for row in ["|-|", "-", "| :- | -: |", "|:-:|", "---|---"] {
        assert!(is_table_separator(row), "{row}");
    }
    assert_eq!(cell_align(":-:"), CellAlign::Center);
    assert_eq!(cell_align("-:"), CellAlign::Right);
    assert_eq!(cell_align(":-"), CellAlign::Left);
}

#[test]
fn a_table_is_aligned() {
    let lines = render_prose("| n | name |\n|--:|:-:|\n| 1 | x |\n| 22 | long | extra |\nend", 40);
    assert_eq!(
        all_shown(&lines),
        vec![
            " n │    name   ".to_string(),
            format!("───┼{}", "─".repeat(11)),
            " 1 │     x     ".to_string(),
            "22 │ long extra".to_string(),
            "end".to_string(),
        ]
    );
    assert!(lines[0].spans.iter().any(|s| s.text == "name" && s.style.bold));
    assert_eq!(lines[1].spans[0].style, colored(faint()));
}

#[test]
fn the_columns_of_a_table_line_up() {
    let text = "| name | what it is for | n |\n|---|:-:|--:|\n| a | some longer words that have to be wrapped | 1 |\n| bb | x | 22 |";
    for width in [30, 40, 80] {
        let lines = all_shown(&render_prose(text, width));
        let size = lines[0].chars().count();
        assert!(lines.len() >= 4);
        for line in &lines {
            assert_eq!(line.chars().count(), size, "{line}");
        }
    }
}

#[test]
fn the_widest_column_gives_way() {
    let header = vec!["a".to_string(), "b".to_string()];
    let body = vec![vec!["short".to_string(), "one two three four five six".to_string()]];
    let lines = render_md_table(&header, &vec![CellAlign::Left, CellAlign::Left], &body, 24);
    // The first column keeps its five columns; the second has the rest.
    assert_eq!(
        all_shown(&lines),
        vec![
            format!("a     │ b{}", " ".repeat(15)),
            format!("──────┼{}", "─".repeat(17)),
            "short │ one two three   ".to_string(),
            "      │ four five six   ".to_string(),
        ]
    );
}

// --- blocks ---

#[test]
fn blocks_hang_below_a_bar() {
    let lines = result_block(&vec![span("one two three four", colored(muted()))], 14);
    assert_eq!(all_shown(&lines), vec!["  │ one two", "    three four"]);
    assert!(lines[0].spans[0].style.dim && lines[0].spans[1].style.dim);
    let lines = result_block_verbatim(&vec![raw_span("  x"), raw_span("y")], 14);
    assert_eq!(all_shown(&lines), vec!["  │   x", "    y"]);
    let lines = marker_block("✗", danger(), "one two three four", 12);
    assert_eq!(all_shown(&lines), vec!["✗ one two", "  three four"]);
    assert_eq!(lines[0].spans[0].style, colored(danger()).bolded());
    assert_eq!(lines[0].spans[1].style, colored(danger()));
}

#[test]
fn dividers_are_centred() {
    let label = " ✦ context compacted ";
    let lines = compaction_divider(31);
    assert_eq!(all_shown(&lines), vec!["".to_string(), format!("─────{label}─────"), "".to_string()]);
    assert_eq!(
        shown(&tool_prune_divider(500)[1]),
        format!("{0} ▸ older tools pruned {0}", "─".repeat(36))
    );
    assert_eq!(shown(&compaction_divider(3)[1]), label);
}

// --- figures ---

#[test]
fn counts_are_abbreviated() {
    assert_eq!(fmt_si(512), "512");
    assert_eq!(fmt_si(999), "999");
    assert_eq!(fmt_si(1_000), "1k");
    assert_eq!(fmt_si(128_400), "128k");
    // A half goes to the even neighbour.
    assert_eq!(fmt_si(1_500), "2k");
    assert_eq!(fmt_si(2_500), "2k");
    assert_eq!(fmt_si(999_999), "1000k");
    assert_eq!(fmt_si(1_000_000), "1M");
    assert_eq!(fmt_si(91_234_567), "91M");
}

#[test]
fn counts_are_rounded_as_fractions_are() {
    let mut n: u64 = 1;
    while n < u64::MAX / 7 {
        for m in [n, n + 1, n - 1, n * 5, n * 5 / 2 * 2 + 500] {
            let expected = if m >= 1_000_000 {
                format!("{:.0}M", m as f64 / 1_000_000.0)
            } else if m >= 1000 {
                format!("{:.0}k", m as f64 / 1000.0)
            } else {
                m.to_string()
            };
            assert_eq!(fmt_si(m), expected, "{m}");
        }
        n = n * 3 / 2 + 1;
    }
    for m in (500..2_000_000).step_by(500) {
        let expected = if m >= 1_000_000 {
            format!("{:.0}M", m as f64 / 1_000_000.0)
        } else if m >= 1000 {
            format!("{:.0}k", m as f64 / 1000.0)
        } else {
            m.to_string()
        };
        assert_eq!(fmt_si(m), expected, "{m}");
    }
    assert_eq!(fmt_si(u64::MAX), format!("{:.0}M", u64::MAX as f64 / 1_000_000.0));
}

#[test]
fn windows_have_names() {
    assert_eq!(rate_window_label(300), "5h");
    assert_eq!(rate_window_label(285), "5h");
    assert_eq!(rate_window_label(315), "5h");
    assert_eq!(rate_window_label(316), "5h");
    assert_eq!(rate_window_label(1440), "daily");
    assert_eq!(rate_window_label(10080), "wk");
    assert_eq!(rate_window_label(43200), "mo");
    assert_eq!(rate_window_label(120), "2h");
    assert_eq!(rate_window_label(30), "1h");
    assert_eq!(rate_window_label(0), "limit");
    assert_eq!(rate_window_label(-5), "limit");
}

#[test]
fn windows_are_named_within_a_twentieth() {
    for minutes in -100..60_000i64 {
        let near = |t: i64| (minutes - t).abs() as f64 <= (t as f64) * 0.05;
        let expected = if near(300) {
            "5h".to_string()
        } else if near(1440) {
            "daily".to_string()
        } else if near(10080) {
            "wk".to_string()
        } else if near(43200) {
            "mo".to_string()
        } else if minutes > 0 {
            format!("{}h", (minutes / 60).max(1))
        } else {
            "limit".to_string()
        };
        assert_eq!(rate_window_label(minutes), expected, "{minutes}");
    }
}

#[test]
fn the_home_directory_is_a_tilde() {
    assert_eq!(home_path("/home/u/src", Some("/home/u")), "~/src");
    assert_eq!(home_path("/home/u", Some("/home/u")), "~");
    assert_eq!(home_path("/etc", Some("/home/u")), "/etc");
    assert_eq!(home_path("/etc", None), "/etc");
    assert_eq!(home_path("/etc", Some("")), "/etc");
    assert_eq!(home_path("/home/user2", Some("/home/u")), "~ser2");
}

// --- messages ---

const IMAGE: &str = "[attached image — a.png at /tmp/a.png]";
const FILE: &str = "  [attached file — b.txt at /tmp/b.txt]";

#[test]
fn attachment_markers_are_hidden_and_counted() {
    let sent = format!("look\n{IMAGE}\n{FILE}\n[attached file — open");
    assert_eq!(strip_attachment_markers(&sent), "look\n[attached file — open");
    assert_eq!(count_attachments(&sent), (1, 1));
    assert_eq!(attachment_summary(2, 1), "📎 2 images · 1 file");
    assert_eq!(attachment_summary(0, 3), "📎 3 files");
    assert_eq!(strip_attachment_markers("kept \n\n"), "kept");
}

#[test]
fn voice_messages_are_told_apart() {
    let sent = "hello\n[Audio transcript for /tmp/v/note.wav]\n first\nsecond \n[Audio transcription unavailable: no key]\nbye";
    let (prose, audio) = split_audio_sections(sent);
    assert_eq!(prose, "hello\nbye");
    assert_eq!(
        audio,
        vec![
            ("note.wav".to_string(), "first\nsecond".to_string()),
            ("voice".to_string(), "(transcription unavailable: no key)".to_string()),
        ]
    );
}

#[test]
fn user_messages_are_bold() {
    let lines = user_lines(&format!("hello there\n{IMAGE}"), 40);
    assert_eq!(all_shown(&lines), vec!["hello there", "📎 1 image"]);
    assert_eq!(lines[0].spans[1].style, colored(ink()).bolded());
    assert_eq!(lines[1].spans[1].style, colored(muted()));
    assert_eq!(all_shown(&user_lines("", 40)), vec![""]);
    let lines = user_lines("[Audio transcript for v.wav]\n", 40);
    assert_eq!(all_shown(&lines), vec!["voice · v.wav", "(no speech detected)"]);
}

#[test]
fn steering_is_labelled() {
    let lines = steer_lines("turn left", 40);
    assert_eq!(all_shown(&lines), vec!["steer", "turn left"]);
    assert!(lines[0].spans[1].style.italic);
}

#[test]
fn a_presented_file_is_named() {
    let lines = present_file_lines("/work/out/report.md", Some("  the report "), 40);
    assert_eq!(all_shown(&lines), vec!["file report.md", "/work/out/report.md", "the report"]);
    assert_eq!(lines[0].spans[1].style, colored(accent()).bolded());
    assert_eq!(lines[1].spans[1].style, colored(faint()));
    assert_eq!(lines[2].spans[1].style, colored(muted()));
    assert_eq!(all_shown(&present_file_lines("report.md", Some(" "), 40)), vec!["file report.md"]);
}

// --- tools ---

#[test]
fn calls_have_a_verb_and_a_target() {
    let parts = |tool: &str, members: Vec<(&str, Json)>| tool_call_parts(tool, &object(members));
    let pair = |a: &str, b: &str| (a.to_string(), b.to_string());
    assert_eq!(parts("read_file", vec![("path", text("a.rs"))]), pair("Read", "a.rs"));
    assert_eq!(parts("list_files", vec![]), pair("List", "."));
    assert_eq!(parts("search_files", vec![("query", text("q"))]), pair("Search", "q"));
    assert_eq!(
        parts("code_map", vec![("query", text("q")), ("path", text("p"))]),
        pair("Map", "p · q")
    );
    assert_eq!(parts("code_map", vec![]), pair("Map", "."));
    assert_eq!(
        parts("bash", vec![("command", text("ls   -l\nrm x"))]),
        pair("Bash", "ls -l …")
    );
    assert_eq!(
        parts("memory_write", vec![("id", text("k")), ("content", text("a\nb"))]),
        pair("MemoryWrite", "k · 2 lines")
    );
    assert_eq!(parts("memory_index", vec![]), pair("MemoryIndex", "0 lines"));
    assert_eq!(parts("my_own__tool", vec![("name", text("n"))]), pair("MyOwnTool", "n"));
    assert_eq!(parts("éclair_ßx", vec![("id", text("i"))]), pair("ÉclairSSx", "i"));
    assert_eq!(
        parts("other", vec![("deep", Json::Array(vec![number(1), Json::Bool(true)]))]),
        pair("Other", "{\"deep\":[1,true]}")
    );
    // The first of the label fields decides, though it holds no text.
    assert_eq!(
        parts("other", vec![("path", number(7)), ("id", text("i"))]),
        pair("Other", "{\"path\":7,\"id\":\"i\"}")
    );
}

#[test]
fn long_texts_are_cut_to_one_line() {
    assert_eq!(ellipsize_one_line("  a   b ", 10), "a b");
    assert_eq!(ellipsize_one_line("abcdef", 3), "abc …");
    assert_eq!(ellipsize_one_line("a\nb", 10), "a …");
    assert_eq!(ellipsize_one_line("", 10), "");
}

#[test]
fn a_call_stands_on_one_row_where_it_fits() {
    let args = object(vec![("path", text("src/main.rs"))]);
    let lines = tool_call_head_lines_status("read_file", &args, 40, ToolRowStatus::Failed);
    assert_eq!(all_shown(&lines), vec!["● Read(src/main.rs)"]);
    assert_eq!(lines[0].spans[0].style, colored(danger()));
    assert_eq!(lines[0].spans[1].style, colored(warn()).bolded());
    let args = object(vec![("path", text("one two three four"))]);
    let lines = tool_call_head_lines_status("read_file", &args, 14, ToolRowStatus::Done);
    assert_eq!(all_shown(&lines), vec!["● Read(", "    one two", "    three four)"]);
    assert_eq!(lines[0].spans[0].style, colored(success()));
    let lines = tool_call_lines("read_file", &object(vec![]), 40, true);
    assert_eq!(all_shown(&lines), vec!["● Read"]);
}

#[test]
fn previews_show_what_a_call_will_do() {
    let long = (1..=8).map(|i| format!("l{i}")).collect::<Vec<_>>().join("\n");
    let args = object(vec![("path", text("a.rs")), ("content", text(&long))]);
    assert_eq!(
        all_shown(&tool_call_preview("write_file", &args, 40)),
        vec![
            "  │ → a.rs", "    ", "      l1", "      l2", "      l3", "      l4", "      l5",
            "      l6", "    ", "      … +2 more lines",
        ]
    );
    let args = object(vec![
        ("path", text("a.rs")),
        ("old_string", text("was")),
        ("new_string", text("is")),
    ]);
    let lines = tool_call_preview("edit_file", &args, 40);
    assert_eq!(all_shown(&lines), vec!["  │ → a.rs", "    ", "      was", "    ", "      is"]);
    assert_eq!(lines[2].spans[1].style, colored(danger()).dimmed());
    assert_eq!(lines[4].spans[1].style, colored(success()).dimmed());
    assert!(tool_call_preview("read_file", &args, 40).is_empty());
    let args = object(vec![("scope", text("repo")), ("content", text(" "))]);
    assert_eq!(
        all_shown(&tool_call_preview("memory_rule", &args, 40)),
        vec!["  │ scope  repo", "      (empty)"]
    );
}

// --- results ---

#[test]
fn results_are_summed_up() {
    let one = |tool: &str, r: Json| all_shown(&tool_result_lines(tool, &r, 60));
    assert_eq!(
        one("read_file", object(vec![("data", object(vec![("content", text("a\nb\n"))]))])),
        vec!["  │ Read 2 lines"]
    );
    assert_eq!(
        one("write_file", object(vec![("path", text("a.rs"))])),
        vec!["  │ Wrote a.rs"]
    );
    let entries = Json::Array(vec![
        object(vec![("name", text("a"))]),
        object(vec![("size", number(1))]),
        object(vec![("name", text("b"))]),
    ]);
    assert_eq!(
        one("list_files", object(vec![("entries", entries)])),
        vec!["  │ 3 entries", "    a b"]
    );
    assert_eq!(
        one("web_search", object(vec![("count", number(4))])),
        vec!["  │ 4 web results"]
    );
    assert_eq!(one("web_read", object(vec![("text", text("日本"))])), vec!["  │ Read 2 chars"]);
    assert_eq!(one("other", object(vec![("status", text("ok"))])), vec!["  │ ok"]);
    assert!(one("other", object(vec![])).is_empty());
    let failed = object(vec![
        ("status", text("error")),
        ("error", object(vec![("message", text("no such file"))])),
    ]);
    assert_eq!(one("read_file", failed), vec!["  │ ✗ no such file"]);
    assert_eq!(one("bash", object(vec![("status", text("error"))])), vec!["  │ ✗ failed"]);
    let spilled = object(vec![
        ("truncated", Json::Bool(true)),
        ("original_stats", object(vec![("char_count", number(128_000))])),
        ("saved_output_path", text("/tmp/o")),
    ]);
    assert_eq!(one("bash", spilled), vec!["  │ output too large (128k chars) → /tmp/o"]);
    assert_eq!(
        one("bash", object(vec![("truncated", Json::Bool(true))])),
        vec!["  │ output too large"]
    );
}

#[test]
fn commands_are_summed_up() {
    let sum = |members: Vec<(&str, Json)>| bash_result_items(&object(members))[0].text.clone();
    assert_eq!(sum(vec![("success", Json::Bool(true))]), "ran · no output");
    assert_eq!(
        sum(vec![("success", Json::Bool(true)), ("stdout", text("x\n\n")), ("stderr", text(" "))]),
        "ran · 1 line"
    );
    assert_eq!(
        sum(vec![("exit_code", number(2)), ("stdout", text("x\ny"))]),
        "exited 2 · 2 lines"
    );
    assert_eq!(sum(vec![]), "exited ? · no output");
    assert_eq!(bash_result_items(&object(vec![]))[0].style, colored(danger()));
}

#[test]
fn expanded_results_show_the_output() {
    let open = |tool: &str, r: Json| all_shown(&tool_result_lines_expanded(tool, &r, 60));
    let data = object(vec![
        ("success", Json::Bool(true)),
        ("exit_code", number(0)),
        ("stdout", text("  a\n\nb")),
    ]);
    assert_eq!(open("bash", object(vec![("data", data)])), vec!["  │ exit 0", "      a", "    b"]);
    assert_eq!(open("bash", object(vec![])), vec!["  │ exited ?", "    no output"]);
    let found = Json::Array(vec![
        object(vec![("path", text("a.rs")), ("line_number", number(3)), ("line", text("let x"))]),
        object(vec![("path", text("b.rs")), ("text", text("y"))]),
        object(vec![("content", text("z"))]),
        object(vec![]),
    ]);
    assert_eq!(
        open("search_content", object(vec![("count", number(3)), ("matches", found)])),
        vec!["  │ 3 matches", "    a.rs:3: let x", "    b.rs: y", "    z"]
    );
    let long = (1..=26).map(|i| format!("l{i}")).collect::<Vec<_>>().join("\n");
    let lines = open("read_file", object(vec![("content", text(&long))]));
    assert_eq!(lines.len(), 26);
    assert_eq!(lines[0], "  │ 26 lines");
    assert_eq!(lines[24], "    l24");
    assert_eq!(lines[25], "    … +2 more lines");
    assert_eq!(open("memory_read", object(vec![("entry", text("e"))])), vec!["  │ e"]);
    assert_eq!(open("memory_read", object(vec![])), vec!["  │ saved"]);
    assert_eq!(
        open("memory_write", object(vec![("id", text("k"))])),
        vec!["  │ saved", "    id k"]
    );
}

#[test]
fn rows_with_more_to_show_can_be_expanded() {
    let none = object(vec![]);
    assert!(tool_is_expandable("write_file", &object(vec![("content", text("x"))]), None));
    assert!(!tool_is_expandable("write_file", &none, None));
    assert!(tool_is_expandable("bash", &object(vec![("command", text("a\nb"))]), None));
    assert!(!tool_is_expandable("bash", &object(vec![("command", text("a"))]), None));
    let body = object(vec![("data", object(vec![("stdout", text("x"))]))]);
    assert!(tool_is_expandable("bash", &none, Some(&body)));
    assert!(result_has_body(&object(vec![("status", text("error"))])));
    assert!(result_has_body(&object(vec![("entries", Json::Array(vec![Json::Null]))])));
    assert!(!result_has_body(&object(vec![("stdout", text(" "))])));
    assert!(tool_is_expandable("other", &object(vec![("id", text("a\nb"))]), None));
}

#[test]
fn a_result_has_a_brief_form() {
    assert_eq!(
        tool_result_oneliner("read_file", &object(vec![("content", text("a\nb"))])),
        Some("2 lines".to_string())
    );
}

// --- events and the transcript ---

#[test]
fn events_are_rendered() {
    let one = |e: HarnessEvent| all_shown(&event_lines(&e, 40));
    assert_eq!(one(says("hi **you**")), vec!["hi you"]);
    let note = event_lines(&HarnessEvent::Note { entry: "aside".to_string() }, 40);
    assert_eq!(all_shown(&note), vec!["· aside"]);
    assert_eq!(note[0].spans[1].style, colored(faint()).slanted().dimmed());
    let decided = |step: &str| HarnessEvent::SystemDecision {
        step: step.to_string(),
        reasoning: "why".to_string(),
    };
    assert_eq!(one(decided("approval_resolved")), vec!["⚙ approval_resolved — why"]);
    assert!(one(decided("history_compaction_pass")).is_empty());
    assert!(one(decided("history_compaction_skipped")).is_empty());
    assert_eq!(one(decided("history_compacted")).len(), 3);
    assert_eq!(one(decided("tool_payloads_pruned")).len(), 3);
    assert_eq!(
        one(HarnessEvent::LaneSpawned { id: "1".to_string(), title: "t".to_string() }),
        vec!["→ delegated: t"]
    );
    assert_eq!(
        one(HarnessEvent::InvalidToolCall { tool_name: "x".to_string(), error: "bad".to_string() }),
        vec!["  │ ✗ x: bad"]
    );
    assert!(one(HarnessEvent::ApprovalRequest {
        tool_name: "bash".to_string(),
        summary: "ls".to_string(),
        index: 1,
        total: 1,
    })
    .is_empty());
}

#[test]
fn a_report_is_collapsed() {
    let report = (1..=5).map(|i| format!("line {i}")).collect::<Vec<_>>().join("\n");
    let lines = lane_completed_lines("task", LaneStatus::Completed, Some(&report), 60, false);
    assert_eq!(lines.len(), 1 + LANE_PREVIEW_LINES + 1);
    assert_eq!(shown(&lines[0]), "◆ task [done]");
    assert_eq!(shown(&lines[4]), "  … +2 more lines · ^O to expand");
    let lines = lane_completed_lines("task", LaneStatus::Failed, Some(&report), 60, true);
    assert_eq!(lines.len(), 6);
    assert_eq!(shown(&lines[0]), "◆ task [failed]");
    assert_eq!(lane_completed_lines("t", LaneStatus::Running, Some(" "), 60, false).len(), 1);
}

#[test]
fn thinking_is_quiet() {
    let lines = thinking_lines("so *then*", 40);
    assert_eq!(all_shown(&lines), vec!["so then"]);
    let last = &lines[0].spans[lines[0].spans.len() - 1];
    assert_eq!(last.style, Style { dim: true, ..colored(muted()).slanted() });
}

#[test]
fn a_turn_is_tagged_with_its_speaker() {
    let s = state(vec![user("hi\nthere"), says("hello"), says("again")]);
    assert_eq!(
        all_shown(&transcript_lines(&s, &at_rest(), false, 0, 40)),
        vec!["> hi", "  there", "", "✦ hello", "  again"]
    );
}

#[test]
fn the_first_request_stands_for_missing_input() {
    let mut s = state(vec![says("done")]);
    s.initial_request = Some("do it".to_string());
    assert_eq!(
        all_shown(&transcript_lines(&s, &at_rest(), false, 0, 40)),
        vec!["> do it", "", "✦ done"]
    );
}

#[test]
fn repeated_errors_are_counted() {
    let error = |m: &str| HarnessEvent::ModelError { message: m.to_string() };
    let s = state(vec![error("slow"), error("slower"), says("ok")]);
    assert_eq!(
        all_shown(&transcript_lines(&s, &at_rest(), false, 0, 40)),
        vec!["✦ ✗ slower (×2)", "  ok"]
    );
}

#[test]
fn what_was_compacted_away_is_hidden() {
    let s = state(vec![
        user("old"),
        says("older"),
        HarnessEvent::SystemDecision {
            step: "history_compacted".to_string(),
            reasoning: "".to_string(),
        },
        says("new"),
    ]);
    let lines = all_shown(&transcript_lines(&s, &at_rest(), false, 0, 40));
    assert!(lines.iter().any(|l| l.contains("context compacted")));
    assert!(lines.iter().any(|l| l.contains("new")));
    assert!(!lines.iter().any(|l| l.contains("old")));
}

#[test]
fn whether_anything_was_done_before_a_compaction_matters_to_thoughts_only() {
    let compacted = || HarnessEvent::SystemDecision {
        step: "history_compacted".to_string(),
        reasoning: "".to_string(),
    };
    let mut acted = state(vec![user("go"), says("did"), compacted()]);
    let mut waiting = state(vec![user("go"), compacted()]);
    let thinking = |t: &str| Activity { alive: true, thinking: t.to_string(), ..at_rest() };
    let seen = |s: &HarnessState, t: &str| all_shown(&transcript_lines(s, &thinking(t), false, 0, 40));
    assert_eq!(seen(&acted, "hmm"), seen(&waiting, "hmm"));
    acted.status = HarnessStatus::Running;
    waiting.status = HarnessStatus::Running;
    assert_eq!(seen(&acted, " "), seen(&waiting, " "));
    assert_ne!(seen(&acted, "hmm"), seen(&waiting, "hmm"));
}

#[test]
fn a_call_and_its_result_share_a_row() {
    let args = object(vec![("path", text("a.rs"))]);
    let ok = object(vec![("data", object(vec![("content", text("x"))]))]);
    let bad = object(vec![
        ("status", text("error")),
        ("error", object(vec![("message", text("gone"))])),
    ]);
    let s = state(vec![
        user("go"),
        call("read_file", args.copy()),
        answer("read_file", ok),
        call("read_file", args),
        answer("read_file", bad),
        says("so"),
    ]);
    assert_eq!(
        all_shown(&transcript_lines(&s, &at_rest(), false, 0, 60)),
        vec![
            "> go",
            "",
            "● Read(a.rs) (ctrl+o to expand)",
            "● Read(a.rs) (ctrl+o to expand)",
            "  │ ✗ gone",
            "",
            "✦ so",
        ]
    );
}

#[test]
fn work_in_progress_is_shown() {
    let mut s = state(vec![user("go")]);
    s.status = HarnessStatus::Running;
    let now = Activity {
        alive: true,
        compacting: false,
        thinking: "hmm\n".to_string(),
        live: "partly".to_string(),
    };
    assert_eq!(
        all_shown(&transcript_lines(&s, &now, false, 2, 40)),
        vec!["> go", "", "hmm", "", "partly", "", "⠙ working…"]
    );
    let now = Activity { alive: true, compacting: true, ..at_rest() };
    assert_eq!(all_shown(&transcript_lines(&s, &now, false, 2, 40)), vec!["> go"]);
    // A lane keeps the line, and so does a call that has no result yet.
    let mut s = state(vec![call("read_file", object(vec![]))]);
    s.lanes = vec![LaneRecord {
        title: "t".to_string(),
        status: LaneStatus::Running,
        started_at: "".to_string(),
    }];
    let now = Activity { alive: true, ..at_rest() };
    assert_eq!(
        all_shown(&transcript_lines(&s, &now, false, 0, 40)),
        vec!["● Read", "", "⠋ working…"]
    );
}

#[test]
fn thoughts_are_hidden_once_something_was_done() {
    let mut s = state(vec![user("go"), call("read_file", object(vec![]))]);
    s.status = HarnessStatus::Running;
    let thinking = |t: &str| Activity { alive: true, thinking: t.to_string(), ..at_rest() };
    assert_eq!(
        all_shown(&transcript_lines(&s, &thinking("hmm"), false, 0, 40)),
        all_shown(&transcript_lines(&s, &thinking(""), false, 0, 40))
    );
    let mut s = state(vec![user("go"), call("note", object(vec![])), answer("note", object(vec![]))]);
    s.status = HarnessStatus::Idle;
    assert_eq!(all_shown(&transcript_lines(&s, &thinking("hmm"), false, 0, 40)), vec!["> go"]);
}

#[test]
fn thoughts_give_way_to_actions() {
    assert!(!turn_has_visible_action(&vec![says("old"), user("new")]));
    assert!(turn_has_visible_action(&vec![user("new"), call("bash", object(vec![]))]));
    assert!(!turn_has_visible_action(&vec![]));
}

#[test]
fn the_welcome_is_centred() {
    let lines = empty_state_lines("/work", "model", 80);
    assert_eq!(lines.len(), 22);
    assert_eq!(shown(&lines[1]), format!("{}t{}T", " ".repeat(18), " ".repeat(42)));
    assert!(shown(&lines[9]).contains("SNIPPET"));
}

#[test]
fn the_mascot_is_drawn_in_half_blocks() {
    let lines = mascot_halfblock_lines(48);
    assert_eq!(lines.len(), 20);
    for l in &lines {
        let halves = l.spans.iter().flat_map(|s| s.text.chars()).filter(|c| *c == '▀' || *c == '▄').count();
        assert!(halves <= 48);
    }
}

#[test]
fn styles_add_up() {
    let l = line2(raw_span("a"), span("b", unstyled().on(Color::Black).bolded()));
    assert_eq!(l.spans[1].style.bg, Some(Color::Black));
    assert!(l.spans[1].style.bold && !l.spans[1].style.italic);
}
