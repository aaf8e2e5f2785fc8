//! Tool calls and their results as rows of the transcript.
use crate::blocks::{block, less, result_block_verbatim, smaller};
use crate::json::{Json, Value, member, notation, text_of, text_or_empty};
use crate::style::{
    Color, Line, Piece, Span, Style, append_lines, colored, line2, line3, no_lines, no_spans, piece,
    pieces_of, push_line, push_span, raw, room, rows, spaces, spaces_span, span, suffixed,
};
use crate::table::larger;
use crate::text::{
    blank, cat2, cat3, chars_of, decimal, decimal_string, is_blank, is_lower, join, joined,
    line_count, line_list, lines, no_texts, pieces, push_text, same, split, split_whitespace,
    string_of, take_chars, texts, trim, trimmed, words,
};
use crate::theme::{accent, code, danger, ink, muted, subtle, success, warn};
use crate::wrap::{wrap_one, wrapped};
use vstd::prelude::*;

verus! {

// ---------------------------------------------------------------------------
// One-line labels
// ---------------------------------------------------------------------------

/// The first line of a text, empty where there is none.
pub open spec fn first_line(text: Seq<char>) -> Seq<char> {
    if line_list(text).len() > 0 {
        line_list(text)[0]
    } else {
        Seq::empty()
    }
}

/// The first line with runs of white space collapsed, cut to `max` characters,
/// with an ellipsis where anything is left out.
pub open spec fn one_line(text: Seq<char>, max: nat) -> Seq<char> {
    let compact = joined(words(trimmed(first_line(text))), " "@);
    if compact.len() <= max && line_list(text).len() <= 1 {
        compact
    } else {
        compact.take(smaller(max, compact.len()) as int) + " …"@
    }
}

pub fn ellipsize_one_line(text: &str, max_chars: usize) -> (r: String)
    ensures
        r@ == one_line(text@, max_chars as nat),
{
    let list = lines(text);
    let first = if list.len() > 0 {
        assert(texts(list@)[0] == list@[0]@);
        list[0].clone()
    } else {
        String::new()
    };
    assert(texts(list@).len() == list@.len());
    assert(first@ =~= first_line(text@));
    let t = trim(first.as_str());
    let compact = join(&split_whitespace(t.as_str()), " ");
    if compact.as_str().unicode_len() <= max_chars && list.len() <= 1 {
        return compact;
    }
    let capped = take_chars(compact.as_str(), max_chars);
    cat2(capped.as_str(), " …")
}

/// The characters of `char::to_uppercase` for a character beyond ASCII.
pub uninterp spec fn beyond_ascii_upper(c: char) -> Seq<char>;

/// The upper case of a character, which may be several characters.
pub open spec fn upper(c: char) -> Seq<char> {
    if is_lower(c) {
        seq![((c as u32) - 32) as char]
    } else if c <= '\u{7f}' {
        seq![c]
    } else {
        beyond_ascii_upper(c)
    }
}

/// `char::to_uppercase`: ASCII letters become capitals and other ASCII characters
/// stay. Of characters beyond ASCII only that each has one upper case is claimed.
#[verifier::external_body]
pub(crate) fn to_uppercase(c: char) -> (r: String)
    ensures
        is_lower(c) ==> r@ == seq![((c as u32) - 32) as char],
        c <= '\u{7f}' && !is_lower(c) ==> r@ == seq![c],
        c > '\u{7f}' ==> r@ == beyond_ascii_upper(c),
{
    c.to_uppercase().to_string()
}

/// A word with its first character in upper case.
pub open spec fn capitalized(w: Seq<char>) -> Seq<char> {
    if w.len() == 0 {
        w
    } else {
        upper(w[0]) + w.skip(1)
    }
}

/// A tool's name without underscores, each word capitalized.
pub open spec fn pretty_name(name: Seq<char>) -> Seq<char> {
    joined(pieces(name, '_').map_values(|w: Seq<char>| capitalized(w)), Seq::empty())
}

fn capitalize(w: &str) -> (r: String)
    ensures
        r@ == capitalized(w@),
{
    let v = chars_of(w);
    if v.len() == 0 {
        assert(v@ =~= Seq::<char>::empty());
        return String::new();
    }
    let head = to_uppercase(v[0]);
    let tail = string_of(&v, 1, v.len());
    assert(tail@ =~= w@.skip(1));
    cat2(head.as_str(), tail.as_str())
}

fn prettify(name: &str) -> (r: String)
    ensures
        r@ == pretty_name(name@),
{
    let parts = split(name, '_');
    let ghost all = texts(parts@);
    let mut out = no_texts();
    for i in 0..parts.len()
        invariant
            all == texts(parts@),
            texts(out@).len() == i,
            forall|k: int| 0 <= k < i ==> #[trigger] texts(out@)[k] == capitalized(all[k]),
    {
        assert(all[i as int] == parts@[i as int]@);
        push_text(&mut out, capitalize(parts[i].as_str()));
    }
    assert(texts(out@) =~= all.map_values(|w: Seq<char>| capitalized(w)));
    let empty = String::new();
    assert(empty@ =~= Seq::<char>::empty());
    join(&out, empty.as_str())
}

// ---------------------------------------------------------------------------
// The call as a verb and what it is about
// ---------------------------------------------------------------------------

/// How many lines the named member has.
pub open spec fn lines_of(args: Value, name: Seq<char>) -> nat {
    line_list(text_or_empty(args, name)).len()
}

pub open spec fn lines_label(n: nat) -> Seq<char> {
    decimal(n) + " lines"@
}

/// A label in front of a count of lines, where there is one.
pub open spec fn lines_about(label: Seq<char>, n: nat) -> Seq<char> {
    if label.len() == 0 {
        lines_label(n)
    } else {
        label + " · "@ + lines_label(n)
    }
}

/// The first of the members that label an unknown call, whatever it holds.
pub open spec fn label_member(args: Value) -> Option<Value> {
    if member(args, "path"@) is Some {
        member(args, "path"@)
    } else if member(args, "id"@) is Some {
        member(args, "id"@)
    } else if member(args, "query"@) is Some {
        member(args, "query"@)
    } else if member(args, "name"@) is Some {
        member(args, "name"@)
    } else {
        member(args, "title"@)
    }
}

/// What a call to map code is about.
pub open spec fn map_detail(args: Value) -> Seq<char> {
    let q = text_or_empty(args, "query"@);
    let path = text_or_empty(args, "path"@);
    if q.len() > 0 && path.len() > 0 {
        path + " · "@ + q
    } else if q.len() > 0 {
        q
    } else if path.len() > 0 {
        path
    } else {
        "."@
    }
}

/// A call to a known tool as a verb and what it is about.
pub open spec fn known_parts(tool: Seq<char>, args: Value) -> Option<(Seq<char>, Seq<char>)> {
    let arg = |key: Seq<char>| text_or_empty(args, key);
    if tool == "read_file"@ || tool == "read_image"@ {
        Some(("Read"@, arg("path"@)))
    } else if tool == "write_file"@ {
        Some(("Write"@, arg("path"@)))
    } else if tool == "edit_file"@ {
        Some(("Edit"@, arg("path"@)))
    } else if tool == "list_files"@ {
        Some(
            (
                "List"@,
                match text_of(member(args, "path"@)) {
                    Some(p) => p,
                    None => "."@,
                },
            ),
        )
    } else if tool == "search_content"@ {
        Some(("Search"@, arg("query"@)))
    } else if tool == "search_files"@ {
        Some(
            (
                "Search"@,
                if arg("pattern"@).len() == 0 {
                    arg("query"@)
                } else {
                    arg("pattern"@)
                },
            ),
        )
    } else if tool == "view_outline"@ {
        Some(("Outline"@, arg("path"@)))
    } else if tool == "code_map"@ {
        Some(("Map"@, map_detail(args)))
    } else if tool == "web_search"@ {
        Some(("Web"@, arg("query"@)))
    } else if tool == "web_read"@ {
        Some(("Fetch"@, arg("url"@)))
    } else if tool == "bash"@ {
        Some(("Bash"@, one_line(arg("command"@), 90)))
    } else if tool == "memory_write"@ {
        Some(("MemoryWrite"@, lines_about(arg("id"@), lines_of(args, "content"@))))
    } else if tool == "memory_read"@ {
        Some(("MemoryRead"@, arg("id"@)))
    } else if tool == "memory_delete"@ {
        Some(("MemoryDelete"@, arg("id"@)))
    } else if tool == "memory_index"@ {
        Some(("MemoryIndex"@, lines_label(lines_of(args, "content"@))))
    } else if tool == "memory_rule"@ {
        Some(("MemoryRule"@, lines_about(arg("scope"@), lines_of(args, "content"@))))
    } else if tool == "memory_pattern"@ {
        Some(("MemoryPattern"@, lines_about(arg("action"@), lines_of(args, "content"@))))
    } else if tool == "append_file"@ {
        Some(("Append"@, arg("path"@)))
    } else {
        None
    }
}

/// A call as a verb and what it is about. A tool that is not known is named, and
/// labelled by one of its arguments or by the beginning of all of them.
pub open spec fn call_parts(tool: Seq<char>, args: Value) -> (Seq<char>, Seq<char>) {
    match known_parts(tool, args) {
        Some(p) => p,
        None => (
            pretty_name(tool),
            match text_of(label_member(args)) {
                Some(s) => one_line(s, 80),
                None => one_line(notation(args), 60),
            },
        ),
    }
}

fn line_label(n: usize) -> (r: String)
    ensures
        r@ == lines_label(n as nat),
{
    let d = decimal_string(n as u64);
    cat2(d.as_str(), " lines")
}

fn label_lines(label: String, n: usize) -> (r: String)
    ensures
        r@ == lines_about(label@, n as nat),
{
    let count = line_label(n);
    if label.as_str().is_empty() {
        count
    } else {
        cat3(label.as_str(), " · ", count.as_str())
    }
}

fn count_lines(args: &Json, name: &str) -> (r: usize)
    ensures
        r == lines_of(args@, name@),
{
    let s = args.text_or_empty_at(name);
    line_count(s.as_str())
}

fn find_label(args: &Json) -> (r: Option<String>)
    ensures
        text_of(label_member(args@)) == match r {
            Some(s) => Some(s@),
            None => None,
        },
{
    if args.get("path").is_some() {
        args.text_at("path")
    } else if args.get("id").is_some() {
        args.text_at("id")
    } else if args.get("query").is_some() {
        args.text_at("query")
    } else if args.get("name").is_some() {
        args.text_at("name")
    } else {
        args.text_at("title")
    }
}

fn describe_map(args: &Json) -> (r: String)
    ensures
        r@ == map_detail(args@),
{
    let q = args.text_or_empty_at("query");
    let path = args.text_or_empty_at("path");
    let no_q = q.as_str().is_empty();
    let no_path = path.as_str().is_empty();
    if !no_q && !no_path {
        cat3(path.as_str(), " · ", q.as_str())
    } else if !no_q {
        q
    } else if !no_path {
        path
    } else {
        ".".to_string()
    }
}

fn known_call_parts(tool: &str, args: &Json) -> (r: Option<(String, String)>)
    ensures
        known_parts(tool@, args@) == match r {
            Some(p) => Some((p.0@, p.1@)),
            None => None,
        },
{
    if same(tool, "read_file") || same(tool, "read_image") {
        Some(("Read".to_string(), args.text_or_empty_at("path")))
    } else if same(tool, "write_file") {
        Some(("Write".to_string(), args.text_or_empty_at("path")))
    } else if same(tool, "edit_file") {
        Some(("Edit".to_string(), args.text_or_empty_at("path")))
    } else if same(tool, "list_files") {
        let path = match args.text_at("path") {
            Some(p) => p,
            None => ".".to_string(),
        };
        Some(("List".to_string(), path))
    } else if same(tool, "search_content") {
        Some(("Search".to_string(), args.text_or_empty_at("query")))
    } else if same(tool, "search_files") {
        let pattern = args.text_or_empty_at("pattern");
        let what = if pattern.as_str().is_empty() {
            args.text_or_empty_at("query")
        } else {
            pattern
        };
        Some(("Search".to_string(), what))
    } else if same(tool, "view_outline") {
        Some(("Outline".to_string(), args.text_or_empty_at("path")))
    } else if same(tool, "code_map") {
        Some(("Map".to_string(), describe_map(args)))
    } else if same(tool, "web_search") {
        Some(("Web".to_string(), args.text_or_empty_at("query")))
    } else if same(tool, "web_read") {
        Some(("Fetch".to_string(), args.text_or_empty_at("url")))
    } else if same(tool, "bash") {
        let cmd = args.text_or_empty_at("command");
        Some(("Bash".to_string(), ellipsize_one_line(cmd.as_str(), 90)))
    } else if same(tool, "memory_write") {
        let n = count_lines(args, "content");
        Some(("MemoryWrite".to_string(), label_lines(args.text_or_empty_at("id"), n)))
    } else if same(tool, "memory_read") {
        Some(("MemoryRead".to_string(), args.text_or_empty_at("id")))
    } else if same(tool, "memory_delete") {
        Some(("MemoryDelete".to_string(), args.text_or_empty_at("id")))
    } else if same(tool, "memory_index") {
        Some(("MemoryIndex".to_string(), line_label(count_lines(args, "content"))))
    } else if same(tool, "memory_rule") {
        let n = count_lines(args, "content");
        Some(("MemoryRule".to_string(), label_lines(args.text_or_empty_at("scope"), n)))
    } else if same(tool, "memory_pattern") {
        let n = count_lines(args, "content");
        Some(("MemoryPattern".to_string(), label_lines(args.text_or_empty_at("action"), n)))
    } else if same(tool, "append_file") {
        Some(("Append".to_string(), args.text_or_empty_at("path")))
    } else {
        None
    }
}

/// A call as a verb and what it is about, such as `Read` and a path.
pub fn tool_call_parts(tool: &str, args: &Json) -> (r: (String, String))
    ensures
        (r.0@, r.1@) == call_parts(tool@, args@),
{
    match known_call_parts(tool, args) {
        Some(p) => p,
        None => {
            let detail = match find_label(args) {
                Some(s) => ellipsize_one_line(s.as_str(), 80),
                None => {
                    let all = args.to_text();
                    ellipsize_one_line(all.as_str(), 60)
                },
            };
            (prettify(tool), detail)
        },
    }
}

// ---------------------------------------------------------------------------
// The row of a call
// ---------------------------------------------------------------------------

#[derive(Clone, Copy, PartialEq, Eq, Structural, Debug)]
pub enum ToolRowStatus {
    Done,
    Running,
    Failed,
}

#[verifier::allow_in_spec]
pub fn dot_color(status: ToolRowStatus) -> Color
    returns
        (match status {
            ToolRowStatus::Done => success(),
            ToolRowStatus::Running => accent(),
            ToolRowStatus::Failed => danger(),
        }),
{
    match status {
        ToolRowStatus::Done => success(),
        ToolRowStatus::Running => accent(),
        ToolRowStatus::Failed => danger(),
    }
}

pub open spec fn dot_piece(status: ToolRowStatus) -> Piece {
    piece("● "@, colored(dot_color(status)))
}

pub open spec fn verb_piece(verb: Seq<char>) -> Piece {
    piece(verb, colored(warn()).bolded())
}

pub open spec fn paren(text: Seq<char>) -> Piece {
    piece(text, colored(muted()))
}

/// The argument on lines of its own, the last closed by a parenthesis.
pub open spec fn hanging(list: Seq<Seq<char>>) -> Seq<Seq<Piece>> {
    Seq::new(
        list.len(),
        |i: int|
            if i == list.len() - 1 {
                seq![raw(spaces(4)), piece(list[i], colored(ink())), paren(")"@)]
            } else {
                seq![raw(spaces(4)), piece(list[i], colored(ink()))]
            },
    )
}

/// The row of a call: a dot, the verb, and in parentheses what it is about, on
/// the same line where that fits.
pub open spec fn call_head(
    verb: Seq<char>,
    arg: Seq<char>,
    width: nat,
    status: ToolRowStatus,
) -> Seq<Seq<Piece>> {
    let size = if blank(arg) {
        verb.len()
    } else {
        verb.len() + arg.len() + 2
    };
    if size <= larger(room(width, 2), 12) {
        if blank(arg) {
            seq![seq![dot_piece(status), verb_piece(verb)]]
        } else {
            seq![
                seq![
                    dot_piece(status),
                    verb_piece(verb),
                    paren("("@),
                    piece(arg, colored(ink())),
                    paren(")"@),
                ],
            ]
        }
    } else {
        seq![seq![dot_piece(status), verb_piece(verb), paren("("@)]] + hanging(
            wrapped(arg, larger(room(width, 4), 8)),
        )
    }
}

fn hang_lines(list: &Vec<String>) -> (r: Vec<Line>)
    ensures
        rows(r@) == hanging(texts(list@)),
{
    let mut out = no_lines();
    let ghost goal = hanging(texts(list@));
    for i in 0..list.len()
        invariant
            goal == hanging(texts(list@)),
            rows(out@).len() == i,
            forall|k: int| 0 <= k < i ==> #[trigger] rows(out@)[k] == goal[k],
    {
        let lead = spaces_span(4);
        let body = span(list[i].as_str(), colored(ink()));
        if i == list.len() - 1 {
            push_line(&mut out, line3(lead, body, span(")", colored(muted()))));
        } else {
            push_line(&mut out, line2(lead, body));
        }
    }
    assert(rows(out@) =~= goal);
    out
}

/// Whether a call with parts of these lengths fits into `budget` characters.
fn fits_budget(verb: usize, arg: usize, empty: bool, budget: usize) -> (r: bool)
    ensures
        r == ((if empty {
            verb as nat
        } else {
            (verb + arg + 2) as nat
        }) <= budget),
{
    if verb > budget {
        false
    } else if empty {
        true
    } else {
        let left: usize = budget - verb;
        left >= 2 && arg <= left - 2
    }
}

fn head_lines(verb: String, arg: String, width: usize, status: ToolRowStatus) -> (r: Vec<Line>)
    ensures
        rows(r@) == call_head(verb@, arg@, width as nat, status),
{
    let empty = is_blank(arg.as_str());
    let w = less(width, 2);
    let budget: usize = if w >= 12 {
        w
    } else {
        12
    };
    let dot = span("● ", colored(dot_color(status)));
    let fits = fits_budget(
        verb.as_str().unicode_len(),
        arg.as_str().unicode_len(),
        empty,
        budget,
    );
    let lead = line2(dot, span(verb.as_str(), colored(warn()).bolded()));
    let mut out = no_lines();
    if fits {
        if empty {
            push_line(&mut out, lead);
        } else {
            let line = suffixed(
                suffixed(
                    suffixed(lead, span("(", colored(muted()))),
                    span(arg.as_str(), colored(ink())),
                ),
                span(")", colored(muted())),
            );
            assert(line@ =~= seq![
                dot_piece(status),
                verb_piece(verb@),
                paren("("@),
                piece(arg@, colored(ink())),
                paren(")"@),
            ]);
            push_line(&mut out, line);
        }
        assert(rows(out@) =~= call_head(verb@, arg@, width as nat, status));
        return out;
    }
    let first = suffixed(lead, span("(", colored(muted())));
    assert(first@ =~= seq![dot_piece(status), verb_piece(verb@), paren("("@)]);
    push_line(&mut out, first);
    let n = less(width, 4);
    let list = wrap_one(
        arg.as_str(),
        if n >= 8 {
            n
        } else {
            8
        },
    );
    append_lines(&mut out, hang_lines(&list));
    assert(rows(out@) =~= call_head(verb@, arg@, width as nat, status));
    out
}

pub fn tool_call_head_lines_status(
    tool: &str,
    args: &Json,
    width: usize,
    status: ToolRowStatus,
) -> (r: Vec<Line>)
    ensures
        ({
            let p = call_parts(tool@, args@);
            rows(r@) == call_head(p.0, p.1, width as nat, status)
        }),
{
    let (verb, arg) = tool_call_parts(tool, args);
    head_lines(verb, arg, width, status)
}

// ---------------------------------------------------------------------------
// What a call is going to do
// ---------------------------------------------------------------------------

#[verifier::allow_in_spec]
pub fn path_style() -> Style
    returns
        colored(code()).slanted(),
{
    colored(code()).slanted()
}

/// The first `max` lines in one style, with `lead` in front of each.
pub open spec fn shown_lines(text: Seq<char>, lead: Seq<char>, max: nat, style: Style) -> Seq<Piece> {
    line_list(text).take(smaller(line_list(text).len(), max) as int).map_values(
        |l: Seq<char>| piece(lead + l, style),
    )
}

pub open spec fn empty_item() -> Piece {
    piece(Seq::empty(), subtle())
}

/// How many lines are left out, where any are.
pub open spec fn more_items(n: nat, max: nat, before: Seq<char>, after: Seq<char>, style: Style) -> Seq<
    Piece,
> {
    if n > max {
        seq![piece(before + decimal((n - max) as nat) + after, style)]
    } else {
        Seq::empty()
    }
}

pub open spec fn path_items(args: Value) -> Seq<Piece> {
    seq![piece("→ "@ + text_or_empty(args, "path"@), path_style()), empty_item()]
}

/// The content of a file to be written or extended.
pub open spec fn content_items(args: Value) -> Seq<Piece> {
    let content = text_or_empty(args, "content"@);
    let n = line_list(content).len();
    path_items(args) + shown_lines(content, "  "@, 6, colored(success())) + if n > 6 {
        seq![empty_item()] + more_items(n, 6, "  … +"@, " more lines"@, subtle())
    } else {
        Seq::empty()
    }
}

/// One side of an edit.
pub open spec fn side_items(text: Seq<char>, style: Style) -> Seq<Piece> {
    shown_lines(text, "  "@, 6, style) + more_items(
        line_list(text).len(),
        6,
        "  … +"@,
        " more"@,
        subtle(),
    )
}

/// What an edit takes away and what it puts in its place.
pub open spec fn edit_items(args: Value) -> Seq<Piece> {
    let old_text = text_or_empty(args, "old_string"@);
    let new_text = text_or_empty(args, "new_string"@);
    path_items(args) + (if line_list(old_text).len() > 0 {
        side_items(old_text, colored(danger())).push(empty_item())
    } else {
        Seq::empty()
    }) + side_items(new_text, colored(success()))
}

pub open spec fn command_items(args: Value) -> Seq<Piece> {
    let command = text_or_empty(args, "command"@);
    seq![piece("command"@, path_style())] + shown_lines(command, "  "@, 6, colored(success()))
        + more_items(line_list(command).len(), 6, "  … +"@, " more lines"@, subtle())
}

/// The beginning of a text.
pub open spec fn text_items(text: Seq<char>) -> Seq<Piece> {
    if blank(text) {
        seq![piece("  (empty)"@, subtle())]
    } else {
        shown_lines(text, "  "@, 6, colored(success())) + more_items(
            line_list(text).len(),
            6,
            "  … +"@,
            " more lines"@,
            subtle(),
        )
    }
}

/// What a call is going to do, for the tools that have a preview.
pub open spec fn preview_items(tool: Seq<char>, args: Value) -> Option<Seq<Piece>> {
    let labelled = |label: Seq<char>, key: Seq<char>|
        seq![piece(label + text_or_empty(args, key), path_style())];
    let content = text_or_empty(args, "content"@);
    if tool == "write_file"@ || tool == "append_file"@ {
        Some(content_items(args))
    } else if tool == "edit_file"@ {
        Some(edit_items(args))
    } else if tool == "bash"@ {
        Some(command_items(args))
    } else if tool == "memory_write"@ {
        Some(labelled("id  "@, "id"@) + text_items(content))
    } else if tool == "memory_rule"@ {
        Some(labelled("scope  "@, "scope"@) + text_items(content))
    } else if tool == "memory_pattern"@ {
        Some(
            (if text_or_empty(args, "action"@).len() > 0 {
                labelled("action  "@, "action"@)
            } else {
                Seq::empty()
            }) + text_items(content),
        )
    } else if tool == "memory_index"@ {
        Some(text_items(content))
    } else if tool == "memory_delete"@ || tool == "memory_read"@ {
        Some(labelled("id  "@, "id"@))
    } else {
        None
    }
}

/// Adds the first `max` lines of a text.
pub fn push_shown(items: &mut Vec<Span>, list: &Vec<String>, lead: &str, max: usize, style: Style)
    ensures
        pieces_of(final(items)@) == pieces_of(old(items)@) + texts(list@).take(
            smaller(list@.len(), max as nat) as int,
        ).map_values(|l: Seq<char>| piece(lead@ + l, style)),
{
    let n: usize = if list.len() <= max {
        list.len()
    } else {
        max
    };
    let ghost before = pieces_of(items@);
    let ghost all = texts(list@);
    let ghost f = |l: Seq<char>| piece(lead@ + l, style);
    assert(before + all.take(0).map_values(f) =~= before);
    for i in 0..n
        invariant
            n <= list.len(),
            all == texts(list@),
            f == (|l: Seq<char>| piece(lead@ + l, style)),
            pieces_of(items@) == before + all.take(i as int).map_values(f),
    {
        let text = cat2(lead, list[i].as_str());
        push_span(items, Span { text, style });
        assert(all.take(i + 1).map_values(f) =~= all.take(i as int).map_values(f).push(
            f(all[i as int]),
        ));
        assert(before + all.take(i + 1).map_values(f) =~= (before + all.take(
            i as int,
        ).map_values(f)).push(f(all[i as int])));
    }
}

/// Adds how many lines are left out, where any are.
pub fn push_more(items: &mut Vec<Span>, n: usize, max: usize, before: &str, after: &str, style: Style)
    ensures
        pieces_of(final(items)@) == pieces_of(old(items)@) + more_items(
            n as nat,
            max as nat,
            before@,
            after@,
            style,
        ),
{
    let ghost first = pieces_of(items@);
    if n > max {
        let d = decimal_string((n - max) as u64);
        push_span(items, Span { text: cat3(before, d.as_str(), after), style });
        assert(pieces_of(items@) =~= first + more_items(
            n as nat,
            max as nat,
            before@,
            after@,
            style,
        ));
    } else {
        assert(first + Seq::empty() =~= first);
    }
}

fn empty_span() -> (r: Span)
    ensures
        r@ == empty_item(),
{
    let r = Span { text: String::new(), style: subtle() };
    assert(r@.text =~= Seq::<char>::empty());
    r
}

fn push_path(items: &mut Vec<Span>, args: &Json)
    ensures
        pieces_of(final(items)@) == pieces_of(old(items)@) + path_items(args@),
{
    let ghost before = pieces_of(items@);
    let path = args.text_or_empty_at("path");
    push_span(items, Span { text: cat2("→ ", path.as_str()), style: path_style() });
    push_span(items, empty_span());
    assert(pieces_of(items@) =~= before + path_items(args@));
}

fn content_preview(args: &Json) -> (r: Vec<Span>)
    ensures
        pieces_of(r@) == content_items(args@),
{
    let mut items = no_spans();
    let content = args.text_or_empty_at("content");
    let list = lines(content.as_str());
    assert(texts(list@).len() == list@.len());
    push_path(&mut items, args);
    push_shown(&mut items, &list, "  ", 6, colored(success()));
    if list.len() > 6 {
        push_span(&mut items, empty_span());
        push_more(&mut items, list.len(), 6, "  … +", " more lines", subtle());
    }
    assert(pieces_of(items@) =~= content_items(args@));
    items
}

fn push_side(items: &mut Vec<Span>, list: &Vec<String>, style: Style, Ghost(text): Ghost<Seq<char>>)
    requires
        texts(list@) == line_list(text),
    ensures
        pieces_of(final(items)@) == pieces_of(old(items)@) + side_items(text, style),
{
    let ghost before = pieces_of(items@);
    assert(texts(list@).len() == list@.len());
    push_shown(items, list, "  ", 6, style);
    push_more(items, list.len(), 6, "  … +", " more", subtle());
    assert(pieces_of(items@) =~= before + side_items(text, style));
}

fn edit_preview(args: &Json) -> (r: Vec<Span>)
    ensures
        pieces_of(r@) == edit_items(args@),
{
    let mut items = no_spans();
    let old_text = args.text_or_empty_at("old_string");
    let new_text = args.text_or_empty_at("new_string");
    let old_lines = lines(old_text.as_str());
    let new_lines = lines(new_text.as_str());
    assert(texts(old_lines@).len() == old_lines@.len());
    push_path(&mut items, args);
    if old_lines.len() > 0 {
        push_side(&mut items, &old_lines, colored(danger()), Ghost(old_text@));
        push_span(&mut items, empty_span());
    }
    push_side(&mut items, &new_lines, colored(success()), Ghost(new_text@));
    assert(pieces_of(items@) =~= edit_items(args@));
    items
}

fn command_preview(args: &Json) -> (r: Vec<Span>)
    ensures
        pieces_of(r@) == command_items(args@),
{
    let mut items = no_spans();
    let command = args.text_or_empty_at("command");
    let list = lines(command.as_str());
    assert(texts(list@).len() == list@.len());
    push_span(&mut items, span("command", path_style()));
    push_shown(&mut items, &list, "  ", 6, colored(success()));
    push_more(&mut items, list.len(), 6, "  … +", " more lines", subtle());
    assert(pieces_of(items@) =~= command_items(args@));
    items
}

/// Adds the beginning of a text.
fn push_text_preview(items: &mut Vec<Span>, content: &str)
    ensures
        pieces_of(final(items)@) == pieces_of(old(items)@) + text_items(content@),
{
    let ghost before = pieces_of(items@);
    if is_blank(content) {
        push_span(items, span("  (empty)", subtle()));
    } else {
        let list = lines(content);
        assert(texts(list@).len() == list@.len());
        push_shown(items, &list, "  ", 6, colored(success()));
        push_more(items, list.len(), 6, "  … +", " more lines", subtle());
    }
    assert(pieces_of(items@) =~= before + text_items(content@));
}

fn labelled(label: &str, text: &str) -> (r: Span)
    ensures
        r@ == piece(label@ + text@, path_style()),
{
    Span { text: cat2(label, text), style: path_style() }
}

fn preview_of(tool: &str, args: &Json) -> (r: Option<Vec<Span>>)
    ensures
        preview_items(tool@, args@) == match r {
            Some(items) => Some(pieces_of(items@)),
            None => None,
        },
{
    let content = args.text_or_empty_at("content");
    let ghost goal = preview_items(tool@, args@);
    if same(tool, "write_file") || same(tool, "append_file") {
        return Some(content_preview(args));
    }
    if same(tool, "edit_file") {
        return Some(edit_preview(args));
    }
    if same(tool, "bash") {
        return Some(command_preview(args));
    }
    let mut items = no_spans();
    if same(tool, "memory_write") {
        push_span(&mut items, labelled("id  ", args.text_or_empty_at("id").as_str()));
        push_text_preview(&mut items, content.as_str());
    } else if same(tool, "memory_rule") {
        push_span(&mut items, labelled("scope  ", args.text_or_empty_at("scope").as_str()));
        push_text_preview(&mut items, content.as_str());
    } else if same(tool, "memory_pattern") {
        let action = args.text_or_empty_at("action");
        if !action.as_str().is_empty() {
            push_span(&mut items, labelled("action  ", action.as_str()));
        }
        push_text_preview(&mut items, content.as_str());
    } else if same(tool, "memory_index") {
        push_text_preview(&mut items, content.as_str());
    } else if same(tool, "memory_delete") || same(tool, "memory_read") {
        push_span(&mut items, labelled("id  ", args.text_or_empty_at("id").as_str()));
    } else {
        return None;
    }
    assert(pieces_of(items@) =~= goal->0);
    Some(items)
}

/// A preview of what a call is going to do.
pub open spec fn call_preview(tool: Seq<char>, args: Value, width: nat) -> Seq<Seq<Piece>> {
    match preview_items(tool, args) {
        Some(items) => block(items, width, true),
        None => Seq::empty(),
    }
}

pub fn tool_call_preview(tool: &str, args: &Json, width: usize) -> (r: Vec<Line>)
    ensures
        rows(r@) == call_preview(tool@, args@, width as nat),
{
    match preview_of(tool, args) {
        Some(items) => result_block_verbatim(&items, width),
        None => no_lines(),
    }
}

/// The row of a finished call, with the preview below it where that is asked
/// for.
pub fn tool_call_lines(tool: &str, args: &Json, width: usize, expanded: bool) -> (r: Vec<Line>)
    ensures
        ({
            let p = call_parts(tool@, args@);
            let head = call_head(p.0, p.1, width as nat, ToolRowStatus::Done);
            rows(r@) == if expanded {
                head + call_preview(tool@, args@, width as nat)
            } else {
                head
            }
        }),
{
    let mut out = tool_call_head_lines_status(tool, args, width, ToolRowStatus::Done);
    if expanded {
        append_lines(&mut out, tool_call_preview(tool, args, width));
    }
    out
}

} // verus!
