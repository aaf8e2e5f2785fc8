//! Tool results as rows of the transcript, in short and at length.
use crate::blocks::{block, result_block, result_block_inner, smaller};
use crate::figures::{fmt_si, si};
use crate::json::{
    Json, Value, bool_of, items_of, member, notation, text_of, text_or_empty, unsigned_of, values,
};
use crate::style::{
    Line, Piece, Span, Style, colored, copy_span, no_spans, piece, pieces_of, push_span, rows, span,
};
use crate::text::{
    blank, cat2, cat3, cat4, cat5, contains_char, decimal, decimal_string, is_blank, join, joined,
    line_count, line_list, lines, no_texts, opt_text, push_text, same, texts,
};
use crate::theme::{danger, faint, subtle};
use crate::tools::{call_parts, lines_label, lines_of, more_items, push_more, tool_call_parts};
use vstd::prelude::*;

verus! {

/// What a result is about: its data, where it has such a member, else itself.
pub open spec fn data_of(result: Value) -> Value {
    match member(result, "data"@) {
        Some(d) => d,
        None => result,
    }
}

pub open spec fn is_error(result: Value) -> bool {
    text_of(member(result, "status"@)) == Some("error"@)
}

pub open spec fn is_truncated(result: Value) -> bool {
    bool_of(member(result, "truncated"@)) == Some(true)
}

pub fn find_data(result: &Json) -> (r: &Json)
    ensures
        r@ == data_of(result@),
{
    match result.get("data") {
        Some(d) => d,
        None => result,
    }
}

pub fn failed(result: &Json) -> (r: bool)
    ensures
        r == is_error(result@),
{
    match result.text_at("status") {
        Some(s) => same(s.as_str(), "error"),
        None => false,
    }
}

fn truncated(result: &Json) -> (r: bool)
    ensures
        r == is_truncated(result@),
{
    match result.bool_at("truncated") {
        Some(b) => b,
        None => false,
    }
}

// ---------------------------------------------------------------------------
// Whether there is more to show
// ---------------------------------------------------------------------------

/// The named member holds a text that is not blank.
pub open spec fn has_text(data: Value, name: Seq<char>) -> bool {
    match text_of(member(data, name)) {
        Some(s) => !blank(s),
        None => false,
    }
}

/// The named member holds a list that is not empty.
pub open spec fn has_items(data: Value, name: Seq<char>) -> bool {
    match items_of(member(data, name)) {
        Some(items) => items.len() > 0,
        None => false,
    }
}

/// A result with a body: an error, output, or entries.
pub open spec fn has_body(result: Value) -> bool {
    let data = data_of(result);
    ||| is_error(result)
    ||| has_text(data, "stdout"@)
    ||| has_text(data, "stderr"@)
    ||| has_text(data, "content"@)
    ||| has_text(data, "text"@)
    ||| has_text(data, "output"@)
    ||| has_items(data, "entries"@)
    ||| has_items(data, "matches"@)
}

fn holds_text(data: &Json, name: &str) -> (r: bool)
    ensures
        r == has_text(data@, name@),
{
    match data.text_at(name) {
        Some(s) => !is_blank(s.as_str()),
        None => false,
    }
}

fn holds_items(data: &Json, name: &str) -> (r: bool)
    ensures
        r == has_items(data@, name@),
{
    match data.array_at(name) {
        Some(items) => {
            assert(values(items@).len() == items@.len());
            items.len() > 0
        },
        None => false,
    }
}

pub fn result_has_body(result: &Json) -> (r: bool)
    ensures
        r == has_body(result@),
{
    if failed(result) {
        return true;
    }
    let data = find_data(result);
    holds_text(data, "stdout") || holds_text(data, "stderr") || holds_text(data, "content")
        || holds_text(data, "text") || holds_text(data, "output") || holds_items(data, "entries")
        || holds_items(data, "matches")
}

/// A call whose row leaves out what can be shown at length.
pub open spec fn expandable(tool: Seq<char>, args: Value, result: Option<Value>) -> bool {
    let body = match result {
        Some(v) => has_body(v),
        None => false,
    };
    let content = text_or_empty(args, "content"@);
    if tool == "write_file"@ || tool == "append_file"@ || tool == "memory_write"@ || tool
        == "memory_rule"@ || tool == "memory_pattern"@ || tool == "memory_index"@ {
        !blank(content)
    } else if tool == "edit_file"@ {
        text_or_empty(args, "old_string"@).len() > 0 || text_or_empty(args, "new_string"@).len() > 0
    } else if tool == "bash"@ {
        let command = text_or_empty(args, "command"@);
        line_list(command).len() > 1 || command.len() > 80 || body
    } else if tool == "read_file"@ || tool == "search_content"@ || tool == "list_files"@ || tool
        == "web_read"@ || tool == "view_outline"@ || tool == "code_map"@ {
        body
    } else {
        call_parts(tool, args).1.contains('…') || body
    }
}

pub open spec fn opt_value(j: Option<&Json>) -> Option<Value> {
    match j {
        Some(v) => Some(v@),
        None => None,
    }
}

pub fn tool_is_expandable(tool: &str, args: &Json, result: Option<&Json>) -> (r: bool)
    ensures
        r == expandable(tool@, args@, opt_value(result)),
{
    let body = match result {
        Some(v) => result_has_body(v),
        None => false,
    };
    if same(tool, "write_file") || same(tool, "append_file") || same(tool, "memory_write") || same(
        tool,
        "memory_rule",
    ) || same(tool, "memory_pattern") || same(tool, "memory_index") {
        let content = args.text_or_empty_at("content");
        !is_blank(content.as_str())
    } else if same(tool, "edit_file") {
        let a = args.text_or_empty_at("old_string");
        let b = args.text_or_empty_at("new_string");
        !a.as_str().is_empty() || !b.as_str().is_empty()
    } else if same(tool, "bash") {
        let command = args.text_or_empty_at("command");
        line_count(command.as_str()) > 1 || command.as_str().unicode_len() > 80 || body
    } else if same(tool, "read_file") || same(tool, "search_content") || same(tool, "list_files")
        || same(tool, "web_read") || same(tool, "view_outline") || same(tool, "code_map") {
        body
    } else {
        let (_, shown) = tool_call_parts(tool, args);
        contains_char(shown.as_str(), '…') || body
    }
}

// ---------------------------------------------------------------------------
// Output of commands
// ---------------------------------------------------------------------------

/// The exit code in its notation, a question mark where there is none.
pub open spec fn exit_label(data: Value) -> Seq<char> {
    match member(data, "exit_code"@) {
        Some(v) => notation(v),
        None => "?"@,
    }
}

pub open spec fn succeeded(data: Value) -> bool {
    bool_of(member(data, "success"@)) == Some(true)
}

fn read_exit(data: &Json) -> (r: String)
    ensures
        r@ == exit_label(data@),
{
    match data.get("exit_code") {
        Some(v) => v.to_text(),
        None => "?".to_string(),
    }
}

fn read_success(data: &Json) -> (r: bool)
    ensures
        r == succeeded(data@),
{
    match data.bool_at("success") {
        Some(b) => b,
        None => false,
    }
}

/// How many lines are not blank.
pub open spec fn full_lines(list: Seq<Seq<char>>) -> nat
    decreases list.len(),
{
    if list.len() == 0 {
        0
    } else {
        full_lines(list.drop_last()) + if blank(list.last()) {
            0nat
        } else {
            1nat
        }
    }
}

/// What a command printed, on both of its streams.
pub open spec fn output_lines(data: Value) -> Seq<Seq<char>> {
    line_list(text_or_empty(data, "stdout"@)) + line_list(text_or_empty(data, "stderr"@))
}

/// A command's result in one line: how it ended and how much it printed.
pub open spec fn command_summary(data: Value) -> Piece {
    let n = full_lines(output_lines(data));
    let size = if n == 0 {
        "no output"@
    } else {
        decimal(n) + (if n == 1 {
            " line"@
        } else {
            " lines"@
        })
    };
    if succeeded(data) {
        piece("ran · "@ + size, subtle())
    } else {
        piece("exited "@ + exit_label(data) + " · "@ + size, colored(danger()))
    }
}

fn read_output(data: &Json) -> (r: Vec<String>)
    ensures
        texts(r@) == output_lines(data@),
{
    let stdout = data.text_or_empty_at("stdout");
    let stderr = data.text_or_empty_at("stderr");
    let mut list = lines(stdout.as_str());
    let mut more = lines(stderr.as_str());
    let ghost a = texts(list@);
    let ghost b = texts(more@);
    list.append(&mut more);
    assert(texts(list@) =~= a + b);
    list
}

fn count_full(list: &Vec<String>) -> (r: usize)
    ensures
        r == full_lines(texts(list@)),
        r <= list.len(),
{
    let ghost all = texts(list@);
    let mut n: usize = 0;
    for i in 0..list.len()
        invariant
            all == texts(list@),
            n <= i,
            n == full_lines(all.take(i as int)),
    {
        assert(all.take(i + 1).drop_last() =~= all.take(i as int));
        assert(all.take(i + 1).last() == list@[i as int]@);
        if !is_blank(list[i].as_str()) {
            n += 1;
        }
    }
    assert(all.take(all.len() as int) =~= all);
    n
}

pub fn bash_result_items(data: &Json) -> (r: Vec<Span>)
    ensures
        pieces_of(r@) == seq![command_summary(data@)],
{
    let n = count_full(&read_output(data));
    let size = if n == 0 {
        "no output".to_string()
    } else {
        let d = decimal_string(n as u64);
        if n == 1 {
            cat2(d.as_str(), " line")
        } else {
            cat2(d.as_str(), " lines")
        }
    };
    let item = if read_success(data) {
        Span { text: cat2("ran · ", size.as_str()), style: subtle() }
    } else {
        let exit = read_exit(data);
        Span {
            text: cat4("exited ", exit.as_str(), " · ", size.as_str()),
            style: colored(danger()),
        }
    };
    let mut items = no_spans();
    push_span(&mut items, item);
    assert(pieces_of(items@) =~= seq![command_summary(data@)]);
    items
}

/// A command's result at length: how it ended, then up to `max` lines.
pub open spec fn command_items_expanded(data: Value, max: nat) -> Seq<Piece> {
    let style = if succeeded(data) {
        subtle()
    } else {
        colored(danger())
    };
    let list = output_lines(data);
    let head = piece(
        (if succeeded(data) {
            "exit "@
        } else {
            "exited "@
        }) + exit_label(data),
        style,
    );
    seq![head] + list.take(smaller(list.len(), max) as int).map_values(
        |l: Seq<char>| piece(l, style),
    ) + more_items(list.len(), max, "… +"@, " more lines"@, colored(faint())) + if list.len() == 0 {
        seq![piece("no output"@, colored(faint()))]
    } else {
        Seq::empty()
    }
}

/// Adds the first `max` texts of a list.
fn push_first(items: &mut Vec<Span>, list: &Vec<String>, max: usize, style: Style)
    ensures
        pieces_of(final(items)@) == pieces_of(old(items)@) + texts(list@).take(
            smaller(list@.len(), max as nat) as int,
        ).map_values(|l: Seq<char>| piece(l, style)),
{
    let n: usize = if list.len() <= max {
        list.len()
    } else {
        max
    };
    let ghost before = pieces_of(items@);
    let ghost all = texts(list@);
    let ghost f = |l: Seq<char>| piece(l, style);
    assert(before + all.take(0).map_values(f) =~= before);
    for i in 0..n
        invariant
            n <= list.len(),
            all == texts(list@),
            f == (|l: Seq<char>| piece(l, style)),
            pieces_of(items@) == before + all.take(i as int).map_values(f),
    {
        push_span(items, span(list[i].as_str(), style));
        assert(all.take(i + 1).map_values(f) =~= all.take(i as int).map_values(f).push(
            f(all[i as int]),
        ));
        assert(before + all.take(i + 1).map_values(f) =~= (before + all.take(
            i as int,
        ).map_values(f)).push(f(all[i as int])));
    }
}

fn bash_result_items_expanded(data: &Json, max: usize) -> (r: Vec<Span>)
    ensures
        pieces_of(r@) == command_items_expanded(data@, max as nat),
{
    let ok = read_success(data);
    let exit = read_exit(data);
    let style = if ok {
        subtle()
    } else {
        colored(danger())
    };
    let list = read_output(data);
    assert(texts(list@).len() == list@.len());
    let mut items = no_spans();
    let lead = if ok {
        "exit "
    } else {
        "exited "
    };
    push_span(&mut items, Span { text: cat2(lead, exit.as_str()), style });
    push_first(&mut items, &list, max, style);
    push_more(&mut items, list.len(), max, "… +", " more lines", colored(faint()));
    if list.len() == 0 {
        push_span(&mut items, span("no output", colored(faint())));
    }
    assert(pieces_of(items@) =~= command_items_expanded(data@, max as nat));
    items
}

// ---------------------------------------------------------------------------
// Results in short
// ---------------------------------------------------------------------------

/// How large the output was that was too large to show.
pub open spec fn spilled_size(result: Value) -> u64 {
    match member(result, "original_stats"@) {
        Some(stats) => match unsigned_of(member(stats, "char_count"@)) {
            Some(n) => n,
            None => 0,
        },
        None => 0,
    }
}

/// What is said of output that was too large to show.
pub open spec fn spilled(result: Value) -> Seq<char> {
    let place = match text_of(member(result, "saved_output_path"@)) {
        Some(p) => " → "@ + p,
        None => Seq::empty(),
    };
    let n = spilled_size(result);
    if n > 0 {
        "output too large ("@ + si(n as nat) + " chars)"@ + place
    } else {
        "output too large"@ + place
    }
}

/// The message of an error.
pub open spec fn error_message(result: Value) -> Seq<char> {
    match member(result, "error"@) {
        Some(e) => match text_of(member(e, "message"@)) {
            Some(m) => m,
            None => "failed"@,
        },
        None => "failed"@,
    }
}

/// The names of the entries that have one, at most `max`.
pub open spec fn entry_names(items: Seq<Value>, max: nat) -> Seq<Seq<char>>
    decreases items.len(),
{
    if items.len() == 0 {
        Seq::empty()
    } else {
        let before = entry_names(items.drop_last(), max);
        match text_of(member(items.last(), "name"@)) {
            Some(n) => if before.len() < max {
                before.push(n)
            } else {
                before
            },
            None => before,
        }
    }
}

/// The list of a member, empty where there is none.
pub open spec fn list_at(data: Value, name: Seq<char>) -> Seq<Value> {
    match items_of(member(data, name)) {
        Some(items) => items,
        None => Seq::empty(),
    }
}

pub open spec fn count_at(data: Value, name: Seq<char>) -> u64 {
    match unsigned_of(member(data, name)) {
        Some(n) => n,
        None => 0,
    }
}

/// What is said of a result in short.
pub open spec fn short_items(tool: Seq<char>, result: Value) -> Seq<Piece> {
    let data = data_of(result);
    let one = |s: Seq<char>| seq![piece(s, subtle())];
    let field = |key: Seq<char>| text_or_empty(data, key);
    if tool == "read_file"@ {
        one("Read "@ + decimal(lines_of(data, "content"@)) + " lines"@)
    } else if tool == "write_file"@ {
        one("Wrote "@ + field("path"@))
    } else if tool == "edit_file"@ {
        one("Updated "@ + field("path"@))
    } else if tool == "list_files"@ {
        let list = list_at(data, "entries"@);
        seq![
            piece(decimal(list.len()) + " entries"@, subtle()),
            piece(joined(entry_names(list, 12), "  "@), subtle()),
        ]
    } else if tool == "search_content"@ {
        one("Found "@ + decimal(count_at(data, "count"@) as nat) + " content matches"@)
    } else if tool == "web_search"@ {
        one(decimal(count_at(data, "count"@) as nat) + " web results"@)
    } else if tool == "web_read"@ {
        one("Read "@ + decimal(field("text"@).len()) + " chars"@)
    } else if tool == "view_outline"@ {
        if bool_of(member(data, "is_directory"@)) == Some(true) {
            one("Directory — "@ + decimal(list_at(data, "entries"@).len()) + " entries"@)
        } else {
            one(
                "Outline has "@ + decimal(list_at(data, "outline"@).len()) + " code declarations"@,
            )
        }
    } else if tool == "bash"@ {
        seq![command_summary(data)]
    } else {
        one(text_or_empty(result, "status"@))
    }
}

/// The items that say anything.
pub open spec fn said(items: Seq<Piece>) -> Seq<Piece> {
    items.filter(|p: Piece| p.text.len() > 0)
}

/// A result in short: how it failed, that it was too large, or what it gave.
pub open spec fn short_result(tool: Seq<char>, result: Value, width: nat) -> Seq<Seq<Piece>> {
    if is_truncated(result) {
        block(seq![piece(spilled(result), subtle().slanted())], width, false)
    } else if is_error(result) {
        block(seq![piece("✗ "@ + error_message(result), colored(danger()))], width, false)
    } else {
        block(said(short_items(tool, result)), width, tool == "bash"@)
    }
}

fn one_item(item: Span) -> (r: Vec<Span>)
    ensures
        pieces_of(r@) == seq![item@],
{
    let mut items = no_spans();
    push_span(&mut items, item);
    assert(pieces_of(items@) =~= seq![item@]);
    items
}

fn spilled_text(result: &Json) -> (r: String)
    ensures
        r@ == spilled(result@),
{
    let n: u64 = match result.get("original_stats") {
        Some(stats) => match stats.u64_at("char_count") {
            Some(n) => n,
            None => 0,
        },
        None => 0,
    };
    let place = match result.text_at("saved_output_path") {
        Some(p) => cat2(" → ", p.as_str()),
        None => {
            let none = String::new();
            assert(none@ =~= Seq::<char>::empty());
            none
        },
    };
    if n > 0 {
        let size = fmt_si(n);
        cat4("output too large (", size.as_str(), " chars)", place.as_str())
    } else {
        cat2("output too large", place.as_str())
    }
}

fn read_error(result: &Json) -> (r: String)
    ensures
        r@ == error_message(result@),
{
    match result.get("error") {
        Some(e) => match e.text_at("message") {
            Some(m) => m,
            None => "failed".to_string(),
        },
        None => "failed".to_string(),
    }
}

fn list_len(data: &Json, name: &str) -> (r: usize)
    ensures
        r == list_at(data@, name@).len(),
{
    match data.array_at(name) {
        Some(items) => {
            assert(values(items@).len() == items@.len());
            items.len()
        },
        None => 0,
    }
}

fn read_count(data: &Json, name: &str) -> (r: u64)
    ensures
        r == count_at(data@, name@),
{
    match data.u64_at(name) {
        Some(n) => n,
        None => 0,
    }
}

fn read_names(data: &Json, max: usize) -> (r: Vec<String>)
    ensures
        texts(r@) == entry_names(list_at(data@, "entries"@), max as nat),
{
    let mut names = no_texts();
    match data.array_at("entries") {
        Some(items) => {
            let ghost all = values(items@);
            for i in 0..items.len()
                invariant
                    all == values(items@),
                    texts(names@) == entry_names(all.take(i as int), max as nat),
            {
                assert(all.take(i + 1).drop_last() =~= all.take(i as int));
                assert(all.take(i + 1).last() == items@[i as int]@);
                assert(texts(names@).len() == names@.len());
                match items[i].text_at("name") {
                    Some(n) => {
                        if names.len() < max {
                            push_text(&mut names, n);
                        }
                    },
                    None => {},
                }
            }
            assert(all.take(all.len() as int) =~= all);
        },
        None => {},
    }
    names
}

fn numbered(before: &str, n: u64, after: &str) -> (r: Vec<Span>)
    ensures
        pieces_of(r@) == seq![piece(before@ + decimal(n as nat) + after@, subtle())],
{
    let d = decimal_string(n);
    one_item(Span { text: cat3(before, d.as_str(), after), style: subtle() })
}

fn said_of(before: &str, text: &str) -> (r: Vec<Span>)
    ensures
        pieces_of(r@) == seq![piece(before@ + text@, subtle())],
{
    one_item(Span { text: cat2(before, text), style: subtle() })
}

fn counted_first(n: u64, after: &str) -> (r: Span)
    ensures
        r@ == piece(decimal(n as nat) + after@, subtle()),
{
    let d = decimal_string(n);
    Span { text: cat2(d.as_str(), after), style: subtle() }
}

fn short_of(tool: &str, result: &Json) -> (r: Vec<Span>)
    ensures
        pieces_of(r@) == short_items(tool@, result@),
{
    let data = find_data(result);
    if same(tool, "read_file") {
        let content = data.text_or_empty_at("content");
        numbered("Read ", line_count(content.as_str()) as u64, " lines")
    } else if same(tool, "write_file") {
        said_of("Wrote ", data.text_or_empty_at("path").as_str())
    } else if same(tool, "edit_file") {
        said_of("Updated ", data.text_or_empty_at("path").as_str())
    } else if same(tool, "list_files") {
        let mut items = no_spans();
        let names = read_names(data, 12);
        push_span(&mut items, counted_first(list_len(data, "entries") as u64, " entries"));
        push_span(&mut items, Span { text: join(&names, "  "), style: subtle() });
        assert(pieces_of(items@) =~= short_items(tool@, result@));
        items
    } else if same(tool, "search_content") {
        numbered("Found ", read_count(data, "count"), " content matches")
    } else if same(tool, "web_search") {
        one_item(counted_first(read_count(data, "count"), " web results"))
    } else if same(tool, "web_read") {
        let text = data.text_or_empty_at("text");
        numbered("Read ", text.as_str().unicode_len() as u64, " chars")
    } else if same(tool, "view_outline") {
        let dir = match data.bool_at("is_directory") {
            Some(b) => b,
            None => false,
        };
        if dir {
            numbered("Directory — ", list_len(data, "entries") as u64, " entries")
        } else {
            numbered("Outline has ", list_len(data, "outline") as u64, " code declarations")
        }
    } else if same(tool, "bash") {
        bash_result_items(data)
    } else {
        one_item(Span { text: result.text_or_empty_at("status"), style: subtle() })
    }
}

fn drop_silent(items: &Vec<Span>) -> (r: Vec<Span>)
    ensures
        pieces_of(r@) == said(pieces_of(items@)),
{
    let ghost all = pieces_of(items@);
    let ghost p = |p: Piece| p.text.len() > 0;
    let mut out = no_spans();
    proof {
        all.take(0).lemma_filter_len(p);
        assert(pieces_of(out@) =~= all.take(0).filter(p));
    }
    for i in 0..items.len()
        invariant
            all == pieces_of(items@),
            p == (|p: Piece| p.text.len() > 0),
            pieces_of(out@) == all.take(i as int).filter(p),
    {
        proof {
            all.take(i as int).lemma_filter_push(all[i as int], p);
            assert(all.take(i + 1) =~= all.take(i as int).push(all[i as int]));
            assert(all[i as int] == items@[i as int]@);
        }
        if !items[i].text.as_str().is_empty() {
            push_span(&mut out, copy_span(&items[i]));
        }
    }
    assert(all.take(all.len() as int) =~= all);
    out
}

pub fn tool_result_lines(tool: &str, result: &Json, width: usize) -> (r: Vec<Line>)
    ensures
        rows(r@) == short_result(tool@, result@, width as nat),
{
    if truncated(result) {
        let item = Span { text: spilled_text(result), style: subtle().slanted() };
        return result_block(&one_item(item), width);
    }
    if failed(result) {
        let message = read_error(result);
        let item = Span { text: cat2("✗ ", message.as_str()), style: colored(danger()) };
        return result_block(&one_item(item), width);
    }
    let items = drop_silent(&short_of(tool, result));
    result_block_inner(&items, width, same(tool, "bash"))
}

// ---------------------------------------------------------------------------
// Results at length
// ---------------------------------------------------------------------------

/// How many lines of a result are shown at length.
pub const LONG_LINES: usize = 24;

/// The first lines of a text and how many more there are.
pub open spec fn sample(text: Seq<char>) -> Seq<Piece> {
    let list = line_list(text);
    list.take(smaller(list.len(), LONG_LINES as nat) as int).map_values(
        |l: Seq<char>| piece(l, subtle()),
    ) + more_items(list.len(), LONG_LINES as nat, "… +"@, " more lines"@, colored(faint()))
}

/// How many lines a text has, then its first lines.
pub open spec fn counted_sample(text: Seq<char>) -> Seq<Piece> {
    seq![piece(lines_label(line_list(text).len()), subtle())] + sample(text)
}

pub open spec fn first_member(v: Value, a: Seq<char>, b: Seq<char>) -> Option<Value> {
    if member(v, a) is Some {
        member(v, a)
    } else {
        member(v, b)
    }
}

/// One match of a search: where it is, as far as that is known, and the line.
pub open spec fn match_label(m: Value) -> Seq<char> {
    let line = match text_of(
        if member(m, "line"@) is Some {
            member(m, "line"@)
        } else {
            first_member(m, "text"@, "content"@)
        },
    ) {
        Some(s) => s,
        None => Seq::empty(),
    };
    let path = text_or_empty(m, "path"@);
    if path.len() == 0 {
        line
    } else {
        match unsigned_of(first_member(m, "line_number"@, "line_no"@)) {
            Some(n) => path + ":"@ + decimal(n as nat) + ": "@ + line,
            None => path + ": "@ + line,
        }
    }
}

pub open spec fn match_items(list: Seq<Value>) -> Seq<Piece> {
    list.take(smaller(list.len(), LONG_LINES as nat) as int).map_values(
        |m: Value| piece(match_label(m), subtle()),
    ) + more_items(list.len(), LONG_LINES as nat, "… +"@, " more"@, colored(faint()))
}

/// What is said of a result at length, where there is more to say than in short.
pub open spec fn long_items(tool: Seq<char>, result: Value) -> Option<Seq<Piece>> {
    let data = data_of(result);
    let one = |s: Seq<char>| seq![piece(s, subtle())];
    if tool == "bash"@ {
        Some(command_items_expanded(data, LONG_LINES as nat))
    } else if tool == "read_file"@ {
        Some(counted_sample(text_or_empty(data, "content"@)))
    } else if tool == "search_content"@ {
        Some(
            one(decimal(count_at(data, "count"@) as nat) + " matches"@) + match items_of(
                member(data, "matches"@),
            ) {
                Some(list) => match_items(list),
                None => Seq::empty(),
            },
        )
    } else if tool == "web_read"@ {
        Some(counted_sample(text_or_empty(data, "text"@)))
    } else if tool == "memory_read"@ {
        let content = match text_of(first_member(data, "content"@, "entry"@)) {
            Some(s) => s,
            None => Seq::empty(),
        };
        Some(
            sample(content) + if content.len() == 0 {
                one("saved"@)
            } else {
                Seq::empty()
            },
        )
    } else if tool == "memory_write"@ || tool == "memory_rule"@ || tool == "memory_pattern"@ || tool
        == "memory_index"@ || tool == "memory_delete"@ {
        Some(
            one("saved"@) + match text_of(member(data, "id"@)) {
                Some(id) => one("id  "@ + id),
                None => Seq::empty(),
            },
        )
    } else {
        None
    }
}

/// A result at length. Where there is no more to say, or it failed or was too
/// large, it is shown in short.
pub open spec fn long_result(tool: Seq<char>, result: Value, width: nat) -> Seq<Seq<Piece>> {
    match long_items(tool, result) {
        Some(items) => if is_truncated(result) || is_error(result) || said(items).len() == 0 {
            short_result(tool, result, width)
        } else {
            block(said(items), width, tool == "bash"@ || tool == "read_file"@)
        },
        None => short_result(tool, result, width),
    }
}

fn push_sample(items: &mut Vec<Span>, text: &str)
    ensures
        pieces_of(final(items)@) == pieces_of(old(items)@) + sample(text@),
{
    let ghost before = pieces_of(items@);
    let list = lines(text);
    assert(texts(list@).len() == list@.len());
    push_first(items, &list, LONG_LINES, subtle());
    push_more(items, list.len(), LONG_LINES, "… +", " more lines", colored(faint()));
    assert(pieces_of(items@) =~= before + sample(text@));
}

fn counted_sample_of(text: &str) -> (r: Vec<Span>)
    ensures
        pieces_of(r@) == counted_sample(text@),
{
    let mut items = one_item(counted_first(line_count(text) as u64, " lines"));
    push_sample(&mut items, text);
    items
}

fn text_in_first(v: &Json, a: &str, b: &str) -> (r: Option<String>)
    ensures
        text_of(first_member(v@, a@, b@)) == match r {
            Some(s) => Some(s@),
            None => None,
        },
{
    if v.get(a).is_some() {
        v.text_at(a)
    } else {
        v.text_at(b)
    }
}

fn describe_match(m: &Json) -> (r: String)
    ensures
        r@ == match_label(m@),
{
    let line = match if m.get("line").is_some() {
        m.text_at("line")
    } else {
        text_in_first(m, "text", "content")
    } {
        Some(s) => s,
        None => {
            let none = String::new();
            assert(none@ =~= Seq::<char>::empty());
            none
        },
    };
    let path = m.text_or_empty_at("path");
    if path.as_str().is_empty() {
        return line;
    }
    let number = if m.get("line_number").is_some() {
        m.u64_at("line_number")
    } else {
        m.u64_at("line_no")
    };
    match number {
        Some(n) => {
            let d = decimal_string(n);
            cat5(path.as_str(), ":", d.as_str(), ": ", line.as_str())
        },
        None => cat3(path.as_str(), ": ", line.as_str()),
    }
}

fn push_matches(items: &mut Vec<Span>, list: &Vec<Json>)
    ensures
        pieces_of(final(items)@) == pieces_of(old(items)@) + match_items(values(list@)),
{
    let n: usize = if list.len() <= LONG_LINES {
        list.len()
    } else {
        LONG_LINES
    };
    let ghost before = pieces_of(items@);
    let ghost all = values(list@);
    let ghost f = |m: Value| piece(match_label(m), subtle());
    assert(before + all.take(0).map_values(f) =~= before);
    for i in 0..n
        invariant
            n <= list.len(),
            all == values(list@),
            f == (|m: Value| piece(match_label(m), subtle())),
            pieces_of(items@) == before + all.take(i as int).map_values(f),
    {
        assert(all[i as int] == list@[i as int]@);
        push_span(items, Span { text: describe_match(&list[i]), style: subtle() });
        assert(all.take(i + 1).map_values(f) =~= all.take(i as int).map_values(f).push(
            f(all[i as int]),
        ));
        assert(before + all.take(i + 1).map_values(f) =~= (before + all.take(
            i as int,
        ).map_values(f)).push(f(all[i as int])));
    }
    assert(all.len() == list@.len());
    push_more(items, list.len(), LONG_LINES, "… +", " more", colored(faint()));
    assert(pieces_of(items@) =~= before + match_items(all));
}

fn long_of(tool: &str, result: &Json) -> (r: Option<Vec<Span>>)
    ensures
        long_items(tool@, result@) == match r {
            Some(items) => Some(pieces_of(items@)),
            None => None,
        },
{
    let data = find_data(result);
    let ghost goal = long_items(tool@, result@);
    if same(tool, "bash") {
        return Some(bash_result_items_expanded(data, LONG_LINES));
    }
    if same(tool, "read_file") {
        return Some(counted_sample_of(data.text_or_empty_at("content").as_str()));
    }
    if same(tool, "search_content") {
        let mut items = one_item(counted_first(read_count(data, "count"), " matches"));
        match data.array_at("matches") {
            Some(list) => {
                push_matches(&mut items, list);
            },
            None => {},
        }
        assert(pieces_of(items@) =~= goal->0);
        return Some(items);
    }
    if same(tool, "web_read") {
        return Some(counted_sample_of(data.text_or_empty_at("text").as_str()));
    }
    if same(tool, "memory_read") {
        let content = match text_in_first(data, "content", "entry") {
            Some(s) => s,
            None => {
                let none = String::new();
                assert(none@ =~= Seq::<char>::empty());
                none
            },
        };
        let mut items = no_spans();
        push_sample(&mut items, content.as_str());
        if content.as_str().is_empty() {
            push_span(&mut items, span("saved", subtle()));
        }
        assert(pieces_of(items@) =~= goal->0);
        return Some(items);
    }
    if same(tool, "memory_write") || same(tool, "memory_rule") || same(tool, "memory_pattern")
        || same(tool, "memory_index") || same(tool, "memory_delete") {
        let mut items = one_item(span("saved", subtle()));
        match data.text_at("id") {
            Some(id) => {
                push_span(
                    &mut items,
                    Span { text: cat2("id  ", id.as_str()), style: subtle() },
                );
            },
            None => {},
        }
        assert(pieces_of(items@) =~= goal->0);
        return Some(items);
    }
    None
}

/// A result with samples of its content, not just counts.
pub fn tool_result_lines_expanded(tool: &str, result: &Json, width: usize) -> (r: Vec<Line>)
    ensures
        rows(r@) == long_result(tool@, result@, width as nat),
{
    if truncated(result) || failed(result) {
        return tool_result_lines(tool, result, width);
    }
    match long_of(tool, result) {
        Some(all) => {
            let items = drop_silent(&all);
            assert(pieces_of(items@).len() == items@.len());
            if items.len() == 0 {
                tool_result_lines(tool, result, width)
            } else {
                result_block_inner(&items, width, same(tool, "bash") || same(tool, "read_file"))
            }
        },
        None => tool_result_lines(tool, result, width),
    }
}

// ---------------------------------------------------------------------------
// A result in one line
// ---------------------------------------------------------------------------

/// What a result comes to in a few words, for the tools of which that can be said.
pub open spec fn brief(tool: Seq<char>, result: Value) -> Option<Seq<char>> {
    let data = data_of(result);
    if is_error(result) {
        None
    } else if tool == "read_file"@ {
        let n = line_list(text_or_empty(data, "content"@)).len();
        Some(
            decimal(n) + (if n == 1 {
                " line"@
            } else {
                " lines"@
            }),
        )
    } else if tool == "write_file"@ {
        Some("written"@)
    } else if tool == "edit_file"@ {
        Some("updated"@)
    } else if tool == "replace_file_content"@ {
        Some("replaced"@)
    } else if tool == "search_content"@ {
        Some(decimal(count_at(data, "count"@) as nat) + " matches"@)
    } else if tool == "web_search"@ {
        Some(decimal(count_at(data, "count"@) as nat) + " results"@)
    } else if tool == "web_read"@ {
        Some(decimal(text_or_empty(data, "text"@).len()) + " chars"@)
    } else if tool == "view_outline"@ {
        if bool_of(member(data, "is_directory"@)) == Some(true) {
            Some(decimal(list_at(data, "entries"@).len()) + " entries"@)
        } else {
            Some(decimal(list_at(data, "outline"@).len()) + " decls"@)
        }
    } else {
        None
    }
}

fn count_of(n: u64, what: &str) -> (r: Option<String>)
    ensures
        opt_text(r) == Some(decimal(n as nat) + what@),
{
    let d = decimal_string(n);
    Some(cat2(d.as_str(), what))
}

/// What a result comes to in a few words.
pub fn tool_result_oneliner(tool: &str, result: &Json) -> (r: Option<String>)
    ensures
        opt_text(r) == brief(tool@, result@),
{
    if failed(result) {
        return None;
    }
    let data = find_data(result);
    if same(tool, "read_file") {
        let content = data.text_or_empty_at("content");
        let n = line_count(content.as_str());
        if n == 1 {
            count_of(n as u64, " line")
        } else {
            count_of(n as u64, " lines")
        }
    } else if same(tool, "write_file") {
        Some("written".to_string())
    } else if same(tool, "edit_file") {
        Some("updated".to_string())
    } else if same(tool, "replace_file_content") {
        Some("replaced".to_string())
    } else if same(tool, "search_content") {
        count_of(read_count(data, "count"), " matches")
    } else if same(tool, "web_search") {
        count_of(read_count(data, "count"), " results")
    } else if same(tool, "web_read") {
        let text = data.text_or_empty_at("text");
        count_of(text.as_str().unicode_len() as u64, " chars")
    } else if same(tool, "view_outline") {
        let directory = match data.bool_at("is_directory") {
            Some(b) => b,
            None => false,
        };
        if directory {
            count_of(list_len(data, "entries") as u64, " entries")
        } else {
            count_of(list_len(data, "outline") as u64, " decls")
        }
    } else {
        None
    }
}

} // verus!
