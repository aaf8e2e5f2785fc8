//! What the screen says of a call and of its result, in terms of what the call was
//! given and what came back.
use crate::asking::told;
use crate::blocks::{block, item_pieces, items_pieces};
use crate::figures::si;
use crate::json::{Value, bool_of, items_of, member, text_of, text_or_empty, unsigned_of};
use crate::lexis::{
    alphabet, digits_stand_in_order, lemma_alphabet, lines_end_with_line_feeds,
    parts_are_joined_back, separators_part_a_text, texts_hold_their_parts,
};
use crate::results::{
    command_items_expanded, command_summary, count_at, counted_sample, data_of, entry_names,
    exit_label, full_lines, has_body, is_error, is_truncated, list_at, long_result, match_label,
    said, sample, short_items, short_result, spilled, spilled_size, succeeded,
};
use crate::style::{Piece, Style, colored, piece, room};
use crate::table::lemma_joined_concat;
use crate::text::{
    blank, decimal, ends, joined, lemma_pieces_nonempty, line_list, pieces, starts, trimmed, words,
};
use crate::theme::{danger, subtle, success};
use crate::tools::{
    ToolRowStatus, call_head, call_parts, capitalized, command_items, content_items, edit_items,
    more_items, one_line, pretty_name,
};
use crate::wrap::{code_wrapped, wrapped};
use vstd::prelude::*;

verus! {

// ---------------------------------------------------------------------------
// Commands
// ---------------------------------------------------------------------------

/// How many lines of a text are not blank.
pub open spec fn full_count(text: Seq<char>) -> nat {
    line_list(text).filter(|l: Seq<char>| !blank(l)).len()
}

/// How an amount of lines is put.
pub open spec fn amount(n: nat) -> Seq<char> {
    if n == 0 {
        "no output"@
    } else if n == 1 {
        "1 line"@
    } else {
        decimal(n) + " lines"@
    }
}

/// The lines said of a command are those of both streams together that are not
/// blank. A line on either stream is output.
pub proof fn both_streams_are_counted(data: Value, out: Seq<char>, err: Seq<char>)
    requires
        text_or_empty(data, "stdout"@) == out,
        text_or_empty(data, "stderr"@) == err,
    ensures
        succeeded(data) ==> command_summary(data).text == "ran · "@ + amount(
            full_count(out) + full_count(err),
        ),
        !succeeded(data) ==> command_summary(data).text == "exited "@ + exit_label(data) + " · "@
            + amount(full_count(out) + full_count(err)),
        full_count(out) + full_count(err) > 0 ==> !ends(command_summary(data).text, "no output"@),
{
    lemma_full_filter(line_list(out));
    lemma_full_filter(line_list(err));
    lemma_full_concat(line_list(out), line_list(err));
    let n = full_count(out) + full_count(err);
    reveal_strlit("1 line");
    reveal_strlit(" line");
    reveal_strlit(" lines");
    reveal_strlit("0123456789");
    reveal_strlit("no output");
    digits_stand_in_order(0, 1);
    assert(decimal(1) + " line"@ =~= "1 line"@);
    let t = command_summary(data).text;
    if n > 0 {
        let a = amount(n);
        assert(ends(t, a)) by {
            if succeeded(data) {
                texts_hold_their_parts("ran · "@, a, Seq::empty());
            } else {
                texts_hold_their_parts("exited "@ + exit_label(data) + " · "@, a, Seq::empty());
            }
        }
        assert(t.last() == a.last()) by {
            assert(t.subrange(t.len() - a.len(), t.len() as int).last() == t.last());
        }
        if ends(t, "no output"@) {
            assert(t.subrange(t.len() - 9, t.len() as int).last() == t.last());
        }
    }
}

proof fn lemma_full_filter(list: Seq<Seq<char>>)
    ensures
        full_lines(list) == list.filter(|l: Seq<char>| !blank(l)).len(),
    decreases list.len(),
{
    reveal(Seq::filter);
    if list.len() > 0 {
        lemma_full_filter(list.drop_last());
    }
}

proof fn lemma_full_concat(a: Seq<Seq<char>>, b: Seq<Seq<char>>)
    ensures
        full_lines(a + b) == full_lines(a) + full_lines(b),
    decreases b.len(),
{
    if b.len() == 0 {
        assert(a + b =~= a);
    } else {
        assert((a + b).drop_last() =~= a + b.drop_last());
        assert((a + b).last() == b.last());
        lemma_full_concat(a, b.drop_last());
    }
}

/// At length a command tells how it ended, then the lines of its output in order,
/// up to the limit, those of the error stream behind the others, and then how many
/// are left out.
pub proof fn both_streams_are_shown(data: Value, max: nat, out: Seq<char>, err: Seq<char>)
    requires
        text_or_empty(data, "stdout"@) == out,
        text_or_empty(data, "stderr"@) == err,
    ensures
        ({
            let items = command_items_expanded(data, max);
            let a = line_list(out);
            let b = line_list(err);
            let n = a.len() + b.len();
            &&& items[0].text == (if succeeded(data) {
                "exit "@
            } else {
                "exited "@
            }) + exit_label(data)
            &&& forall|i: int|
                0 <= i < a.len() && i < max ==> (#[trigger] items[i + 1]).text == a[i]
            &&& forall|i: int|
                a.len() <= i < n && i < max ==> (#[trigger] items[i + 1]).text == b[i - a.len()]
            &&& 0 < n <= max ==> items.len() == n + 1
            &&& n > max ==> items.len() == max + 2 && items.last().text == "… +"@ + decimal(
                (n - max) as nat,
            ) + " more lines"@
            &&& n == 0 ==> items.len() == 2 && items[1].text == "no output"@
        }),
{
}

/// An item that says something is shown.
proof fn lemma_said(items: Seq<Piece>, i: int)
    requires
        0 <= i < items.len(),
        items[i].text.len() > 0,
    ensures
        said(items).contains(items[i]),
        said(items).len() > 0,
{
    let p = |p: Piece| p.text.len() > 0;
    items.lemma_filter_contains(p, i);
    let k = choose|k: int| 0 <= k < said(items).len() && said(items)[k] == items[i];
}

/// The outcome of a command that was not cut short shows every line of the error
/// stream that the limit leaves room for.
pub proof fn errors_of_a_command_are_shown(result: Value, width: nat, j: int)
    requires
        !is_error(result),
        !is_truncated(result),
        0 <= j < line_list(text_or_empty(data_of(result), "stderr"@)).len(),
        line_list(text_or_empty(data_of(result), "stdout"@)).len() + j < 24,
        line_list(text_or_empty(data_of(result), "stderr"@))[j].len() > 0,
    ensures
        ({
            let line = line_list(text_or_empty(data_of(result), "stderr"@))[j];
            let items = said(command_items_expanded(data_of(result), 24));
            &&& long_result("bash"@, result, width) == block(items, width, true)
            &&& exists|k: int| 0 <= k < items.len() && (#[trigger] items[k]).text == line
        }),
{
    let data = data_of(result);
    let a = line_list(text_or_empty(data, "stdout"@));
    let items = command_items_expanded(data, 24);
    both_streams_are_shown(
        data,
        24,
        text_or_empty(data, "stdout"@),
        text_or_empty(data, "stderr"@),
    );
    let i = a.len() + j;
    assert(items[i + 1].text == line_list(text_or_empty(data, "stderr"@))[j]);
    lemma_said(items, i + 1);
    let k = choose|k: int| 0 <= k < said(items).len() && said(items)[k] == items[i + 1];
    assert(said(items)[k].text == line_list(text_or_empty(data, "stderr"@))[j]);
}

// ---------------------------------------------------------------------------
// Results
// ---------------------------------------------------------------------------

/// What is read of a result is its data, where there is such a member.
pub proof fn results_are_about_their_data(result: Value)
    ensures
        member(result, "data"@) matches Some(d) ==> data_of(result) == d,
        member(result, "data"@) is None ==> data_of(result) == result,
        is_error(result) <==> text_of(member(result, "status"@)) == Some("error"@),
        is_truncated(result) <==> bool_of(member(result, "truncated"@)) == Some(true),
{
}

/// A failure is told by its message, in short and at length, whatever the tool; where
/// it has none, as such. Output that was too large is told as that before anything
/// else.
pub proof fn failures_are_told_by_their_message(tool: Seq<char>, result: Value, width: nat)
    requires
        is_error(result) || is_truncated(result),
    ensures
        long_result(tool, result, width) == short_result(tool, result, width),
        !is_truncated(result) ==> short_result(tool, result, width) == block(
            seq![
                piece(
                    "✗ "@ + match member(result, "error"@) {
                        Some(e) => match text_of(member(e, "message"@)) {
                            Some(m) => m,
                            None => "failed"@,
                        },
                        None => "failed"@,
                    },
                    colored(danger()),
                ),
            ],
            width,
            false,
        ),
        is_truncated(result) ==> exists|items: Seq<Piece>|
            #![trigger block(items, width, false)]
            short_result(tool, result, width) == block(items, width, false) && items.len() == 1
                && starts(items[0].text, "output too large"@) && (text_of(
                member(result, "saved_output_path"@),
            ) matches Some(p) ==> ends(items[0].text, " → "@ + p)),
{
    if is_truncated(result) {
        let items = seq![piece(spilled(result), subtle().slanted())];
        assert(short_result(tool, result, width) == block(items, width, false));
        let t = spilled(result);
        reveal_strlit("output too large");
        reveal_strlit("output too large (");
        assert("output too large ("@.subrange(0, 16) =~= "output too large"@);
        assert(t.subrange(0, 16) =~= "output too large"@) by {
            if spilled_size(result) > 0 {
                assert(t.subrange(0, 16) =~= "output too large ("@.subrange(0, 16));
            }
        }
        if let Some(p) = text_of(member(result, "saved_output_path"@)) {
            let lead = if spilled_size(result) > 0 {
                "output too large ("@ + si(spilled_size(result) as nat) + " chars)"@
            } else {
                "output too large"@
            };
            texts_hold_their_parts(lead, " → "@ + p, Seq::empty());
        }
    }
}

/// There is more to show of a call where its result failed, printed something or has
/// entries; blank text and empty lists are nothing.
pub proof fn only_what_says_something_is_a_body(result: Value)
    ensures
        is_error(result) ==> has_body(result),
        (text_of(member(data_of(result), "stdout"@)) matches Some(s) && !blank(s)) ==> has_body(
            result,
        ),
        (text_of(member(data_of(result), "stderr"@)) matches Some(s) && !blank(s)) ==> has_body(
            result,
        ),
        (text_of(member(data_of(result), "content"@)) matches Some(s) && !blank(s)) ==> has_body(
            result,
        ),
        (items_of(member(data_of(result), "entries"@)) matches Some(l) && l.len() > 0) ==> has_body(
            result,
        ),
        (items_of(member(data_of(result), "matches"@)) matches Some(l) && l.len() > 0) ==> has_body(
            result,
        ),
        has_body(result) ==> is_error(result) || !(blank(
            text_or_empty(data_of(result), "stdout"@),
        ) && blank(text_or_empty(data_of(result), "stderr"@)) && blank(
            text_or_empty(data_of(result), "content"@),
        ) && blank(text_or_empty(data_of(result), "text"@)) && blank(
            text_or_empty(data_of(result), "output"@),
        ) && list_at(data_of(result), "entries"@).len() == 0 && list_at(
            data_of(result),
            "matches"@,
        ).len() == 0),
{
}

/// The names that a list of files shows are those of its first entries that have
/// one, twelve at most.
pub proof fn names_are_shown_in_order(a: Seq<Value>, x: Value, max: nat)
    ensures
        entry_names(Seq::empty(), max).len() == 0,
        entry_names(a, max).len() <= max,
        text_of(member(x, "name"@)) is None ==> entry_names(a.push(x), max) == entry_names(a, max),
        text_of(member(x, "name"@)) is Some && entry_names(a, max).len() < max ==> entry_names(
            a.push(x),
            max,
        ) == entry_names(a, max).push(text_of(member(x, "name"@))->0),
        entry_names(a, max).len() == max ==> entry_names(a.push(x), max) == entry_names(a, max),
    decreases a.len(),
{
    assert(a.push(x).drop_last() =~= a);
    if a.len() > 0 {
        names_are_shown_in_order(a.drop_last(), a.last(), max);
        assert(a.drop_last().push(a.last()) =~= a);
    }
}

/// A match is told with its file and line, as far as they are known.
pub proof fn matches_are_told_with_their_place(m: Value, path: Seq<char>, line: Seq<char>)
    requires
        member(m, "line"@) == Some(Value::Text(line)),
        text_or_empty(m, "path"@) == path,
    ensures
        ends(match_label(m), line),
        path.len() == 0 ==> match_label(m) == line,
        path.len() > 0 && unsigned_of(member(m, "line_number"@)) is Some ==> match_label(m) == path
            + ":"@ + decimal(unsigned_of(member(m, "line_number"@))->0 as nat) + ": "@ + line,
        path.len() > 0 && member(m, "line_number"@) is None && unsigned_of(
            member(m, "line_no"@),
        ) is Some ==> match_label(m) == path + ":"@ + decimal(
            unsigned_of(member(m, "line_no"@))->0 as nat,
        ) + ": "@ + line,
        path.len() > 0 && member(m, "line_number"@) is None && member(m, "line_no"@) is None
            ==> match_label(m) == path + ": "@ + line,
{
    let t = match_label(m);
    texts_hold_their_parts(t.take(t.len() - line.len()), line, Seq::empty());
    assert(t =~= t.take(t.len() - line.len()) + line);
}

/// Long text is shown by its first lines and the number of those left out.
pub proof fn samples_show_the_first_lines(text: Seq<char>)
    ensures
        ({
            let list = line_list(text);
            let items = sample(text);
            &&& forall|i: int|
                0 <= i < list.len() && i < 24 ==> (#[trigger] items[i]).text == list[i]
            &&& list.len() <= 24 ==> items.len() == list.len()
            &&& list.len() > 24 ==> items.len() == 25 && items[24].text == "… +"@ + decimal(
                (list.len() - 24) as nat,
            ) + " more lines"@
        }),
        counted_sample(text)[0].text == decimal(line_list(text).len()) + " lines"@,
        counted_sample(text).skip(1) == sample(text),
{
    assert(counted_sample(text).skip(1) =~= sample(text));
}

// ---------------------------------------------------------------------------
// Calls
// ---------------------------------------------------------------------------

/// A text of one line that is short enough is shown whole, its words one space
/// apart. Of any other text the beginning of its first line is shown, with an
/// ellipsis behind it.
pub proof fn one_line_shows_the_first(line: Seq<char>, rest: Seq<char>, max: nat)
    requires
        !line.contains('\n'),
        !line.contains('\r'),
        line.len() > 0,
        rest.len() > 0,
    ensures
        ({
            let compact = joined(words(trimmed(line)), " "@);
            &&& compact.len() <= max ==> one_line(line, max) == compact
            &&& compact.len() > max ==> one_line(line, max) == compact.take(max as int) + " …"@
            &&& compact.len() <= max ==> one_line(line + seq!['\n'] + rest, max) == compact + " …"@
            &&& compact.len() > max ==> one_line(line + seq!['\n'] + rest, max) == compact.take(
                max as int,
            ) + " …"@
        }),
{
    assert(line.contains(line.last()));
    lines_end_with_line_feeds(line, rest);
    let all = line + seq!['\n'] + rest;
    lemma_some_line(rest);
    assert(line_list(all).len() > 1);
    assert(line_list(all)[0] == line);
    let compact = joined(words(trimmed(line)), " "@);
    if compact.len() <= max {
        assert(compact.take(compact.len() as int) =~= compact);
    }
}

pub proof fn lemma_some_line(rest: Seq<char>)
    requires
        rest.len() > 0,
    ensures
        line_list(rest).len() > 0,
{
    lemma_pieces_nonempty(rest, '\n');
    let p = pieces(rest, '\n');
    if p.len() == 1 {
        parts_are_joined_back(rest, '\n');
        assert(p =~= seq![p[0]]);
        assert(joined(p, seq!['\n']) == p[0]);
    }
}

/// A name is shown without its underscores, each of its words with a capital
/// letter.
pub proof fn names_are_shown_in_capitals(a: Seq<char>, b: Seq<char>, k: int, rest: Seq<char>)
    requires
        0 <= k < 26,
        !rest.contains('_'),
    ensures
        pretty_name(a + seq!['_'] + b) == pretty_name(a) + pretty_name(b),
        pretty_name(seq![alphabet(false)[k]] + rest) == seq![alphabet(true)[k]] + rest,
        pretty_name(Seq::empty()).len() == 0,
{
    let f = |w: Seq<char>| capitalized(w);
    let none = Seq::<char>::empty();
    separators_part_a_text(a, b, '_');
    lemma_pieces_nonempty(a, '_');
    lemma_pieces_nonempty(b, '_');
    assert((pieces(a, '_') + pieces(b, '_')).map_values(f) =~= pieces(a, '_').map_values(f)
        + pieces(b, '_').map_values(f));
    lemma_joined_concat(pieces(a, '_').map_values(f), pieces(b, '_').map_values(f), none);
    let x = joined(pieces(a, '_').map_values(f), none);
    let y = joined(pieces(b, '_').map_values(f), none);
    assert(x + none + y =~= x + y);
    lemma_alphabet(k);
    let c = alphabet(false)[k];
    let w = seq![c] + rest;
    assert(!w.contains('_')) by {
        if w.contains('_') {
            let i = choose|i: int| 0 <= i < w.len() && w[i] == '_';
            if i > 0 {
                assert(rest[i - 1] == '_');
            }
        }
    }
    separators_part_a_text(w, b, '_');
    assert(w.skip(1) =~= rest);
    assert(pieces(w, '_').map_values(f) =~= seq![capitalized(w)]);
    assert(capitalized(w) =~= seq![alphabet(true)[k]] + rest);
    assert(seq![none].map_values(f) =~= seq![none]);
    assert(pieces(none, '_') =~= seq![none]);
}

/// The name of a call's tool, and what it works on: a file, a query, an address or
/// a command.
pub proof fn calls_are_told_by_their_subject(tool: Seq<char>, args: Value)
    ensures
        tool == "read_file"@ || tool == "read_image"@ || tool == "write_file"@ || tool
            == "edit_file"@ || tool == "append_file"@ || tool == "view_outline"@ ==> call_parts(
            tool,
            args,
        ).1 == text_or_empty(args, "path"@),
        tool == "search_content"@ || tool == "web_search"@ ==> call_parts(tool, args).1
            == text_or_empty(args, "query"@),
        tool == "web_read"@ ==> call_parts(tool, args).1 == text_or_empty(args, "url"@),
        tool == "bash"@ ==> call_parts(tool, args).1 == one_line(
            text_or_empty(args, "command"@),
            90,
        ),
        tool == "memory_read"@ || tool == "memory_delete"@ ==> call_parts(tool, args).1
            == text_or_empty(args, "id"@),
        tool == "read_file"@ || tool == "read_image"@ ==> call_parts(tool, args).0 == "Read"@,
        tool == "write_file"@ ==> call_parts(tool, args).0 == "Write"@,
        tool == "edit_file"@ ==> call_parts(tool, args).0 == "Edit"@,
        tool == "append_file"@ ==> call_parts(tool, args).0 == "Append"@,
        tool == "bash"@ ==> call_parts(tool, args).0 == "Bash"@,
        tool == "list_files"@ && member(args, "path"@) is None ==> call_parts(tool, args).1 == "."@,
        tool == "list_files"@ && text_of(member(args, "path"@)) is Some ==> call_parts(
            tool,
            args,
        ).1 == text_of(member(args, "path"@))->0,
{
    lemma_tool_names();
}

pub proof fn lemma_tool_names()
    ensures
        "read_file"@.len() == 9 && "read_file"@[0] == 'r',
        "read_image"@.len() == 10 && "read_image"@[0] == 'r',
        "write_file"@.len() == 10 && "write_file"@[0] == 'w',
        "edit_file"@.len() == 9 && "edit_file"@[0] == 'e',
        "list_files"@.len() == 10 && "list_files"@[0] == 'l',
        "search_content"@.len() == 14 && "search_content"@[0] == 's',
        "search_files"@.len() == 12 && "search_files"@[0] == 's',
        "view_outline"@.len() == 12 && "view_outline"@[0] == 'v',
        "code_map"@.len() == 8 && "code_map"@[0] == 'c',
        "web_search"@.len() == 10 && "web_search"@[1] == 'e',
        "write_file"@[1] == 'r',
        "web_search"@[0] == 'w',
        "web_read"@.len() == 8 && "web_read"@[0] == 'w',
        "bash"@.len() == 4,
        "memory_write"@.len() == 12 && "memory_write"@[0] == 'm',
        "memory_read"@.len() == 11 && "memory_read"@[8] == 'e',
        "memory_delete"@.len() == 13,
        "memory_index"@.len() == 12 && "memory_index"@[0] == 'm',
        "memory_rule"@.len() == 11 && "memory_rule"@[8] == 'u',
        "memory_pattern"@.len() == 14 && "memory_pattern"@[0] == 'm',
        "append_file"@.len() == 11 && "append_file"@[8] == 'i',
        "replace_file_content"@.len() == 20,
        "memory_write"@[7] == 'w',
        "memory_index"@[7] == 'i',
{
    reveal_strlit("read_file");
    reveal_strlit("read_image");
    reveal_strlit("write_file");
    reveal_strlit("edit_file");
    reveal_strlit("list_files");
    reveal_strlit("search_content");
    reveal_strlit("search_files");
    reveal_strlit("view_outline");
    reveal_strlit("code_map");
    reveal_strlit("web_search");
    reveal_strlit("web_read");
    reveal_strlit("bash");
    reveal_strlit("memory_write");
    reveal_strlit("memory_read");
    reveal_strlit("memory_delete");
    reveal_strlit("memory_index");
    reveal_strlit("memory_rule");
    reveal_strlit("memory_pattern");
    reveal_strlit("append_file");
    reveal_strlit("replace_file_content");
}

/// In short, a result says how much it is.
pub proof fn results_say_how_much(result: Value)
    ensures
        ({
            let data = data_of(result);
            let told = |tool: Seq<char>| short_items(tool, result);
            &&& told("read_file"@).len() == 1 && told("read_file"@)[0].text == "Read "@ + decimal(
                line_list(text_or_empty(data, "content"@)).len(),
            ) + " lines"@
            &&& told("write_file"@).len() == 1 && ends(
                told("write_file"@)[0].text,
                text_or_empty(data, "path"@),
            ) && starts(told("write_file"@)[0].text, "Wrote "@)
            &&& told("edit_file"@).len() == 1 && ends(
                told("edit_file"@)[0].text,
                text_or_empty(data, "path"@),
            ) && starts(told("edit_file"@)[0].text, "Updated "@)
            &&& told("list_files"@)[0].text == decimal(list_at(data, "entries"@).len())
                + " entries"@
            &&& told("list_files"@)[1].text == joined(
                entry_names(list_at(data, "entries"@), 12),
                "  "@,
            )
            &&& told("search_content"@)[0].text == "Found "@ + decimal(
                count_at(data, "count"@) as nat,
            ) + " content matches"@
            &&& told("web_search"@)[0].text == decimal(count_at(data, "count"@) as nat)
                + " web results"@
            &&& told("web_read"@)[0].text == "Read "@ + decimal(text_or_empty(data, "text"@).len())
                + " chars"@
            &&& told("bash"@) == seq![command_summary(data)]
        }),
{
    lemma_tool_names();
    let data = data_of(result);
    texts_hold_their_parts("Wrote "@, text_or_empty(data, "path"@), Seq::empty());
    texts_hold_their_parts(Seq::empty(), "Wrote "@, text_or_empty(data, "path"@));
    texts_hold_their_parts("Updated "@, text_or_empty(data, "path"@), Seq::empty());
    texts_hold_their_parts(Seq::empty(), "Updated "@, text_or_empty(data, "path"@));
}

/// A call stands in one line where it fits, its subject in parentheses; else its
/// subject follows below, wrapped, and the parenthesis closes behind its last line.
pub proof fn a_call_fits_in_a_line_or_hangs(
    verb: Seq<char>,
    arg: Seq<char>,
    width: nat,
    status: ToolRowStatus,
)
    requires
        !blank(arg),
        width >= 14,
    ensures
        ({
            let head = call_head(verb, arg, width, status);
            &&& verb.len() + arg.len() + 2 <= width - 2 ==> head.len() == 1 && head[0].len() == 5
                && head[0][0].text == "● "@ && head[0][1].text == verb && head[0][2].text == "("@
                && head[0][3].text == arg && head[0][4].text == ")"@
            &&& verb.len() + arg.len() + 2 > width - 2 ==> {
                let list = wrapped(
                    arg,
                    if width >= 12 {
                        (width - 4) as nat
                    } else {
                        8
                    },
                );
                &&& head.len() == list.len() + 1
                &&& head[0][1].text == verb && head[0].last().text == "("@
                &&& forall|i: int|
                    0 <= i < list.len() ==> (#[trigger] head[i + 1])[1].text == list[i]
                &&& list.len() > 0 ==> head.last().last().text == ")"@
            }
        }),
{
}

/// Of a long list the first items are shown, and how many there are more.
pub proof fn the_rest_is_counted(n: nat, max: nat, a: Seq<char>, b: Seq<char>, style: Style)
    ensures
        n <= max ==> more_items(n, max, a, b, style).len() == 0,
        n > max ==> more_items(n, max, a, b, style).len() == 1 && more_items(
            n,
            max,
            a,
            b,
            style,
        )[0].text == a + decimal((n - max) as nat) + b,
{
}

/// A preview shows the first six lines of what is written, and how many follow.
pub proof fn previews_show_six_lines(args: Value)
    ensures
        ({
            let list = line_list(text_or_empty(args, "content"@));
            let items = content_items(args);
            &&& ends(items[0].text, text_or_empty(args, "path"@))
            &&& forall|i: int|
                0 <= i < list.len() && i < 6 ==> (#[trigger] items[i + 2]).text == "  "@ + list[i]
            &&& list.len() <= 6 ==> items.len() == list.len() + 2
            &&& list.len() > 6 ==> items.len() == 10 && items.last().text == "  … +"@ + decimal(
                (list.len() - 6) as nat,
            ) + " more lines"@
        }),
        ({
            let list = line_list(text_or_empty(args, "command"@));
            let items = command_items(args);
            &&& forall|i: int|
                0 <= i < list.len() && i < 6 ==> (#[trigger] items[i + 1]).text == "  "@ + list[i]
            &&& list.len() <= 6 ==> items.len() == list.len() + 1
            &&& list.len() > 6 ==> items.len() == 8 && items.last().text == "  … +"@ + decimal(
                (list.len() - 6) as nat,
            ) + " more lines"@
        }),
{
    texts_hold_their_parts("→ "@, text_or_empty(args, "path"@), Seq::empty());
}

/// An edit is shown by what it takes away, then what it puts in its place, each in
/// its own colour.
pub proof fn edits_show_both_sides(args: Value, old_text: Seq<char>, new_text: Seq<char>)
    requires
        text_or_empty(args, "old_string"@) == old_text,
        text_or_empty(args, "new_string"@) == new_text,
        line_list(old_text).len() <= 6,
        line_list(new_text).len() <= 6,
    ensures
        ({
            let items = edit_items(args);
            let a = line_list(old_text);
            let b = line_list(new_text);
            let gap: nat = if a.len() > 0 {
                1
            } else {
                0
            };
            &&& items.len() == 2 + a.len() + gap + b.len()
            &&& forall|i: int|
                0 <= i < a.len() ==> #[trigger] items[2 + i] == piece(
                    "  "@ + a[i],
                    colored(danger()),
                )
            &&& forall|i: int|
                0 <= i < b.len() ==> #[trigger] items[2 + a.len() + gap + i] == piece(
                    "  "@ + b[i],
                    colored(success()),
                )
        }),
{
}

// ---------------------------------------------------------------------------
// Blocks
// ---------------------------------------------------------------------------

/// Items are shown one below the other, a light bar in front of the first line
/// only, each line behind four columns.
pub proof fn blocks_show_their_items_in_order(
    a: Seq<Piece>,
    b: Seq<Piece>,
    item: Piece,
    width: nat,
    verbatim: bool,
)
    ensures
        items_pieces(a + b, width, verbatim) == items_pieces(a, width, verbatim) + items_pieces(
            b,
            width,
            verbatim,
        ),
        block(a, width, verbatim).len() == items_pieces(a, width, verbatim).len(),
        forall|k: int|
            0 <= k < block(a, width, verbatim).len() ==> {
                let row = #[trigger] block(a, width, verbatim)[k];
                &&& row.len() == 2
                &&& row[0].text == (if k == 0 {
                    "  │ "@
                } else {
                    "    "@
                })
                &&& row[1] == items_pieces(a, width, verbatim)[k]
            },
        ({
            let list = items_pieces(seq![item], width, verbatim);
            let texts = if verbatim {
                code_wrapped(item.text, room(width, 4))
            } else {
                wrapped(item.text, room(width, 4))
            };
            &&& list.len() == texts.len()
            &&& forall|k: int| 0 <= k < list.len() ==> (#[trigger] list[k]).text == texts[k]
        }),
{
    lemma_items_concat(a, b, width, verbatim);
    reveal_with_fuel(items_pieces, 2);
    assert(seq![item].drop_last() =~= Seq::<Piece>::empty());
    assert(items_pieces(seq![item], width, verbatim) =~= item_pieces(item, width, verbatim));
}

proof fn lemma_items_concat(a: Seq<Piece>, b: Seq<Piece>, width: nat, verbatim: bool)
    ensures
        items_pieces(a + b, width, verbatim) == items_pieces(a, width, verbatim) + items_pieces(
            b,
            width,
            verbatim,
        ),
    decreases b.len(),
{
    if b.len() == 0 {
        assert(a + b =~= a);
        assert(items_pieces(a, width, verbatim) + Seq::<Piece>::empty() =~= items_pieces(
            a,
            width,
            verbatim,
        ));
    } else {
        assert((a + b).drop_last() =~= a + b.drop_last());
        assert((a + b).last() == b.last());
        lemma_items_concat(a, b.drop_last(), width, verbatim);
        assert(items_pieces(a + b, width, verbatim) =~= items_pieces(a, width, verbatim)
            + items_pieces(b, width, verbatim));
    }
}

} // verus!
