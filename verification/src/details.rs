//! What the smaller parts of the screen say, and how the values behind them are
//! found.
use crate::app::{Around, Desk, by_hand, shows_compaction, spawned};
use crate::asking::questions;
use crate::bars::{
    approval_subject, bar_height, clipboard_escape, compaction_row, digit64, footer_place,
    goal_badge, in_base64, window_parts, windows_pieces,
};
use crate::commands::{checkpoint_note, resuming, resuming_last, rewound};
use crate::connecting::{Ending, closed, form_opened};
use crate::effects::Deed;
use crate::events::{Conversation, GoalStatus, Happening, HarnessStatus, compacting};
use crate::figures::{si, window_label};
use crate::form::{Entry, SettingsField, Setup, entry_for_new, entry_in_use, one_line_paste};
use crate::inputs::{attachments_row, box_scroll, box_shown, placeholder, prompt_rows, shown_above};
use crate::json::{Value, items_of, member, notation, text_of, text_or_empty};
use crate::keyboard::choices;
use crate::lexis::{
    joining_puts_the_separator_between, lines_end_with_line_feeds, texts_hold_their_parts,
    trimming_takes_the_white_space_around,
};
use crate::lists::{form_place, host, profile_card, profile_note, session_row};
use crate::login::{chooser, field_row, login_fields, masked_value, typed_value};
use crate::mascot::mascot_rows;
use crate::messages::{
    attachment_marker, audio_rows, file_marker, image_marker, in_column, sections, sections_from,
    user_rows, without_markers, wrapped_rows,
};
use crate::models::{compatible_url, context_defaults, defaults, known_models, messages_base};
use crate::outcomes::lemma_tool_names;
use crate::panels::{
    clipped, inner_width, lane_row, nothing_yet, question_rows_taken, question_shown, span_note,
};
use crate::paths::{components, file_name};
use crate::prompt::{image_path, layout};
use crate::prose::led;
use crate::results::{
    brief, command_items_expanded, count_at, counted_sample, data_of, expandable, has_body,
    is_error, long_items, match_label, spilled, spilled_size,
};
use crate::sessions::{
    File, Kept, ago, all_listed, conversations, conversations_beside, gathered, newest_first,
};
use crate::style::{Piece, colored, piece, raw};
use crate::suggestions::{after, rewind_entry, suggested, suggestion_row, within_bytes};
use crate::talk::lemma_grouped;
use crate::text::{
    blank, decimal, ends, is_white, lemma_pieces_nonempty, line_list, occurs, occurs_at, padded_to,
    repeated, starts, stripped_end, trimmed, trimmed_start,
};
use crate::theme::{ink, muted};
use crate::ticking::{attached_name, attached_path, models_arrived, next_frame, scratch};
use crate::tools::{
    call_parts, command_items, content_items, edit_items, known_parts, lines_about, map_detail,
    one_line, pretty_name, preview_items,
};
use crate::update::{boundless_header, extended_header, readable};
use crate::vault::vault_file;
use crate::watches::{objection_to, pattern_error, pattern_matches, verdict_of};
use crate::wrap::wrapped;
use vstd::prelude::*;

verus! {

// ---------------------------------------------------------------------------
// Bars
// ---------------------------------------------------------------------------

/// What is left of each limit is shown by its window, and nothing where none is known.
pub proof fn limits_are_shown_by_window(a: (i64, String), b: (i64, String))
    ensures
        windows_pieces(Seq::empty()).len() == 0,
        windows_pieces(seq![a])[0].text == "◷ "@ + (window_label(a.0 as int) + " "@ + a.1@ + "%"@)
            + " left"@,
        windows_pieces(seq![a, b])[0].text == "◷ "@ + ((window_label(a.0 as int) + " "@ + a.1@
            + "%"@) + " · "@ + (window_label(b.0 as int) + " "@ + b.1@ + "%"@)) + " left"@,
{
    let x = window_label(a.0 as int) + " "@ + a.1@ + "%"@;
    let y = window_label(b.0 as int) + " "@ + b.1@ + "%"@;
    assert(window_parts(seq![a]) =~= seq![x]);
    assert(window_parts(seq![a, b]) =~= seq![x] + seq![y]);
    joining_puts_the_separator_between(seq![x], seq![y], x, " · "@);
    joining_puts_the_separator_between(seq![x], seq![y], y, " · "@);
}

/// Where one works is shown, and that changes are approved by hand where they are.
pub proof fn approval_by_hand_is_shown(cwd: Seq<char>)
    ensures
        footer_place(cwd, false).len() == 1,
        footer_place(cwd, true).len() == 2 && footer_place(cwd, true)[1].text == "  ⚠ manual"@,
        footer_place(cwd, false)[0].text == " "@ + cwd,
        footer_place(cwd, true)[0].text == " "@ + cwd,
{
}

/// The state decides whether changes are approved by hand; before there is one, the
/// configuration does.
pub proof fn the_state_decides_about_approval(d: Desk)
    ensures
        d.state matches Some(c) ==> by_hand(d) == c.manual_approval,
        d.state is None ==> by_hand(d) == d.manual,
{
}

/// A goal is shown while it is pursued or paused.
pub proof fn goals_are_shown_while_they_last()
    ensures
        goal_badge(Some(GoalStatus::Active)) is Some,
        goal_badge(Some(GoalStatus::Paused)) is Some,
        goal_badge(Some(GoalStatus::Active)) != goal_badge(Some(GoalStatus::Paused)),
        goal_badge(Some(GoalStatus::Ended)) is None,
        goal_badge(None) is None,
{
    reveal_strlit("◇ goal");
    reveal_strlit("◇ goal · paused");
    assert("◇ goal"@.len() == 6 && "◇ goal · paused"@.len() == 15);
}

/// The characters that stand for six bits each.
pub open spec fn alphabet64() -> Seq<char> {
    "ABCDEFGHIJKLMNOPQRSTUVWXYZabcdefghijklmnopqrstuvwxyz0123456789+/"@
}

proof fn lemma_digit64(n: nat)
    ensures
        digit64(n) == alphabet64()[(n % 64) as int],
{
    reveal_strlit("ABCDEFGHIJKLMNOPQRSTUVWXYZabcdefghijklmnopqrstuvwxyz0123456789+/");
}

/// The four numbers of six bits that three bytes hold.
proof fn lemma_six_bits(a: u8, b: u8, c: u8)
    ensures
        ((a as nat * 65536 + b as nat * 256 + c as nat) / 262144) % 64 == a as nat / 4,
        ((a as nat * 65536 + b as nat * 256 + c as nat) / 4096) % 64 == (a as nat % 4) * 16 + b as nat
            / 16,
        ((a as nat * 65536 + b as nat * 256 + c as nat) / 64) % 64 == (b as nat % 16) * 4 + c as nat
            / 64,
        (a as nat * 65536 + b as nat * 256 + c as nat) % 64 == c as nat % 64,
{
    let n: u32 = (a as u32 * 65536 + b as u32 * 256 + c as u32) as u32;
    assert((n / 262144) % 64 == a / 4 && (n / 4096) % 64 == (a % 4) * 16 + b / 16 && (n / 64) % 64
        == (b % 16) * 4 + c / 64 && n % 64 == c % 64) by (bit_vector)
        requires
            n == a * 65536 + b * 256 + c,
    ;
}

/// Each three bytes are written as four characters of six bits, from the highest bits
/// on, and the bytes behind them in the same way.
pub proof fn three_bytes_make_four_characters(bytes: Seq<u8>)
    requires
        bytes.len() >= 3,
    ensures
        in_base64(bytes)[0] == alphabet64()[bytes[0] as int / 4],
        in_base64(bytes)[1] == alphabet64()[(bytes[0] as int % 4) * 16 + bytes[1] as int / 16],
        in_base64(bytes)[2] == alphabet64()[(bytes[1] as int % 16) * 4 + bytes[2] as int / 64],
        in_base64(bytes)[3] == alphabet64()[bytes[2] as int % 64],
        in_base64(bytes).skip(4) == in_base64(bytes.skip(3)),
{
    let (a, b, c) = (bytes[0] as nat, bytes[1] as nat, bytes[2] as nat);
    let n = a * 65536 + b * 256 + c;
    lemma_six_bits(bytes[0], bytes[1], bytes[2]);
    lemma_digit64(n / 262144);
    lemma_digit64(n / 4096);
    lemma_digit64(n / 64);
    lemma_digit64(n);
    assert(in_base64(bytes).skip(4) =~= in_base64(bytes.skip(3)));
}

/// What is missing of three bytes at the end is filled up with equals signs.
pub proof fn missing_bytes_are_filled_up(a: u8, b: u8)
    ensures
        in_base64(seq![a, b]) == seq![
            alphabet64()[a as int / 4],
            alphabet64()[(a as int % 4) * 16 + b as int / 16],
            alphabet64()[(b as int % 16) * 4],
            '=',
        ],
        in_base64(seq![a]) == seq![
            alphabet64()[a as int / 4],
            alphabet64()[(a as int % 4) * 16],
            '=',
            '=',
        ],
        in_base64(Seq::empty()).len() == 0,
{
    let n2 = (a as nat) * 65536 + (b as nat) * 256;
    let n1 = (a as nat) * 65536;
    lemma_six_bits(a, b, 0);
    lemma_six_bits(a, 0, 0);
    lemma_digit64(n2 / 262144);
    lemma_digit64(n2 / 4096);
    lemma_digit64(n2 / 64);
    lemma_digit64(n1 / 262144);
    lemma_digit64(n1 / 4096);
}

/// What is copied is handed to the terminal between its escapes.
pub proof fn copies_are_handed_to_the_terminal(encoded: Seq<char>)
    ensures
        starts(clipboard_escape(encoded), "\u{1b}]52;c;"@),
        ends(clipboard_escape(encoded), "\u{7}"@),
        occurs(clipboard_escape(encoded), encoded),
{
    let a = "\u{1b}]52;c;"@;
    let b = "\u{7}"@;
    texts_hold_their_parts(a, encoded, b);
    texts_hold_their_parts(a + encoded, b, Seq::empty());
    texts_hold_their_parts(Seq::empty(), a, encoded + b);
    lemma_grouped(a, encoded, b);
}

/// A compaction is shown while the animation goes on, and while the state tells of a
/// pass that runs.
pub proof fn compactions_are_shown_while_they_run(d: Desk, w: Around, c: Conversation)
    ensures
        w.animating ==> shows_compaction(d, w),
        !w.animating && d.state is None ==> !shows_compaction(d, w),
        compacting(c) ==> c.status == HarnessStatus::Running && c.events.len() > 0,
        c.status == HarnessStatus::Running && c.events.len() > 0 && (c.events.last() matches
            Happening::SystemDecision { step, .. } && step == "history_compaction_pass"@)
            ==> compacting(c),
{
}

// ---------------------------------------------------------------------------
// Results in a few words
// ---------------------------------------------------------------------------

/// What a result comes to in a few words; of a failure nothing is said.
pub proof fn few_words_tell_a_result(result: Value)
    ensures
        ({
            let data = data_of(result);
            let n = line_list(text_or_empty(data, "content"@)).len();
            &&& is_error(result) ==> brief("read_file"@, result) is None && brief(
                "web_search"@,
                result,
            ) is None
            &&& !is_error(result) ==> brief("read_file"@, result) == Some(
                decimal(n) + (if n == 1 {
                    " line"@
                } else {
                    " lines"@
                }),
            )
            &&& !is_error(result) ==> brief("search_content"@, result) == Some(
                decimal(count_at(data, "count"@) as nat) + " matches"@,
            )
            &&& !is_error(result) ==> brief("web_search"@, result) == Some(
                decimal(count_at(data, "count"@) as nat) + " results"@,
            )
            &&& !is_error(result) ==> brief("web_read"@, result) == Some(
                decimal(text_or_empty(data, "text"@).len()) + " chars"@,
            )
            &&& !is_error(result) ==> brief("write_file"@, result) == Some("written"@) && brief(
                "edit_file"@,
                result,
            ) == Some("updated"@)
            &&& brief("bash"@, result) is None
        }),
{
    lemma_tool_names();
    reveal_strlit("replace_file_content");
}

/// At length a result shows what it brought: files by their lines, searches by their
/// matches.
pub proof fn results_at_length_show_what_they_brought(result: Value, i: int)
    ensures
        ({
            let data = data_of(result);
            &&& long_items("read_file"@, result) == Some(
                counted_sample(text_or_empty(data, "content"@)),
            )
            &&& long_items("web_read"@, result) == Some(
                counted_sample(text_or_empty(data, "text"@)),
            )
            &&& long_items("bash"@, result) == Some(command_items_expanded(data, 24))
            &&& long_items("search_content"@, result) is Some && (long_items(
                "search_content"@,
                result,
            )->0)[0].text == decimal(count_at(data, "count"@) as nat) + " matches"@
            &&& items_of(member(data, "matches"@)) is Some && 0 <= i && i < 24 && i < (items_of(
                member(data, "matches"@),
            )->0).len() ==> (long_items("search_content"@, result)->0)[i + 1].text == match_label(
                (items_of(member(data, "matches"@))->0)[i],
            )
            &&& long_items("web_search"@, result) is None
        }),
{
    lemma_tool_names();
    reveal_strlit("memory_read");
}

/// How much output was too large to show is told where it is known.
pub proof fn the_size_of_large_output_is_told(result: Value)
    ensures
        spilled_size(result) > 0 ==> occurs(
            spilled(result),
            "("@ + si(spilled_size(result) as nat) + " chars)"@,
        ),
        member(result, "original_stats"@) is None ==> spilled_size(result) == 0,
{
    let n = spilled_size(result);
    if n > 0 {
        reveal_strlit("output too large (");
        reveal_strlit("(");
        let place = match text_of(member(result, "saved_output_path"@)) {
            Some(p) => " → "@ + p,
            None => Seq::empty(),
        };
        let inner = "("@ + si(n as nat) + " chars)"@;
        let lead = "output too large ("@.take(17);
        assert("output too large ("@ =~= lead + "("@);
        texts_hold_their_parts(lead, inner, place);
        lemma_grouped(lead, "("@, si(n as nat));
        lemma_grouped(lead, "("@ + si(n as nat), " chars)"@);
    }
}

// ---------------------------------------------------------------------------
// Calls
// ---------------------------------------------------------------------------

/// A call of an unknown tool is told by the first of path, identifier, query, name
/// and title that it was given, else by all that it was given.
pub proof fn unknown_tools_are_told_by_a_label(args: Value, tool: Seq<char>)
    requires
        known_parts(tool, args) is None,
    ensures
        call_parts(tool, args).0 == pretty_name(tool),
        text_of(member(args, "path"@)) matches Some(s) ==> call_parts(tool, args).1 == one_line(
            s,
            80,
        ),
        member(args, "path"@) is None && (text_of(member(args, "id"@)) is Some) ==> call_parts(
            tool,
            args,
        ).1 == one_line(text_of(member(args, "id"@))->0, 80),
        member(args, "path"@) is None && member(args, "id"@) is None && (text_of(
            member(args, "query"@),
        ) is Some) ==> call_parts(tool, args).1 == one_line(
            text_of(member(args, "query"@))->0,
            80,
        ),
        member(args, "path"@) is None && member(args, "id"@) is None && member(args, "query"@)
            is None && member(args, "name"@) is None && member(args, "title"@) is None
            ==> call_parts(tool, args).1 == one_line(notation(args), 60),
{
}

/// A map is told by its place and its query, as far as they are given.
pub proof fn maps_are_told_by_place_and_query(args: Value, q: Seq<char>, path: Seq<char>)
    requires
        text_or_empty(args, "query"@) == q,
        text_or_empty(args, "path"@) == path,
    ensures
        q.len() > 0 && path.len() > 0 ==> map_detail(args) == path + " · "@ + q,
        q.len() > 0 && path.len() == 0 ==> map_detail(args) == q,
        q.len() == 0 && path.len() > 0 ==> map_detail(args) == path,
        q.len() == 0 && path.len() == 0 ==> map_detail(args) == "."@,
{
}

/// What is remembered is told by its label and how many lines it has.
pub proof fn notes_are_told_by_their_lines(label: Seq<char>, n: nat)
    ensures
        label.len() > 0 ==> lines_about(label, n) == label + " · "@ + (decimal(n) + " lines"@),
        label.len() == 0 ==> lines_about(label, n) == decimal(n) + " lines"@,
{
}

/// There is something to preview of calls that write, edit or run, and of others not.
pub proof fn previews_are_for_calls_that_change(args: Value)
    ensures
        preview_items("write_file"@, args) == Some(content_items(args)),
        preview_items("append_file"@, args) == Some(content_items(args)),
        preview_items("edit_file"@, args) == Some(edit_items(args)),
        preview_items("bash"@, args) == Some(command_items(args)),
        preview_items("read_file"@, args) is None,
        preview_items("web_search"@, args) is None,
        preview_items("search_content"@, args) is None,
{
    lemma_tool_names();
}

/// A call can be shown at length where that says more: a text that is not blank, an
/// edit, a command that is long or printed something.
pub proof fn calls_expand_where_there_is_more(args: Value, result: Option<Value>)
    ensures
        expandable("write_file"@, args, result) <==> !blank(text_or_empty(args, "content"@)),
        expandable("edit_file"@, args, result) <==> text_or_empty(args, "old_string"@).len() > 0
            || text_or_empty(args, "new_string"@).len() > 0,
        line_list(text_or_empty(args, "command"@)).len() > 1 ==> expandable(
            "bash"@,
            args,
            result,
        ),
        text_or_empty(args, "command"@).len() > 80 ==> expandable("bash"@, args, result),
        (result is Some && has_body(result->0)) ==> expandable("bash"@, args, result)
            && expandable("read_file"@, args, result) && expandable("list_files"@, args, result),
        (result is None || !has_body(result->0)) ==> !expandable("read_file"@, args, result)
            && !expandable("search_content"@, args, result),
        (result is None || !has_body(result->0)) && line_list(
            text_or_empty(args, "command"@),
        ).len() <= 1 && text_or_empty(args, "command"@).len() <= 80 ==> !expandable(
            "bash"@,
            args,
            result,
        ),
{
    lemma_tool_names();
}

// ---------------------------------------------------------------------------
// Models and forms
// ---------------------------------------------------------------------------

proof fn lemma_provider_names()
    ensures
        "openai"@.len() == 6 && "openai"@[0] == 'o',
        "chatgpt"@.len() == 7,
        "anthropic"@.len() == 9,
        "anthropic-compatible"@.len() == 20,
        "gemini"@.len() == 6 && "gemini"@[0] == 'g',
        "openrouter"@.len() == 10,
        "openai-compatible"@.len() == 17,
{
    reveal_strlit("openai");
    reveal_strlit("chatgpt");
    reveal_strlit("anthropic");
    reveal_strlit("anthropic-compatible");
    reveal_strlit("gemini");
    reveal_strlit("openrouter");
    reveal_strlit("openai-compatible");
}

/// The model that is preset for a provider is one that is offered, the first one but
/// for accounts; a compatible endpoint presets none.
pub proof fn the_preset_model_is_offered(list: Seq<Seq<char>>)
    ensures
        known_models("openai"@, list)[0] == defaults("openai"@, list).1,
        known_models("gemini"@, list)[0] == defaults("gemini"@, list).1,
        list.len() > 0 ==> known_models("anthropic"@, list)[0] == defaults("anthropic"@, list).1,
        list.len() > 0 ==> known_models("openrouter"@, list)[0] == defaults("openrouter"@, list).1,
        known_models("chatgpt"@, list).contains(defaults("chatgpt"@, list).1),
        defaults("openai-compatible"@, list).1.len() == 0,
        defaults("anthropic-compatible"@, list).1.len() == 0,
        known_models("openai-compatible"@, list).len() == 0,
        known_models("anthropic-compatible"@, list).len() == 0,
{
    lemma_provider_names();
    reveal_strlit("");
    assert(known_models("chatgpt"@, list)[3] == defaults("chatgpt"@, list).1);
}

/// The hosted providers have a larger window preset than a compatible endpoint; all
/// compact at the same share.
pub proof fn windows_are_preset_by_provider(provider: Seq<char>)
    ensures
        provider == "openai"@ || provider == "chatgpt"@ || provider == "anthropic"@ || provider
            == "gemini"@ || provider == "openrouter"@ ==> context_defaults(provider).0 == 250_000,
        provider == "openai-compatible"@ || provider == "anthropic-compatible"@ ==> context_defaults(
            provider,
        ).0 == 130_000,
        context_defaults(provider).1 == 90,
{
    lemma_provider_names();
}

/// Where the models of a provider are asked for.
pub proof fn models_are_asked_for_at_the_provider(key: Seq<char>, base: Seq<char>)
    ensures
        ({
            let url = |p: Seq<char>| (crate::models::asking(p, key, base)->0).url;
            &&& url("openai"@) == "https://api.openai.com/v1/models"@
            &&& url("openrouter"@) == "https://openrouter.ai/api/v1/models"@
            &&& url("openai-compatible"@) == compatible_url(base)
            &&& ends(url("anthropic"@), "/models"@)
            &&& ends(url("gemini"@), key)
            &&& crate::models::asking("chatgpt"@, key, base) is None
            &&& !blank(base) && !ends(stripped_end(trimmed(base), '/'), "/v1"@) ==> url(
                "anthropic-compatible"@,
            ) == stripped_end(trimmed(base), '/') + "/v1/models"@
            &&& !blank(base) && ends(stripped_end(trimmed(base), '/'), "/v1"@) ==> url(
                "anthropic-compatible"@,
            ) == stripped_end(trimmed(base), '/') + "/models"@
        }),
{
    lemma_provider_names();
    texts_hold_their_parts(
        "https://generativelanguage.googleapis.com/v1beta/models?key="@,
        key,
        Seq::empty(),
    );
    let b = messages_base("anthropic"@, base);
    reveal_strlit("/models");
    reveal_strlit("/v1/models");
    let u = b + "/models"@;
    let v = b + "/v1/models"@;
    assert(u.subrange(u.len() - 7, u.len() as int) =~= "/models"@);
    assert(v.subrange(v.len() - 7, v.len() as int) =~= "/models"@);
}

/// A new profile begins with what is preset for the first provider, and without a key.
pub proof fn a_new_profile_begins_with_presets(list: Seq<Seq<char>>)
    ensures
        ({
            let e = entry_for_new(list);
            &&& e.api_key.len() == 0
            &&& e.model == defaults(e.provider, list).1
            &&& e.base_url == defaults(e.provider, list).0
            &&& e.context_window == decimal(context_defaults(e.provider).0 as nat)
            &&& e.compact_at_pct == decimal(context_defaults(e.provider).1 as nat)
            &&& e.focus == SettingsField::Provider
            &&& e.fetched is None
            &&& e.reasoning_effort == Some("medium"@)
        }),
{
    reveal_strlit("");
}

/// The form for the configuration in use shows it, with a middle effort where it has
/// none.
pub proof fn the_configuration_in_use_is_shown(s: Setup, list: Seq<Seq<char>>)
    ensures
        ({
            let e = entry_in_use(s, list);
            &&& e.provider == s.provider && e.model == s.model && e.api_key == s.api_key
            &&& s.reasoning_effort is Some ==> e.reasoning_effort == s.reasoning_effort
            &&& s.reasoning_effort is None ==> e.reasoning_effort == Some("medium"@)
        }),
{
}

/// A paste of one line into a field loses the white space around it, and nothing else.
pub proof fn pastes_into_a_field_are_trimmed(t: Seq<char>)
    requires
        forall|i: int| 0 <= i < t.len() ==> #[trigger] t[i] != '\n' && t[i] != '\r',
    ensures
        one_line_paste(t) == trimmed(t),
{
    lemma_filter_keeps(t, |c: char| c != '\n');
    lemma_filter_keeps(t, |c: char| c != '\r');
}

/// The lines of a paste into a field are put together into one.
pub proof fn pastes_into_a_field_are_one_line(a: Seq<char>, b: Seq<char>)
    ensures
        one_line_paste(a + "\n"@ + b) == one_line_paste(a + b),
        one_line_paste(a + "\r\n"@ + b) == one_line_paste(a + b),
{
    let f = |c: char| c != '\n';
    let g = |c: char| c != '\r';
    lemma_filter_parts(a, "\n"@, b, f);
    lemma_filter_parts(a, "\r\n"@, b, f);
    lemma_filter_parts(a, Seq::empty(), b, f);
    assert(a + Seq::<char>::empty() + b =~= a + b);
    reveal_strlit("\n");
    reveal_strlit("\r\n");
    reveal_with_fuel(Seq::filter, 3);
    assert("\n"@.drop_last() =~= Seq::<char>::empty());
    assert("\r\n"@.drop_last() =~= seq!['\r']);
    assert(seq!['\r'].drop_last() =~= Seq::<char>::empty());
    assert("\n"@.filter(f) =~= Seq::<char>::empty());
    assert(Seq::<char>::empty().filter(f) =~= Seq::<char>::empty());
    assert("\r\n"@.filter(f) =~= seq!['\r']);
    let (x, y) = (a.filter(f), b.filter(f));
    lemma_filter_parts(x, seq!['\r'], y, g);
    lemma_filter_parts(x, Seq::empty(), y, g);
    assert(seq!['\r'].filter(g) =~= Seq::<char>::empty());
    assert(Seq::<char>::empty().filter(g) =~= Seq::<char>::empty());
}

proof fn lemma_filter_parts(a: Seq<char>, m: Seq<char>, b: Seq<char>, f: spec_fn(char) -> bool)
    ensures
        (a + m + b).filter(f) == a.filter(f) + m.filter(f) + b.filter(f),
{
    Seq::filter_distributes_over_add(a + m, b, f);
    Seq::filter_distributes_over_add(a, m, f);
}

proof fn lemma_filter_keeps(t: Seq<char>, f: spec_fn(char) -> bool)
    requires
        forall|i: int| 0 <= i < t.len() ==> f(#[trigger] t[i]),
    ensures
        t.filter(f) == t,
    decreases t.len(),
{
    reveal(Seq::filter);
    if t.len() > 0 {
        let r = t.drop_last();
        assert forall|i: int| 0 <= i < r.len() implies f(#[trigger] r[i]) by {
            assert(r[i] == t[i]);
        }
        lemma_filter_keeps(r, f);
        assert(f(t[t.len() - 1]));
        assert(t =~= r.push(t.last()));
    } else {
        assert(t =~= Seq::<char>::empty());
    }
}

/// A key is shown as so many dots, and a field as what it holds.
pub proof fn fields_show_what_they_hold(text: Seq<char>, suffix: Seq<char>)
    ensures
        text.len() > 0 ==> masked_value(text, false).len() == 1 && masked_value(text, false)[0].text
            == repeated('•', text.len()),
        typed_value(text, false).len() == 1 && typed_value(text, false)[0].text == text,
        typed_value(text, true).len() == 2 && typed_value(text, true)[1].text == "█"@,
        chooser(text, false, suffix)[0].text == text + suffix,
        chooser(text, true, suffix)[1].text == text,
        field_row(text, true, Seq::empty())[0].text == "  ▸ "@,
        field_row(text, false, Seq::empty())[0].text == "    "@,
        field_row(text, true, Seq::empty())[1].text == padded_to(text, 12),
{
}

/// The form has a field for the key unless an account is used, and one for the
/// address where a compatible endpoint is.
pub proof fn the_form_has_the_fields_of_the_provider(e: Entry)
    requires
        e.provider != "chatgpt"@,
    ensures
        ({
            let all = login_fields(e, false, None);
            let compatible = e.provider == "openai-compatible"@ || e.provider
                == "anthropic-compatible"@;
            &&& all.len() == (if compatible {
                7nat
            } else {
                6
            })
            &&& all[0][1].text == padded_to("provider"@, 12)
            &&& all[1][1].text == padded_to("api key"@, 12)
            &&& compatible ==> all[2][1].text == padded_to("base url"@, 12)
            &&& all[all.len() - 4][1].text == padded_to("model"@, 12)
            &&& all[all.len() - 2][1].text == padded_to("context"@, 12)
            &&& all[all.len() - 1][1].text == padded_to("compact at"@, 12)
        }),
{
}

// ---------------------------------------------------------------------------
// Lists
// ---------------------------------------------------------------------------

/// What is noted of a profile: whether it is signed in, its host, or whether it has a
/// key.
pub proof fn profiles_are_noted(s: Setup, signed_in: bool)
    ensures
        s.provider == "chatgpt"@ && signed_in ==> profile_note(s, signed_in) == "✓ signed in"@,
        s.provider == "chatgpt"@ && !signed_in ==> starts(
            profile_note(s, signed_in),
            "not signed in"@,
        ),
        s.provider == "openai-compatible"@ ==> profile_note(s, signed_in) == host(s.base_url),
        s.provider != "chatgpt"@ && s.provider != "openai-compatible"@ ==> profile_note(
            s,
            signed_in,
        ) == (if blank(s.api_key) {
            "no api key"@
        } else {
            "api key set"@
        }),
{
    lemma_provider_names();
    reveal_strlit("not signed in");
    reveal_strlit("not signed in — Enter to sign in");
    assert("not signed in — Enter to sign in"@.subrange(0, 13) =~= "not signed in"@);
}

/// The card of a profile has its name, a mark where it is the selected or the active
/// one, and its model.
pub proof fn cards_show_their_profile(
    name: Seq<char>,
    s: Setup,
    selected: bool,
    active: bool,
    signed_in: bool,
)
    ensures
        ({
            let card = profile_card((name, Some(s)), selected, active, signed_in);
            &&& card.len() == 3
            &&& card[0][1].text == name
            &&& card[0][0].text == (if selected {
                "▍ "@
            } else {
                "  "@
            })
            &&& card[0].len() == (if active {
                3nat
            } else {
                2
            })
            &&& s.model.len() > 0 ==> occurs(card[1][0].text, s.model)
            &&& card[2].len() == 0
        }),
{
    if s.model.len() > 0 {
        let note = profile_note(s, signed_in);
        texts_hold_their_parts("     "@, s.model, " · "@ + note);
        lemma_grouped("     "@ + s.model, " · "@, note);
    }
}

/// The form stands in the middle of the screen, within its bounds.
pub proof fn the_form_stands_in_the_middle(width: nat, height: nat)
    ensures
        ({
            let (w, h, x, y) = form_place(width, height);
            &&& 64 <= w <= 96
            &&& 16 <= h <= 26
            &&& w <= width ==> 2 * x + w <= width <= 2 * x + w + 1
            &&& h <= height ==> 2 * y + h <= height <= 2 * y + h + 1
            &&& 72 <= width <= 104 ==> w == width - 8
            &&& 22 <= height <= 32 ==> h == height - 6
        }),
{
}

/// A row of the list shows the name and what is said of the conversation, marked where
/// it is selected.
pub proof fn rows_show_their_conversation(s: (Seq<char>, Seq<char>), selected: bool)
    ensures
        session_row(s, selected).len() == 3,
        session_row(s, selected)[0].text == (if selected {
            "▍ "@
        } else {
            "  "@
        }),
        session_row(s, selected)[1].text == padded_to(s.0, 38) + " "@,
        session_row(s, selected)[2].text == s.1,
        suggestion_row(s, selected)[0].text == (if selected {
            "▍ "@
        } else {
            "  "@
        }),
        suggestion_row(s, selected)[1].text == padded_to(s.0, 10),
        suggestion_row(s, selected)[2].text == "  "@ + s.1,
{
}

/// Each conversation is listed by its name, how long ago it changed and what it is
/// about.
pub proof fn conversations_are_listed_with_their_age(
    files: Seq<File>,
    default: Option<File>,
    now: int,
    i: int,
)
    requires
        0 <= i < newest_first(gathered(files, default)).len(),
    ensures
        ({
            let e = newest_first(gathered(files, default))[i];
            let row = conversations(files, default, now)[i];
            &&& conversations(files, default, now).len() == newest_first(
                gathered(files, default),
            ).len()
            &&& row.0 == e.name
            &&& row.1 == "("@ + ago(crate::sessions::seconds_between(e.time, now)) + ") — "@
                + crate::sessions::shortened(e.about)
            &&& now >= e.time ==> crate::sessions::seconds_between(e.time, now) == (now - e.time)
                / 1_000_000_000
            &&& now < e.time ==> crate::sessions::seconds_between(e.time, now) == 0
        }),
{
}

/// The conversation without a name is listed where it holds anything.
pub proof fn the_unnamed_conversation_is_listed_where_it_holds_anything(
    files: Seq<File>,
    f: File,
    k: Kept,
)
    requires
        f.saved == Some(k),
    ensures
        k.user_request.len() > 0 || k.has_events ==> gathered(files, Some(f)).drop_last()
            == all_listed(files) && gathered(files, Some(f)).last().name == "default"@,
        k.user_request.len() > 0 ==> gathered(files, Some(f)).last().about == k.user_request,
        k.user_request.len() == 0 && !k.has_events ==> gathered(files, Some(f)) == all_listed(
            files,
        ),
        gathered(files, None) == all_listed(files),
{
    if k.user_request.len() > 0 || k.has_events {
        assert(gathered(files, Some(f)).drop_last() =~= all_listed(files));
    }
}

/// Behind `/rewind` the checkpoints are suggested from the newest on.
pub proof fn the_newest_checkpoint_is_suggested_first(
    older: (Seq<char>, Seq<char>),
    newer: (Seq<char>, Seq<char>),
    sessions: Seq<(Seq<char>, Seq<char>)>,
)
    ensures
        ({
            let list = suggested("/rewind "@, sessions, seq![older, newer]);
            &&& list.len() == 2
            &&& list[0].1 == newer.1 && list[1].1 == older.1
            &&& list[0].0 == "/rewind "@ + within_bytes(newer.0, 8)
        }),
{
    reveal_strlit("/rewind ");
    reveal_strlit("/rewind");
    reveal_strlit("/resume");
    let input = "/rewind "@;
    assert(input.subrange(0, 7) =~= "/rewind"@);
    assert(!starts(input, "/resume"@)) by {
        if starts(input, "/resume"@) {
            assert(input.subrange(0, 7)[3] == input[3]);
        }
    }
    assert(starts(input, "/rewind "@)) by {
        assert(input.subrange(0, 8) =~= input);
    }
    let query = after(input, "/rewind "@);
    assert(query =~= Seq::<char>::empty());
    let f = |c: (Seq<char>, Seq<char>)| occurs(c.0, query);
    let all = seq![older, newer].reverse().map_values(
        |c: (Seq<char>, Seq<char>)| rewind_entry(c),
    );
    assert(all =~= seq![rewind_entry(newer), rewind_entry(older)]);
    lemma_empty_occurs(rewind_entry(newer).0);
    lemma_empty_occurs(rewind_entry(older).0);
    reveal_with_fuel(Seq::filter, 3);
    assert(all.drop_last() =~= seq![rewind_entry(newer)]);
    assert(all.drop_last().drop_last() =~= Seq::<(Seq<char>, Seq<char>)>::empty());
    assert(all.filter(f) =~= all);
}

proof fn lemma_empty_occurs(s: Seq<char>)
    ensures
        occurs(s, Seq::empty()),
{
    assert(s.subrange(0, 0) =~= Seq::<char>::empty());
    assert(occurs_at(s, Seq::empty(), 0));
}

// ---------------------------------------------------------------------------
// Places and times
// ---------------------------------------------------------------------------

/// Secrets are kept below the home directory.
pub proof fn secrets_are_kept_below_home(home: Seq<char>)
    requires
        home.len() > 0,
        home.last() != '/',
    ensures
        vault_file(Some(home)) == home + "/.snippet/vault.json"@,
{
    reveal_strlit("/");
    reveal_strlit(".snippet");
    reveal_strlit("vault.json");
    reveal_strlit("/.snippet/vault.json");
    let dir = home + "/"@ + ".snippet"@;
    assert(dir.last() == 't');
    assert(dir + "/"@ + "vault.json"@ =~= home + "/.snippet/vault.json"@);
}

/// What is attached is copied below the workspace, images apart from other files,
/// under a name that begins with an identifier of its own.
pub proof fn attachments_are_copied_below_the_workspace(
    workspace: Seq<char>,
    path: Seq<char>,
    id: Seq<char>,
)
    requires
        workspace.len() > 0,
        workspace.last() != '/',
        id.len() > 0,
        id[0] != '/',
    ensures
        scratch(workspace, true) == workspace + "/.snippet/scratch/images"@,
        scratch(workspace, false) == workspace + "/.snippet/scratch/files"@,
        attached_path(workspace, path, id) == scratch(workspace, image_path(path)) + "/"@ + (id
            + "-"@ + attached_name(path)),
        file_name(path) matches Some(n) ==> attached_name(path) == n,
{
    reveal_strlit("/");
    reveal_strlit("-");
    reveal_strlit(".snippet");
    reveal_strlit("scratch");
    reveal_strlit("images");
    reveal_strlit("files");
    reveal_strlit("/.snippet/scratch/images");
    reveal_strlit("/.snippet/scratch/files");
    let a = workspace + "/"@ + ".snippet"@;
    assert(a.last() == 't');
    let b = a + "/"@ + "scratch"@;
    assert(b.last() == 'h');
    assert(b + "/"@ + "images"@ =~= workspace + "/.snippet/scratch/images"@);
    assert(b + "/"@ + "files"@ =~= workspace + "/.snippet/scratch/files"@);
    assert((b + "/"@ + "images"@).last() == 's');
    assert((b + "/"@ + "files"@).last() == 's');
    let name = id + "-"@ + attached_name(path);
    assert(name[0] == id[0]);
}

/// Frames are counted, and begin anew after the last number.
pub proof fn frames_are_counted(f: usize)
    ensures
        f < usize::MAX ==> next_frame(f) == f + 1,
        next_frame(usize::MAX) == 0,
{
}

/// A filter that is a pattern decides by whether it matches; none, or one that is no
/// pattern, decides nothing.
pub proof fn filters_decide_by_matching(filter: Seq<char>, text: Seq<char>)
    ensures
        verdict_of(None, text) is None,
        pattern_error(filter) is None ==> verdict_of(Some(filter), text) == Some(
            pattern_matches(filter, text),
        ),
        pattern_error(filter) is Some ==> verdict_of(Some(filter), text) is None,
        objection_to(None) is None,
        objection_to(Some(filter)) == pattern_error(filter),
{
}

/// An archive without sparse files can be read.
pub proof fn archives_without_sparse_files_are_readable(tar: Seq<u8>)
    requires
        forall|i: int| 0 <= i < tar.len() ==> #[trigger] tar[i] != 0x53,
    ensures
        readable(tar),
{
    assert forall|i: int| 0 <= i implies !(#[trigger] boundless_header(tar, i)) by {
        if boundless_header(tar, i) {
            assert(tar[512 * i + 156] == 0x53);
        }
    }
    assert forall|i: int| 0 <= i implies !(#[trigger] extended_header(tar, i)) by {
        if extended_header(tar, i) {
            assert(tar[512 * i + 156] == 0x53);
        }
    }
}

/// After a rewind one is told to what; where it failed, why.
pub proof fn a_rewind_is_told(d: Desk, label: Seq<char>, e: Seq<char>)
    ensures
        ends(rewound(d, label, None).status, label),
        rewound(d, label, None).error == d.error,
        rewound(d, label, Some(e)).error is Some && ends(rewound(d, label, Some(e)).error->0, e),
        rewound(d, label, Some(e)).status == d.status,
        d.state matches Some(c) && c.checkpoints.len() > 0 ==> starts(
            checkpoint_note(d),
            decimal(d.state->0.checkpoints.len()),
        ),
{
    texts_hold_their_parts("Rewound workspace to: "@, label, Seq::empty());
    texts_hold_their_parts("rewind failed: "@, e, Seq::empty());
    if d.state is Some {
        texts_hold_their_parts(
            Seq::empty(),
            decimal(d.state->0.checkpoints.len()),
            " checkpoint(s). Type /rewind <id> (Tab to pick) to restore."@,
        );
    }
}

/// Resuming goes on with the conversation that was active last, and where there is
/// nothing to resume one is told so.
pub proof fn resuming_goes_on_with_the_last(d: Desk, name: Seq<char>, w: Around)
    ensures
        resuming_last(d, true, Some(name)) == (d, seq![Deed::TryResume]),
        resuming_last(d, false, Some(name)).0.conversation == name,
        resuming_last(d, false, Some(name)).1.last() == Deed::TryResume,
        resuming_last(d, false, None) == (d, seq![Deed::TryResume]),
        resuming(d, false, w).1.len() == 0,
        resuming(d, true, w) == spawned(d, w, None),
{
}

/// Nothing has happened yet where there is no form, no event and no request.
pub proof fn a_fresh_screen_has_nothing_yet(d: Desk)
    ensures
        d.connecting ==> !nothing_yet(d),
        !d.connecting && d.state is None ==> nothing_yet(d),
        d.state matches Some(c) && c.events.len() > 0 ==> !nothing_yet(d),
        d.state matches Some(c) && !blank(c.user_request) ==> !nothing_yet(d),
        !d.connecting && (d.state matches Some(c) && c.events.len() == 0 && blank(c.user_request))
            ==> nothing_yet(d),
{
}

/// The mascot has its twenty rows of forty-eight tiles, in the middle.
pub proof fn the_mascot_stands_in_the_middle(width: nat, i: int)
    requires
        0 <= i < 20,
        width >= 48,
    ensures
        mascot_rows(width).len() == 20,
        mascot_rows(width)[i].len() == 49,
        mascot_rows(width)[i][0].text == repeated(' ', ((width - 48) / 2) as nat),
{
}

/// A plain message is shown in bold, wrapped to the width.
pub proof fn plain_messages_are_shown_in_bold(text: Seq<char>, width: nat)
    requires
        text.len() > 0,
        !text.contains('\n'),
        !text.contains('\r'),
        !is_white(text[0]),
        !is_white(text.last()),
        text[0] != '[',
    ensures
        user_rows(text, width) == wrapped(text, width).map_values(
            |s: Seq<char>| seq![raw(Seq::empty()), piece(s, colored(ink()).bolded())],
        ),
{
    let none = Seq::<char>::empty();
    let f = |l: Seq<char>| !attachment_marker(l);
    lines_end_with_line_feeds(text, none);
    trimming_takes_the_white_space_around(none, text, none);
    assert(none + text + none =~= text);
    assert(text + none =~= text && none + text =~= text);
    lemma_no_bracket(text, "[attached image —"@);
    lemma_no_bracket(text, "[attached file —"@);
    lemma_no_bracket(text, "[Audio transcript for "@);
    lemma_no_bracket(text, "[Audio transcription unavailable: "@);
    reveal_strlit("[attached image —");
    reveal_strlit("[attached file —");
    reveal_strlit("[Audio transcript for ");
    reveal_strlit("[Audio transcription unavailable: ");
    assert(trimmed_start(text) == text);
    reveal_with_fuel(Seq::filter, 2);
    assert(seq![text].drop_last() =~= Seq::<Seq<char>>::empty());
    assert(seq![text].filter(f) =~= seq![text]);
    assert(without_markers(text) == text);
    let images = |l: Seq<char>| image_marker(l);
    let files = |l: Seq<char>| !image_marker(l) && file_marker(l);
    assert(seq![text].filter(images).len() == 0);
    assert(seq![text].filter(files).len() == 0);
    reveal_with_fuel(sections_from, 2);
    let s = sections(text);
    assert(s.prose == text);
    assert(s.audio.len() == 0);
    assert(!blank(text)) by {
        if blank(text) {
            assert(is_white(text[0]));
        }
    }
    let shown_rows = wrapped_rows(text, width, colored(ink()).bolded());
    assert(shown_rows + Seq::<Seq<Piece>>::empty() =~= shown_rows);
    lemma_wrapped_some(text, width);
    assert(shown_rows =~= wrapped(text, width).map_values(
        |s: Seq<char>| seq![raw(Seq::empty()), piece(s, colored(ink()).bolded())],
    ));
}

proof fn lemma_no_bracket(text: Seq<char>, p: Seq<char>)
    requires
        text.len() > 0,
        text[0] != '[',
    ensures
        p.len() > 0 && p[0] == '[' ==> !starts(text, p),
{
    if p.len() > 0 && p[0] == '[' && starts(text, p) {
        assert(text.subrange(0, p.len() as int)[0] == text[0]);
    }
}

proof fn lemma_wrapped_some(text: Seq<char>, width: nat)
    ensures
        wrapped(text, width).len() > 0,
{
    lemma_pieces_nonempty(text, '\n');
}

// ---------------------------------------------------------------------------
// Boxes and panels
// ---------------------------------------------------------------------------

/// The row of the cursor is always one that is seen.
pub proof fn the_cursor_is_seen(d: Desk, width: nat, height: nat, seconds: i64, nanos: u32)
    requires
        !d.connecting,
        d.draft.input.len() > 0,
        width > 3,
        height > 2,
    ensures
        ({
            let cursor = layout(d.draft.input, d.draft.cursor, (width - 3) as nat).1;
            let row = shown_above(d, seconds, nanos).len() + cursor.0;
            let top = box_scroll(d, width, height, seconds, nanos);
            &&& top <= row < top + (height - 2)
            &&& row < height - 2 ==> top == 0
        }),
{
}

/// What waits above the input is shown before it, and below it what is typed.
pub proof fn what_waits_is_shown_above(d: Desk, width: nat, seconds: i64, nanos: u32)
    requires
        !d.connecting,
    ensures
        ({
            let above = shown_above(d, seconds, nanos);
            let all = box_shown(d, width, seconds, nanos);
            &&& all.take(above.len() as int) == above
            &&& d.draft.input.len() == 0 ==> all.len() == above.len() + 1 && all.last()[1].text
                == placeholder(d)
            &&& d.draft.input.len() > 0 && width > 3 ==> all.skip(above.len() as int)
                == prompt_rows(
                layout(d.draft.input, d.draft.cursor, (width - 3) as nat).0,
                layout(d.draft.input, d.draft.cursor, (width - 3) as nat).1,
            )
        }),
{
    let above = shown_above(d, seconds, nanos);
    let all = box_shown(d, width, seconds, nanos);
    assert(all.take(above.len() as int) =~= above);
    if d.draft.input.len() > 0 && width > 3 {
        let (list, cursor) = layout(d.draft.input, d.draft.cursor, (width - 3) as nat);
        assert(all.skip(above.len() as int) =~= prompt_rows(list, cursor));
    }
}

/// How many attachments wait is told, in the singular where it is one.
pub proof fn attachments_are_counted(n: nat)
    ensures
        attachments_row(n)[1].text == (if n == 1 {
            "📎 "@ + decimal(n) + " attachment"@
        } else {
            "📎 "@ + decimal(n) + " attachments"@
        }),
{
    reveal_strlit("");
    reveal_strlit("s");
    reveal_strlit(" attachment");
    reveal_strlit(" attachments");
    assert(" attachment"@ + "s"@ =~= " attachments"@);
    lemma_grouped("📎 "@ + decimal(n), " attachment"@, "s"@);
    if n == 1 {
        assert("📎 "@ + decimal(n) + " attachment"@ + ""@ =~= "📎 "@ + decimal(n)
            + " attachment"@);
    }
}

/// A question takes a row for each choice, two around them and one for another answer;
/// never more than sixteen, and none where nothing is asked.
pub proof fn questions_take_their_rows(d: Desk)
    ensures
        questions(d.state).len() == 0 ==> question_rows_taken(d) == 0 && question_shown(d, 80).len()
            == 0,
        question_rows_taken(d) <= 16,
        questions(d.state).len() > 0 && choices(d) == 0 ==> question_rows_taken(d) == 4,
        questions(d.state).len() > 0 && 0 < choices(d) <= 13 ==> question_rows_taken(d) == choices(
            d,
        ) + 3,
        questions(d.state).len() > 0 && choices(d) > 13 ==> question_rows_taken(d) == 16,
{
}

/// What is to be approved is named; a command behind a prompt.
pub proof fn what_is_to_be_approved_is_named(tool: Seq<char>, summary: Seq<char>)
    requires
        tool != "bash"@,
    ensures
        !blank(summary) ==> approval_subject(tool, summary) == "  "@ + summary,
        !blank(summary) ==> approval_subject("bash"@, summary) == "  $ "@ + summary,
        blank(summary) ==> approval_subject(tool, summary) == "  "@ + "(no preview)"@,
        blank(summary) ==> approval_subject("bash"@, summary) == "  $ "@ + "(no preview)"@,
{
    assert("  "@ + "$ "@ == "  $ "@) by {
        reveal_strlit("  ");
        reveal_strlit("$ ");
        reveal_strlit("  $ ");
        assert("  "@ + "$ "@ =~= "  $ "@);
    }
    assert("  "@ + ""@ == "  "@) by {
        reveal_strlit("");
        assert("  "@ + ""@ =~= "  "@);
    }
}

/// The bars of a compaction rise and fall by one step at a time, the same every
/// twenty-eight frames.
pub proof fn bars_rise_and_fall(frame: nat, i: nat)
    ensures
        compaction_row(frame).len() == 17,
        bar_height(frame, i) <= 7,
        -1 <= bar_height(frame + 1, i) - bar_height(frame, i) <= 1,
        bar_height(frame + 28, i) == bar_height(frame, i),
        bar_height(frame + 4, i) == bar_height(frame, i + 1),
        bar_height(0, 0) == 0,
        bar_height(14, 0) == 7,
{
}

/// A lane is shown by its title and how long it runs.
pub proof fn lanes_are_shown_by_their_title(title: Seq<char>, seconds: Option<i64>)
    ensures
        lane_row(title, seconds)[2].text == clipped(title, 48),
        lane_row(title, seconds)[3].text == " — running "@ + span_note(seconds),
{
}

/// Lines keep eight columns free, and have twenty at least.
pub proof fn lines_keep_eight_columns_free(width: nat)
    ensures
        inner_width(width) >= 20,
        width >= 28 ==> inner_width(width) == width - 8,
{
}

/// The first line is led by one mark and the others by another; what they hold stays.
pub proof fn the_first_line_is_led_apart(
    list: Seq<Seq<Piece>>,
    first: Piece,
    rest: Piece,
    k: int,
)
    requires
        0 <= k < list.len(),
    ensures
        led(list, first, rest).len() == list.len(),
        led(list, first, rest)[k].skip(1) == list[k],
        led(list, first, rest)[k][0] == (if k == 0 {
            first
        } else {
            rest
        }),
{
    assert(led(list, first, rest)[k].skip(1) =~= list[k]);
}

/// A recording is shown by its name, and by its words where any were heard.
pub proof fn recordings_are_shown_by_name(name: Seq<char>, body: Seq<char>, width: nat)
    ensures
        audio_rows(name, body, width)[0] == in_column(
            piece("voice · "@ + name, colored(muted()).slanted()),
        ),
        blank(body) ==> audio_rows(name, body, width).len() == 2,
        !blank(body) ==> audio_rows(name, body, width).len() == 1 + wrapped(body, width).len(),
{
}

/// A form that is closed gives the configuration back or forgets it, and goes back to
/// the profiles where it was opened from them.
pub proof fn a_closed_form_goes_back(d: Desk, restore: bool)
    ensures
        !closed(d, restore).0.connecting,
        closed(d, true).1[0] == Deed::RestoreConfig,
        closed(d, false).1[0] == Deed::ForgetConfig,
        d.return_to_profiles ==> closed(d, restore).1.last() == Deed::ListProfiles && closed(
            d,
            restore,
        ).0.editing is None && !closed(d, restore).0.return_to_profiles,
        !d.return_to_profiles ==> closed(d, restore).1.len() == 1,
        closed(d, restore).0.draft == d.draft,
        closed(d, restore).0.state == d.state,
{
}

/// Opening the form shows what is in use, keeps it for later and empties the input.
pub proof fn an_opened_form_shows_what_is_in_use(d: Desk, in_use: Setup)
    ensures
        ({
            let (e, deeds) = form_opened(d, in_use);
            &&& e.connecting
            &&& e.entry.provider == in_use.provider && e.entry.model == in_use.model
            &&& e.entry.api_key == in_use.api_key
            &&& e.draft.input.len() == 0
            &&& deeds == seq![Deed::KeepConfig]
            &&& e.state == d.state
        }),
{
}

/// Why the models did not come is told, and the entries stay.
pub proof fn models_that_did_not_come_change_nothing(e: Entry, t: Seq<char>)
    ensures
        models_arrived(e, Ending::Failed(t)).fetch_status == "Fetch failed: "@ + t,
        models_arrived(e, Ending::Crashed(t)).fetch_status == "Fetch task crashed: "@ + t,
        models_arrived(e, Ending::Failed(t)).model == e.model,
        models_arrived(e, Ending::Failed(t)).fetched == e.fetched,
        models_arrived(e, Ending::Crashed(t)).model == e.model,
        models_arrived(e, Ending::Crashed(t)).fetched == e.fetched,
{
}

/// Empty parts of a path count for nothing, nor does a dot behind another part; every
/// other part counts.
pub proof fn parts_of_a_path_count(parts: Seq<Seq<char>>, p: Seq<char>)
    ensures
        components(Seq::empty()).len() == 0,
        components(parts.push(Seq::empty())) == components(parts),
        parts.len() > 0 ==> components(parts.push("."@)) == components(parts),
        p.len() > 0 && p != "."@ ==> components(parts.push(p)) == components(parts).push(p),
        components(seq!["."@]) == seq!["."@],
{
    reveal_strlit(".");
    assert(parts.push(Seq::empty()).drop_last() =~= parts);
    assert(parts.push("."@).drop_last() =~= parts);
    assert(parts.push(p).drop_last() =~= parts);
    reveal_with_fuel(components, 2);
    assert(seq!["."@].drop_last() =~= Seq::<Seq<char>>::empty());
    assert(components(seq!["."@]) =~= seq!["."@]);
}

/// Conversations are kept beside the state.
pub proof fn conversations_are_kept_beside_the_state(parent: Seq<char>)
    requires
        parent.len() > 0,
        parent.last() != '/',
    ensures
        conversations_beside(Some(parent)) == parent + "/conversations"@,
        conversations_beside(None) == "./conversations"@,
{
    reveal_strlit(".");
    reveal_strlit("/");
    reveal_strlit("conversations");
    reveal_strlit("/conversations");
    reveal_strlit("./conversations");
    assert(parent + "/"@ + "conversations"@ =~= parent + "/conversations"@);
    assert("."@ + "/"@ + "conversations"@ =~= "./conversations"@);
}

} // verus!
