//! What the events of a conversation become on the screen, and what stands around
//! the prompt.
use crate::app::{Around, Desk, Screen};
use crate::bars::lanes_running;
use crate::blocks::{block, divider, marked_block, smaller};
use crate::connecting::{connected, form_key};
use crate::effects::Deed;
use crate::events::{Conversation, Happening, Lane, LaneStatus, working};
use crate::form::{adjusted, field_shortened, focus_moved, typed};
use crate::inputs::{rows_above, shown_above};
use crate::json::Value;
use crate::keyboard::pressed;
use crate::keys::{Key, KeyCode};
use crate::keystrokes::{bare, control};
use crate::lexis::{lines_end_with_line_feeds, texts_hold_their_parts};
use crate::messages::{steer_rows, tagged, user_rows};
use crate::outcomes::lemma_some_line;
use crate::panels::{
    answer_rows, clipped, preview, question_counter, queue_rows, running, span_note, whole_seconds,
    window,
};
use crate::pickers::{resume_key, theme_key};
use crate::profiles::profiles_key;
use crate::prompt::{laid_out, layout, lemma_laid_out};
use crate::results::{expandable, is_error, long_result, short_result};
use crate::style::{Color, Piece, Style, colored, piece, room, unstyled};
use crate::table::larger;
use crate::text::{blank, decimal, is_white, line_list, occurs, padded_to, repeated, trimmed_end};
use crate::theme::{accent, danger, subtle, success};
use crate::tools::{ToolRowStatus, call_head, call_parts, call_preview, dot_piece};
use crate::transcript::{
    Board, HIDDEN_TOOL_ROWS, Present, Scene, acted, call_rows, compact_start, errors_end,
    errors_label, event_rows, hidden_tool, more_lines_hint, opening, row_status, shown_call,
    spinner, turned, user_wrote, with_present,
};
use crate::wrap::{lemma_merged_push, merged, wrapped};
use vstd::prelude::*;

verus! {

// ---------------------------------------------------------------------------
// Measures and styles
// ---------------------------------------------------------------------------

/// The smaller and the larger of two numbers, what is left of a width, and a text
/// that is filled up to one.
pub proof fn measures_are_what_they_say(a: nat, b: nat, s: Seq<char>)
    ensures
        smaller(a, b) <= a && smaller(a, b) <= b && (smaller(a, b) == a || smaller(a, b) == b),
        larger(a, b) >= a && larger(a, b) >= b && (larger(a, b) == a || larger(a, b) == b),
        b <= a ==> room(a, b) + b == a,
        b > a ==> room(a, b) == 0,
        padded_to(s, a).len() == larger(s.len(), a),
        padded_to(s, a).take(s.len() as int) == s,
        forall|i: int| s.len() <= i < padded_to(s, a).len() ==> #[trigger] padded_to(s, a)[i] == ' ',
{
    assert(padded_to(s, a).take(s.len() as int) =~= s);
}

/// A style has one colour, and each change of it changes one thing.
pub proof fn styles_change_one_thing_each(s: Style, c: Color)
    ensures
        colored(c) == (Style { fg: Some(c), bg: None, bold: false, italic: false, dim: false }),
        unstyled() == (Style { fg: None, bg: None, bold: false, italic: false, dim: false }),
        s.bolded() == (Style { bold: true, ..s }),
        s.slanted() == (Style { italic: true, ..s }),
        s.dimmed() == (Style { dim: true, ..s }),
        s.on(c) == (Style { bg: Some(c), ..s }),
{
}

// ---------------------------------------------------------------------------
// Events
// ---------------------------------------------------------------------------

/// Text behind a sign: the sign stands in front of the first line, and as much room in
/// front of the others.
pub proof fn the_sign_stands_in_front(glyph: Seq<char>, color: Color, text: Seq<char>, width: nat)
    ensures
        ({
            let list = wrapped(text, room(width, 2));
            let all = marked_block(glyph, color, text, width);
            &&& all.len() == list.len()
            &&& forall|k: int|
                0 <= k < all.len() ==> {
                    let row = #[trigger] all[k];
                    &&& row.len() == 2
                    &&& row[0].text == (if k == 0 {
                        glyph + " "@
                    } else {
                        repeated(' ', 2)
                    })
                    &&& row[1] == piece(list[k], colored(color))
                }
        }),
{
}

/// What is shown of an event, by its kind: what went wrong in the colour of danger,
/// questions and decisions with a sign of their own, and requests for approval not at
/// all, since they stand in a panel.
pub proof fn events_are_shown_by_their_kind(text: Seq<char>, width: nat)
    ensures
        event_rows(Happening::ModelError { message: text }, width) == marked_block(
            "✗"@,
            danger(),
            text,
            width,
        ),
        event_rows(Happening::UserInput { text }, width) == user_rows(text, width),
        event_rows(Happening::Steer { text }, width) == steer_rows(text, width),
        forall|tool_name: Seq<char>, summary: Seq<char>, index: usize, total: usize|
            (#[trigger] event_rows(
                Happening::ApprovalRequest { tool_name, summary, index, total },
                width,
            )).len() == 0,
        event_rows(
            Happening::SystemDecision { step: "history_compaction_pass"@, reasoning: text },
            width,
        ).len() == 0,
        event_rows(
            Happening::SystemDecision { step: "history_compacted"@, reasoning: text },
            width,
        ) == divider(width, " ✦ context compacted "@),
{
    reveal_strlit("history_compaction_pass");
    reveal_strlit("history_compaction_skipped");
    reveal_strlit("history_compacted");
    assert("history_compaction_pass"@.len() == 23 && "history_compacted"@.len() == 17);
    assert("history_compaction_skipped"@.len() == 26);
}

/// A divider stands between empty lines, its label in the middle.
pub proof fn dividers_stand_alone(width: nat, label: Seq<char>)
    ensures
        divider(width, label).len() == 3,
        divider(width, label)[0].len() == 0 && divider(width, label)[2].len() == 0,
        divider(width, label)[1].len() == 3 && divider(width, label)[1][1].text == label,
        divider(width, label)[1][0] == divider(width, label)[1][2],
        divider(width, label)[1][0].text.len() <= 36,
        label.len() <= width <= label.len() + 72 ==> 2 * divider(width, label)[1][0].text.len()
            + label.len() <= width <= 2 * divider(width, label)[1][0].text.len() + label.len() + 1,
{
}

/// The tools that have events of their own.
pub proof fn tools_with_events_of_their_own(name: Seq<char>)
    ensures
        hidden_tool(name) <==> (name == "terminate_loop"@ || name == "note"@ || name
            == "notify_user"@ || name == "ask_user"@ || name == "delegate_task"@ || name
            == "complete_goal"@ || name == "monitor"@),
{
    assert(HIDDEN_TOOL_ROWS@[0]@ == "terminate_loop"@);
    assert(HIDDEN_TOOL_ROWS@[1]@ == "note"@);
    assert(HIDDEN_TOOL_ROWS@[2]@ == "notify_user"@);
    assert(HIDDEN_TOOL_ROWS@[3]@ == "ask_user"@);
    assert(HIDDEN_TOOL_ROWS@[4]@ == "delegate_task"@);
    assert(HIDDEN_TOOL_ROWS@[5]@ == "complete_goal"@);
    assert(HIDDEN_TOOL_ROWS@[6]@ == "monitor"@);
    if hidden_tool(name) {
        let i = choose|i: int| 0 <= i < 7 && (#[trigger] HIDDEN_TOOL_ROWS@[i])@ == name;
        assert(i == 0 || i == 1 || i == 2 || i == 3 || i == 4 || i == 5 || i == 6);
    }
}

/// A call goes on until its result is there, and then it is done or has failed; the
/// dot in front of it tells which.
pub proof fn the_dot_tells_how_a_call_stands(result: Value)
    ensures
        is_error(result) ==> row_status(Some(result), true) == ToolRowStatus::Failed && row_status(
            Some(result),
            false,
        ) == ToolRowStatus::Failed,
        !is_error(result) ==> row_status(Some(result), true) == ToolRowStatus::Done,
        row_status(None, true) == ToolRowStatus::Running,
        row_status(None, false) == ToolRowStatus::Done,
        dot_piece(ToolRowStatus::Done) == piece("● "@, colored(success())),
        dot_piece(ToolRowStatus::Running) == piece("● "@, colored(accent())),
        dot_piece(ToolRowStatus::Failed) == piece("● "@, colored(danger())),
{
}

/// In short a call is its heading alone, and what went wrong; at length what it was
/// given and what it gave follow.
pub proof fn calls_are_shown_in_short_or_at_length(
    tool: Seq<char>,
    args: Value,
    result: Value,
    status: ToolRowStatus,
    scene: Scene,
)
    ensures
        ({
            let head = call_head(
                call_parts(tool, args).0,
                call_parts(tool, args).1,
                scene.width,
                status,
            );
            let all = call_rows(tool, args, Some(result), status, scene);
            let open = call_rows(tool, args, None, status, scene);
            &&& !scene.expanded && !is_error(result) ==> all.len() == head.len()
            &&& !scene.expanded && is_error(result) ==> all.len() == head.len() + short_result(
                tool,
                result,
                scene.width,
            ).len() && all.skip(head.len() as int) == short_result(tool, result, scene.width)
            &&& !scene.expanded ==> open.len() == head.len()
            &&& scene.expanded ==> all.skip(head.len() as int) == call_preview(
                tool,
                args,
                scene.width,
            ) + long_result(tool, result, scene.width)
            &&& scene.expanded ==> open.skip(head.len() as int) == call_preview(
                tool,
                args,
                scene.width,
            )
            &&& forall|k: int| 1 <= k < head.len() ==> #[trigger] all[k] == head[k]
            &&& status != ToolRowStatus::Running && !expandable(tool, args, Some(result)) ==> all[0]
                == head[0]
            &&& status == ToolRowStatus::Running ==> all[0].last() == piece(
                spinner(scene.frame),
                colored(accent()),
            )
        }),
{
    let head = call_head(
        call_parts(tool, args).0,
        call_parts(tool, args).1,
        scene.width,
        status,
    );
    let all = call_rows(tool, args, Some(result), status, scene);
    let open = call_rows(tool, args, None, status, scene);
    let n = head.len() as int;
    assert(head.len() > 0);
    if scene.expanded {
        assert(all.skip(n) =~= call_preview(tool, args, scene.width) + long_result(
            tool,
            result,
            scene.width,
        ));
        assert(open.skip(n) =~= call_preview(tool, args, scene.width));
    } else if is_error(result) {
        assert(all.skip(n) =~= short_result(tool, result, scene.width));
    }
}

/// The spinner turns with every second frame.
pub proof fn the_spinner_turns(frame: nat)
    ensures
        spinner(frame + 20) == spinner(frame),
        frame % 2 == 0 ==> spinner(frame + 1) == spinner(frame),
{
    assert((frame + 20) / 2 == frame / 2 + 10);
    assert((frame / 2 + 10) % 10 == (frame / 2) % 10);
}

/// A call and the result behind it are shown together; a result of another tool is
/// not taken for it.
pub proof fn a_result_belongs_to_the_call_before_it(
    events: Seq<Happening>,
    i: int,
    tool: Seq<char>,
    args: Value,
    b: Board,
    scene: Scene,
)
    requires
        0 <= i < events.len(),
        events[i] == (Happening::ToolCall { tool_name: tool, arguments: args }),
        !hidden_tool(tool),
    ensures
        ({
            let (next, j) = crate::transcript::shown(events, i, b, scene);
            let own = i + 1 < events.len() && match events[i + 1] {
                Happening::ToolResult { tool_name, .. } => tool_name == tool,
                _ => false,
            };
            &&& own ==> j == i + 2 && next == shown_call(
                tool,
                args,
                Some(events[i + 1]->ToolResult_result),
                b,
                scene,
            )
            &&& !own ==> j == i + 1 && next == shown_call(tool, args, None, b, scene)
            &&& next.after_tool
            &&& next.speaker == Some(true)
        }),
{
}

/// Errors one after the other are shown as one, by the last of them and how many
/// they are.
pub proof fn errors_are_gathered(
    events: Seq<Happening>,
    i: int,
    n: nat,
    last: Seq<char>,
    b: Board,
    scene: Scene,
)
    requires
        0 <= i,
        n > 0,
        i + n <= events.len(),
        forall|k: int| i <= k < i + n ==> #[trigger] events[k] is ModelError,
        i + n == events.len() || !(events[i + n] is ModelError),
        events[i + n - 1] == (Happening::ModelError { message: last }),
    ensures
        crate::transcript::shown(events, i, b, scene).1 == i + n,
        errors_label(last, n) == (if n == 1 {
            last
        } else {
            last + "  (×"@ + decimal(n) + ")"@
        }),
        crate::transcript::shown(events, i, b, scene).0.lines == turned(b, true).lines + tagged(
            marked_block("✗"@, danger(), errors_label(last, n), scene.width),
            true,
            turned(b, true).pending,
        ),
{
    assert(events[i] is ModelError);
    lemma_errors_end(events, i + 1, (n - 1) as nat);
}

proof fn lemma_errors_end(events: Seq<Happening>, i: int, n: nat)
    requires
        0 <= i,
        i + n <= events.len(),
        forall|k: int| i <= k < i + n ==> #[trigger] events[k] is ModelError,
        i + n == events.len() || !(events[i + n] is ModelError),
    ensures
        errors_end(events, i) == i + n,
    decreases n,
{
    if n > 0 {
        assert(events[i] is ModelError);
        lemma_errors_end(events, i + 1, (n - 1) as nat);
    }
}

/// An empty line stands between two speakers, and none between two things that one
/// of them says; a new speaker is told by the sign in front.
pub proof fn speakers_stand_apart(b: Board, agent: bool)
    ensures
        b.speaker == Some(agent) ==> turned(b, agent) == b,
        b.speaker == Some(!agent) ==> turned(b, agent).lines == b.lines.push(Seq::<Piece>::empty())
            && turned(b, agent).pending,
        b.speaker is None ==> turned(b, agent).lines == b.lines && turned(b, agent).pending,
        turned(b, agent).speaker == Some(agent),
{
}

/// What was compacted last begins the transcript.
pub proof fn the_last_compaction_begins(a: Seq<Happening>, c: Happening, b: Seq<Happening>)
    requires
        c is SystemDecision && c->step == "history_compacted"@,
        forall|i: int|
            0 <= i < b.len() ==> !((#[trigger] b[i]) is SystemDecision && b[i]->step
                == "history_compacted"@),
    ensures
        compact_start(a + seq![c] + b) == a.len(),
        compact_start(b) == 0,
    decreases b.len(),
{
    let all = a + seq![c] + b;
    if b.len() == 0 {
        assert(all.last() == c);
    } else {
        let r = b.drop_last();
        assert(!(b[b.len() - 1] is SystemDecision && b[b.len() - 1]->step
            == "history_compacted"@));
        assert(all.last() == b.last());
        assert(all.drop_last() =~= a + seq![c] + r);
        assert forall|i: int| 0 <= i < r.len() implies !((#[trigger] r[i]) is SystemDecision
            && r[i]->step == "history_compacted"@) by {
            assert(r[i] == b[i]);
        }
        the_last_compaction_begins(a, c, r);
    }
}

/// The agent has done something since the user spoke, decisions and errors aside.
pub proof fn what_counts_as_an_action(events: Seq<Happening>, e: Happening)
    ensures
        !acted(Seq::empty()),
        e is UserInput || e is Steer ==> !acted(events.push(e)),
        e is SystemDecision || e is ModelError ==> acted(events.push(e)) == acted(events),
        e is ToolCall || e is AssistantText || e is ToolResult || e is Note ==> acted(
            events.push(e),
        ),
{
    assert(events.push(e).drop_last() =~= events);
}

/// The first request is shown where no message of the user is.
pub proof fn the_first_request_is_shown(c: Conversation, text: Seq<char>, width: nat)
    requires
        c.initial_request == Some(text),
        !blank(text),
    ensures
        !user_wrote(c.events) ==> opening(c, width).lines == tagged(
            user_rows(text, width),
            false,
            true,
        ) && opening(c, width).speaker == Some(false),
        user_wrote(c.events) ==> opening(c, width).lines.len() == 0,
        user_wrote(c.events) <==> exists|i: int|
            0 <= i < c.events.len() && #[trigger] c.events[i] is UserInput,
{
    let none = Seq::<Seq<Piece>>::empty();
    assert(none + tagged(user_rows(text, width), false, true) =~= tagged(
        user_rows(text, width),
        false,
        true,
    ));
}

/// A report of a lane is shown by its first three lines, and how many more there are;
/// at length it is shown whole.
pub proof fn reports_are_shown_by_three_lines(
    title: Seq<char>,
    status: LaneStatus,
    text: Seq<char>,
    width: nat,
)
    requires
        !blank(text),
    ensures
        ({
            let body = block(seq![piece(text, subtle())], width, false);
            let short = crate::transcript::lane_rows(title, status, Some(text), width, false);
            let long = crate::transcript::lane_rows(title, status, Some(text), width, true);
            &&& long.skip(1) == body
            &&& body.len() <= 3 ==> short.skip(1) == body
            &&& body.len() > 3 ==> short.len() == 5 && short.subrange(1, 4) == body.take(3)
                && short[4][1].text == more_lines_hint((body.len() - 3) as nat)
            &&& short[0][1].text == title + " "@
            &&& short[0][2].text == (match status {
                LaneStatus::Completed => "[done]"@,
                LaneStatus::Failed => "[failed]"@,
                LaneStatus::Running => "[running]"@,
            })
        }),
        crate::transcript::lane_rows(title, status, None, width, false).len() == 1,
{
    let body = block(seq![piece(text, subtle())], width, false);
    let short = crate::transcript::lane_rows(title, status, Some(text), width, false);
    let long = crate::transcript::lane_rows(title, status, Some(text), width, true);
    assert(long.skip(1) =~= body);
    if body.len() <= 3 {
        assert(short.skip(1) =~= body);
    } else {
        assert(short.subrange(1, 4) =~= body.take(3));
    }
}

// ---------------------------------------------------------------------------
// Around the prompt
// ---------------------------------------------------------------------------

/// As many rows are kept above the prompt as stand there.
pub proof fn the_rows_above_are_counted(d: Desk, seconds: i64, nanos: u32)
    ensures
        shown_above(d, seconds, nanos).len() == rows_above(d),
{
}

/// The first three messages that are held are shown, and how many more there are.
pub proof fn held_messages_are_shown(queued: Seq<Seq<char>>)
    ensures
        ({
            let n = queued.len();
            let all = queue_rows(queued);
            &&& n == 0 ==> all.len() == 0
            &&& 0 < n <= 3 ==> all.len() == n + 1
            &&& n > 3 ==> all.len() == 5 && all[4][1].text == "… +"@ + decimal((n - 3) as nat)
                + " more"@
            &&& forall|i: int|
                0 <= i < n && i < 3 ==> (#[trigger] all[i + 1])[1].text == preview(queued[i])
            &&& n > 1 ==> occurs(all[0][1].text, decimal(n))
        }),
{
    let n = queued.len();
    if n > 1 {
        texts_hold_their_parts(
            "queued ("@,
            decimal(n),
            ") — send together when the run finishes · Ctrl+X to cancel"@,
        );
    }
}

/// A short message of one line is shown whole, any other by its beginning and an
/// ellipsis.
pub proof fn previews_are_short(line: Seq<char>, rest: Seq<char>)
    requires
        line.len() > 0,
        !line.contains('\n'),
        !line.contains('\r'),
        rest.len() > 0,
    ensures
        line.len() <= 72 ==> preview(line) == line,
        line.len() > 72 ==> preview(line) == line.take(72) + "…"@,
        line.len() <= 72 ==> preview(line + seq!['\n'] + rest) == line + "…"@,
        preview(Seq::empty()).len() == 0,
{
    assert(line.contains(line.last()));
    lines_end_with_line_feeds(line, rest);
    lines_end_with_line_feeds(line, Seq::empty());
    lemma_some_line(rest);
    reveal_strlit("");
    let all = line + seq!['\n'] + rest;
    assert(line_list(all)[0] == line && line_list(all).len() > 1);
    if line.len() <= 72 {
        assert(line.take(line.len() as int) =~= line);
        assert(line + ""@ =~= line);
    }
    assert(""@.take(0) + ""@ =~= Seq::<char>::empty());
}

/// How long a lane has run is told in seconds, and from a minute on in minutes; a
/// clock that goes backwards tells nothing below zero.
pub proof fn running_times_are_told(n: i64)
    ensures
        n < 0 ==> span_note(Some(n)) == "0s"@,
        0 <= n < 60 ==> span_note(Some(n)) == decimal(n as nat) + "s"@,
        n >= 60 ==> span_note(Some(n)) == decimal((n / 60) as nat) + "m"@,
        span_note(None).len() == 0,
{
    reveal_strlit("");
}

/// A time that has passed is counted in whole seconds.
pub proof fn whole_seconds_pass(from: (i64, u32), seconds: i64, nanos: u32)
    requires
        from.1 < 1_000_000_000,
        nanos < 1_000_000_000,
    ensures
        whole_seconds(from, from) == 0,
        seconds > from.0 && nanos >= from.1 ==> whole_seconds(from, (seconds, nanos)) == seconds
            - from.0,
        seconds > from.0 && nanos < from.1 ==> whole_seconds(from, (seconds, nanos)) == seconds
            - from.0 - 1,
{
}

/// A title that is too long is cut, and an ellipsis tells so.
pub proof fn long_titles_end_in_an_ellipsis(s: Seq<char>, n: nat)
    ensures
        s.len() <= n ==> clipped(s, n) == s,
        s.len() > n ==> clipped(s, n) == s.take(n as int) + "…"@,
{
}

/// Of the lanes those are shown that run, four at most, in their order.
pub proof fn running_lanes_are_shown(lanes: Seq<Lane>, l: Lane, seconds: i64, nanos: u32)
    ensures
        l.status == LaneStatus::Running ==> running(lanes.push(l)) == running(lanes).push(l),
        l.status != LaneStatus::Running ==> running(lanes.push(l)) == running(lanes),
        crate::panels::lane_rows(lanes, seconds, nanos).len() == smaller(running(lanes).len(), 4),
        lanes_running(lanes) == running(lanes).len(),
{
    lanes.lemma_filter_push(l, |x: Lane| x.status == LaneStatus::Running);
}

/// A question is shown with its place among several and everything that can be
/// chosen, the selected answer marked.
pub proof fn answers_are_shown_to_choose_from(
    list: Seq<(Seq<char>, Seq<char>)>,
    sel: nat,
    index: nat,
    total: nat,
)
    ensures
        list.len() > 0 && sel < list.len() ==> answer_rows(list, sel).len() == list.len() + 1,
        forall|i: int|
            0 <= i < list.len() && sel < list.len() ==> {
                let row = #[trigger] answer_rows(list, sel)[i];
                &&& row[1].text == list[i].1
                &&& row[0].text == (if i == sel {
                    "  ▸ "@
                } else {
                    "    "@
                })
            },
        total > 1 ==> question_counter(index, total) == "  ("@ + decimal(index + 1) + "/"@
            + decimal(total) + ")"@,
        total <= 1 ==> question_counter(index, total).len() == 0,
{
    reveal_strlit("");
}

/// The window on the transcript ends as many lines above its end as was scrolled.
pub proof fn scrolling_moves_by_lines(total: nat, height: nat, scroll: nat)
    requires
        scroll + height <= total,
    ensures
        window(total, height, scroll).1 == total - scroll,
        window(total, height, scroll).0 == total - scroll - height,
        window(total, height, scroll).2 == total - height,
{
}

/// The cursor stands behind the characters that stand before it in the text.
pub proof fn the_cursor_stands_where_it_is(s: Seq<char>, cursor: nat, width: nat)
    requires
        cursor <= s.len(),
    ensures
        ({
            let (list, at) = layout(s, cursor, width);
            &&& at.0 < list.len()
            &&& at.1 <= list[at.0 as int].len()
            &&& merged(list.take(at.0 as int)) + list[at.0 as int].take(at.1 as int) == s.take(
                cursor as int,
            ).filter(|c: char| c != '\n')
        }),
{
    let w = larger(width, 1);
    let n = s.len() as int;
    let l = laid_out(s, cursor, w, n);
    let list = l.rows.push(l.cur);
    lemma_laid_out(s, cursor, w, n);
    assert(s.take(n) =~= s);
    if cursor >= s.len() {
        assert(list.take(l.rows.len() as int) =~= l.rows);
        assert(l.cur.take(l.cur.len() as int) =~= l.cur);
    } else {
        lemma_cursor(s, cursor, w, n);
    }
}

proof fn lemma_cursor(s: Seq<char>, cursor: nat, w: nat, i: int)
    requires
        cursor < i <= s.len(),
        w >= 1,
    ensures
        ({
            let l = laid_out(s, cursor, w, i);
            let list = l.rows.push(l.cur);
            &&& l.at.0 < list.len()
            &&& l.at.1 <= list[l.at.0 as int].len()
            &&& merged(list.take(l.at.0 as int)) + list[l.at.0 as int].take(l.at.1 as int)
                == s.take(cursor as int).filter(|c: char| c != '\n')
        }),
    decreases i,
{
    let l = laid_out(s, cursor, w, i - 1);
    let n = laid_out(s, cursor, w, i);
    let before = l.rows.push(l.cur);
    let after = n.rows.push(n.cur);
    let c = s[i - 1];
    if cursor == i - 1 {
        lemma_laid_out(s, cursor, w, i - 1);
        if c == '\n' {
            assert(after.take(l.rows.len() as int) =~= l.rows);
            assert(after[l.rows.len() as int] == l.cur);
            assert(l.cur.take(l.cur.len() as int) =~= l.cur);
        } else if l.cur.len() == w {
            let m = l.rows.push(l.cur);
            assert(after.take(m.len() as int) =~= m);
            lemma_merged_push(l.rows, l.cur);
            assert(after[m.len() as int].take(0) =~= Seq::<char>::empty());
            assert(merged(m) + Seq::<char>::empty() =~= merged(l.rows) + l.cur);
        } else {
            assert(after.take(l.rows.len() as int) =~= l.rows);
            assert(after[l.rows.len() as int].take(l.cur.len() as int) =~= l.cur);
        }
    } else {
        lemma_cursor(s, cursor, w, i - 1);
        let at = l.at;
        assert(n.at == at);
        assert(after.take(at.0 as int) =~= before.take(at.0 as int));
        assert(after[at.0 as int].take(at.1 as int) =~= before[at.0 as int].take(at.1 as int));
    }
}

/// While a turn goes on, what the model says is shown, and that it works; a
/// compaction is shown elsewhere.
pub proof fn work_is_shown_while_it_goes_on(
    lines: Seq<Seq<Piece>>,
    c: Conversation,
    now: Present,
    frame: nat,
    content: nat,
    width: nat,
)
    ensures
        ({
            let all = with_present(lines, c, now, frame, content, width);
            &&& !working(c) || !now.alive ==> all == lines
            &&& working(c) && now.alive && !now.compacting ==> all.len() > 0 && all.last().len()
                == 2 && all.last()[1].text == "working…"@
            &&& all.len() >= lines.len() && all.take(lines.len() as int) == lines
            &&& working(c) && now.alive && now.compacting && blank(now.live) && (acted(c.events)
                || blank(now.thinking)) ==> all == lines
        }),
{
    let all = with_present(lines, c, now, frame, content, width);
    lemma_blank_trimmed_end(now.live);
    lemma_blank_trimmed_end(now.thinking);
    assert(all.take(lines.len() as int) =~= lines);
}

proof fn lemma_blank_trimmed_end(s: Seq<char>)
    ensures
        blank(s) ==> trimmed_end(s).len() == 0,
    decreases s.len(),
{
    if blank(s) && s.len() > 0 {
        assert(is_white(s[s.len() - 1]));
        assert forall|i: int| 0 <= i < s.drop_last().len() implies is_white(
            #[trigger] s.drop_last()[i],
        ) by {
            assert(s.drop_last()[i] == s[i]);
        }
        lemma_blank_trimmed_end(s.drop_last());
    }
}

/// Each screen has its keys: the form before all, then a call that waits, then the
/// control keys, then the list or the prompt that is shown.
pub proof fn each_screen_has_its_keys(d: Desk, key: Key, w: Around)
    ensures
        ({
            let e = Desk { error: None, ..d };
            &&& d.connecting ==> pressed(d, key, w) == form_key(e, key, w)
            &&& !d.connecting && d.screen == Screen::Profiles && !key.ctrl ==> pressed(d, key, w)
                == profiles_key(e, key.code, w)
            &&& !d.connecting && d.screen == Screen::ThemeSelection && !key.ctrl ==> pressed(
                d,
                key,
                w,
            ) == theme_key(e, key.code, w)
            &&& !d.connecting && d.screen == Screen::ResumeSelection && !key.ctrl ==> pressed(
                d,
                key,
                w,
            ) == resume_key(e, key.code, w)
        }),
{
}

/// The form takes keys for its fields, and is left or sent by them.
pub proof fn the_form_has_its_keys(d: Desk, w: Around, c: char)
    requires
        d.device is None,
    ensures
        form_key(d, bare(KeyCode::Char(c)), w) == (
            Desk { entry: typed(d.entry, seq![c]), ..d },
            Seq::<Deed>::empty(),
        ),
        form_key(d, bare(KeyCode::Backspace), w) == (
            Desk { entry: field_shortened(d.entry), ..d },
            Seq::<Deed>::empty(),
        ),
        form_key(d, bare(KeyCode::Left), w).0.entry == adjusted(d.entry, false),
        form_key(d, bare(KeyCode::Right), w).0.entry == adjusted(d.entry, true),
        form_key(d, bare(KeyCode::Tab), w).0.entry.focus == focus_moved(d.entry, true).focus,
        form_key(d, bare(KeyCode::Down), w).0.entry.focus == focus_moved(d.entry, true).focus,
        form_key(d, bare(KeyCode::BackTab), w).0.entry.focus == focus_moved(d.entry, false).focus,
        form_key(d, bare(KeyCode::Up), w).0.entry.focus == focus_moved(d.entry, false).focus,
        form_key(d, bare(KeyCode::Enter), w) == connected(d, w),
        !form_key(d, bare(KeyCode::Esc), w).0.connecting,
        form_key(d, bare(KeyCode::Esc), w).1[0] == Deed::RestoreConfig,
        form_key(d, control('c'), w).1[0] == Deed::RestoreConfig,
        d.entry.provider == "chatgpt"@ ==> form_key(d, control('l'), w).1 == seq![Deed::SignOut],
        d.entry.provider != "chatgpt"@ ==> form_key(d, control('l'), w) == (d, Seq::<Deed>::empty()),
{
}

} // verus!
