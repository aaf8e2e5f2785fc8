//! The transcript of a conversation as lines on the screen.
use crate::blocks::{
    agent_gutter, block, compaction_divider, divider, glyph_piece, less, marked_block, marker_block,
    result_block, tool_prune_divider,
};
use crate::events::{
    Conversation, Happening, HarnessEvent, HarnessState, HarnessStatus, LaneStatus, decides,
    happenings, is_step, is_working, working,
};
use crate::json::{Json, Value};
use crate::messages::{
    TAG_W, file_rows, present_file_lines, push_tagged, steer_lines, steer_rows, tagged, user_lines,
    user_rows,
};
use crate::prose::{lead_lines, led, prose, render_prose};
use crate::questions::{question_text, questions_text};
use crate::results::{
    expandable, failed, is_error, long_result, opt_value, short_result, tool_is_expandable,
    tool_result_lines, tool_result_lines_expanded,
};
use crate::style::{
    Color, Line, Piece, Span, Style, append_lines, blank_line, blank_row, colored, copy_line, line2,
    line3, line_of, no_lines, no_spans, piece, pieces_of, push_line, push_span, raw, raw_span, room,
    room_beside, row_width, rows, spaces, spaces_span, span, suffixed, unstyled,
};
use crate::table::larger;
use crate::text::{
    blank, cat2, cat3, cat4, cat5, decimal, decimal_string, is_blank, opt_str, same, trim_end,
    trimmed_end,
};
use crate::theme::{accent, danger, faint, ink, lane, muted, subtle, success, warn};
use crate::tools::{
    ToolRowStatus, call_head, call_parts, call_preview, tool_call_head_lines_status,
    tool_call_lines, tool_call_preview,
};
use vstd::prelude::*;

verus! {

/// Tools with events of their own, whose calls and results are not shown.
pub const HIDDEN_TOOL_ROWS: [&'static str; 7] = [
    "terminate_loop",
    "note",
    "notify_user",
    "ask_user",
    "delegate_task",
    "complete_goal",
    "monitor",
];

pub const SPINNER: [&'static str; 10] = ["⠋", "⠙", "⠹", "⠸", "⠼", "⠴", "⠦", "⠧", "⠇", "⠏"];

/// How many lines of a lane's report are shown.
pub const LANE_PREVIEW_LINES: usize = 3;

pub open spec fn hidden_tool(name: Seq<char>) -> bool {
    exists|i: int| 0 <= i < 7 && (#[trigger] HIDDEN_TOOL_ROWS@[i])@ == name
}

pub fn is_hidden_tool(name: &str) -> (r: bool)
    ensures
        r == hidden_tool(name@),
{
    for i in 0..7usize
        invariant
            forall|k: int| 0 <= k < i ==> (#[trigger] HIDDEN_TOOL_ROWS@[k])@ != name@,
    {
        if same(HIDDEN_TOOL_ROWS[i], name) {
            assert(HIDDEN_TOOL_ROWS@[i as int]@ == name@);
            return true;
        }
    }
    false
}

/// The spinner at an animation frame.
pub open spec fn spinner(frame: nat) -> Seq<char> {
    SPINNER@[((frame / 2) % 10) as int]@
}

pub fn spinner_at(frame: usize) -> (r: &'static str)
    ensures
        r@ == spinner(frame as nat),
{
    let i: usize = (frame / 2) % 10;
    SPINNER[i]
}

// ---------------------------------------------------------------------------
// Blocks
// ---------------------------------------------------------------------------

/// The lines with an empty span in front of each.
pub open spec fn indented(list: Seq<Seq<Piece>>) -> Seq<Seq<Piece>> {
    led(list, raw(Seq::empty()), raw(Seq::empty()))
}

fn empty_lead() -> (r: Span)
    ensures
        r@ == raw(Seq::empty()),
{
    let r = Span { text: String::new(), style: unstyled() };
    assert(r@.text =~= Seq::<char>::empty());
    r
}

pub fn indent_block(list: &Vec<Line>) -> (r: Vec<Line>)
    ensures
        rows(r@) == indented(rows(list@)),
{
    lead_lines(list, &empty_lead(), &empty_lead())
}

/// A style that stands back: muted and dim.
#[verifier::allow_in_spec]
pub fn quiet(s: Style) -> Style
    returns
        (Style { fg: Some(muted()), dim: true, ..s }),
{
    Style { fg: Some(muted()), dim: true, ..s }
}

/// A style that recedes: slanted and dim.
#[verifier::allow_in_spec]
pub fn receding(s: Style) -> Style
    returns
        s.slanted().dimmed(),
{
    s.slanted().dimmed()
}

pub open spec fn quiet_row(row: Seq<Piece>) -> Seq<Piece> {
    row.map_values(|p: Piece| piece(p.text, quiet(p.style)))
}

pub open spec fn receding_row(row: Seq<Piece>) -> Seq<Piece> {
    row.map_values(|p: Piece| piece(p.text, receding(p.style)))
}

fn quiet_line(l: &Line) -> (r: Line)
    ensures
        r@ == quiet_row(l@),
{
    let mut spans = no_spans();
    for i in 0..l.spans.len()
        invariant
            pieces_of(spans@).len() == i,
            forall|k: int| 0 <= k < i ==> #[trigger] pieces_of(spans@)[k] == quiet_row(l@)[k],
    {
        push_span(&mut spans, span(l.spans[i].text.as_str(), quiet(l.spans[i].style)));
    }
    assert(pieces_of(spans@) =~= quiet_row(l@));
    line_of(spans)
}

fn receding_line(l: &Line) -> (r: Line)
    ensures
        r@ == receding_row(l@),
{
    let mut spans = no_spans();
    for i in 0..l.spans.len()
        invariant
            pieces_of(spans@).len() == i,
            forall|k: int| 0 <= k < i ==> #[trigger] pieces_of(spans@)[k] == receding_row(l@)[k],
    {
        push_span(&mut spans, span(l.spans[i].text.as_str(), receding(l.spans[i].style)));
    }
    assert(pieces_of(spans@) =~= receding_row(l@));
    line_of(spans)
}

/// The thoughts of the model: prose that stands back.
pub open spec fn thought_rows(text: Seq<char>, width: nat) -> Seq<Seq<Piece>> {
    indented(prose(text, width).map_values(|row: Seq<Piece>| quiet_row(row)))
}

pub fn thinking_lines(text: &str, width: usize) -> (r: Vec<Line>)
    ensures
        rows(r@) == thought_rows(text@, width as nat),
{
    let list = render_prose(text, width);
    let ghost all = rows(list@);
    let mut out = no_lines();
    for i in 0..list.len()
        invariant
            all == rows(list@),
            rows(out@).len() == i,
            forall|k: int| 0 <= k < i ==> #[trigger] rows(out@)[k] == quiet_row(all[k]),
    {
        assert(all[i as int] == list@[i as int]@);
        push_line(&mut out, quiet_line(&list[i]));
    }
    assert(rows(out@) =~= all.map_values(|row: Seq<Piece>| quiet_row(row)));
    indent_block(&out)
}

/// A note, as a quiet aside.
pub open spec fn note_rows(entry: Seq<char>, width: nat) -> Seq<Seq<Piece>> {
    marked_block("·"@, faint(), entry, width).map_values(|row: Seq<Piece>| receding_row(row))
}

fn note_lines(entry: &str, width: usize) -> (r: Vec<Line>)
    ensures
        rows(r@) == note_rows(entry@, width as nat),
{
    let list = marker_block("·", faint(), entry, width);
    let ghost all = rows(list@);
    let mut out = no_lines();
    for i in 0..list.len()
        invariant
            all == rows(list@),
            rows(out@).len() == i,
            forall|k: int| 0 <= k < i ==> #[trigger] rows(out@)[k] == receding_row(all[k]),
    {
        assert(all[i as int] == list@[i as int]@);
        push_line(&mut out, receding_line(&list[i]));
    }
    assert(rows(out@) =~= note_rows(entry@, width as nat));
    out
}

#[verifier::allow_in_spec]
pub fn lane_color(status: LaneStatus) -> Color
    returns
        (match status {
            LaneStatus::Completed => success(),
            LaneStatus::Failed => danger(),
            LaneStatus::Running => lane(),
        }),
{
    match status {
        LaneStatus::Completed => success(),
        LaneStatus::Failed => danger(),
        LaneStatus::Running => lane(),
    }
}

pub open spec fn lane_tag(status: LaneStatus) -> Seq<char> {
    match status {
        LaneStatus::Completed => "[done]"@,
        LaneStatus::Failed => "[failed]"@,
        LaneStatus::Running => "[running]"@,
    }
}

pub open spec fn more_lines_hint(n: nat) -> Seq<char> {
    "… +"@ + decimal(n) + " more line"@ + (if n == 1 {
        ""@
    } else {
        "s"@
    }) + " · ^O to expand"@
}

/// A lane's report: its title and how it ended, then the report, in short where
/// it is not to be shown at length.
pub open spec fn lane_rows(
    title: Seq<char>,
    status: LaneStatus,
    report: Option<Seq<char>>,
    width: nat,
    expanded: bool,
) -> Seq<Seq<Piece>> {
    let head = seq![
        glyph_piece("◆"@, lane_color(status)),
        piece(title + " "@, colored(ink()).bolded()),
        piece(lane_tag(status), colored(lane_color(status))),
    ];
    match report {
        Some(text) => if blank(text) {
            seq![head]
        } else {
            let body = block(seq![piece(text, subtle())], width, false);
            if expanded || body.len() <= LANE_PREVIEW_LINES {
                seq![head] + body
            } else {
                let left = (body.len() - LANE_PREVIEW_LINES) as nat;
                (seq![head] + body.take(LANE_PREVIEW_LINES as int)).push(
                    seq![
                        raw(spaces(2)),
                        piece(more_lines_hint(left), colored(faint()).slanted()),
                    ],
                )
            }
        },
        None => seq![head],
    }
}

fn tag_of_lane(status: LaneStatus) -> (r: &'static str)
    ensures
        r@ == lane_tag(status),
{
    match status {
        LaneStatus::Completed => "[done]",
        LaneStatus::Failed => "[failed]",
        LaneStatus::Running => "[running]",
    }
}

pub fn lane_completed_lines(
    title: &str,
    status: LaneStatus,
    report: Option<&str>,
    width: usize,
    expanded: bool,
) -> (r: Vec<Line>)
    ensures
        rows(r@) == lane_rows(title@, status, opt_str(report), width as nat, expanded),
{
    let ghost goal = lane_rows(title@, status, opt_str(report), width as nat, expanded);
    let color = lane_color(status);
    let name = cat2(title, " ");
    let mut out = no_lines();
    push_line(
        &mut out,
        line3(
            agent_gutter("◆", color),
            Span { text: name, style: colored(ink()).bolded() },
            span(tag_of_lane(status), colored(color)),
        ),
    );
    match report {
        Some(text) => {
            if !is_blank(text) {
                let mut items = no_spans();
                push_span(&mut items, span(text, subtle()));
                assert(pieces_of(items@) =~= seq![piece(text@, subtle())]);
                let body = result_block(&items, width);
                let ghost all = rows(body@);
                assert(all.len() == body@.len());
                let ghost head = rows(out@);
                if expanded || body.len() <= LANE_PREVIEW_LINES {
                    append_lines(&mut out, body);
                } else {
                    let left: usize = body.len() - LANE_PREVIEW_LINES;
                    assert(head + all.take(0) =~= head);
                    for i in 0..LANE_PREVIEW_LINES
                        invariant
                            all == rows(body@),
                            body@.len() > LANE_PREVIEW_LINES,
                            rows(out@) == head + all.take(i as int),
                    {
                        assert(all[i as int] == body@[i as int]@);
                        push_line(&mut out, copy_line(&body[i]));
                        assert(head + all.take(i + 1) =~= (head + all.take(i as int)).push(
                            all[i as int],
                        ));
                    }
                    let d = decimal_string(left as u64);
                    let plural = if left == 1 {
                        ""
                    } else {
                        "s"
                    };
                    let hint = cat5("… +", d.as_str(), " more line", plural, " · ^O to expand");
                    push_line(
                        &mut out,
                        line2(
                            spaces_span(2),
                            Span { text: hint, style: colored(faint()).slanted() },
                        ),
                    );
                }
            }
        },
        None => {},
    }
    assert(rows(out@) =~= goal);
    out
}

// ---------------------------------------------------------------------------
// Events
// ---------------------------------------------------------------------------

/// A decision of the system, where it is shown.
pub open spec fn decision_rows(step: Seq<char>, reasoning: Seq<char>, width: nat) -> Seq<
    Seq<Piece>,
> {
    if step == "history_compaction_pass"@ || step == "history_compaction_skipped"@ {
        Seq::empty()
    } else if step == "history_compacted"@ {
        divider(width, " ✦ context compacted "@)
    } else if step == "tool_payloads_pruned"@ {
        divider(width, " ▸ older tools pruned "@)
    } else {
        marked_block("⚙"@, warn(), step + " — "@ + reasoning, width)
    }
}

fn decision_lines(step: &str, reasoning: &str, width: usize) -> (r: Vec<Line>)
    ensures
        rows(r@) == decision_rows(step@, reasoning@, width as nat),
{
    if same(step, "history_compaction_pass") || same(step, "history_compaction_skipped") {
        no_lines()
    } else if same(step, "history_compacted") {
        compaction_divider(width)
    } else if same(step, "tool_payloads_pruned") {
        tool_prune_divider(width)
    } else {
        let text = cat3(step, " — ", reasoning);
        marker_block("⚙", warn(), text.as_str(), width)
    }
}

/// What an event shows by itself. Some show nothing.
pub open spec fn event_rows(e: Happening, width: nat) -> Seq<Seq<Piece>> {
    match e {
        Happening::UserInput { text } => user_rows(text, width),
        Happening::Steer { text } => steer_rows(text, width),
        Happening::AssistantText { text } => indented(prose(text, width)),
        Happening::Note { entry } => note_rows(entry, width),
        Happening::FilePresented { path, caption } => file_rows(path, caption, width),
        Happening::SystemDecision { step, reasoning } => decision_rows(step, reasoning, width),
        Happening::ModelError { message } => marked_block("✗"@, danger(), message, width),
        Happening::UserQuestion { questions } => marked_block(
            "?"@,
            warn(),
            match questions_text(questions) {
                Some(t) => t,
                None => "(question)"@,
            },
            width,
        ),
        Happening::ApprovalRequest { .. } => Seq::empty(),
        Happening::LaneSpawned { title, .. } => marked_block(
            "→"@,
            lane(),
            "delegated: "@ + title,
            width,
        ),
        Happening::LaneCompleted { title, status, report, .. } => lane_rows(
            title,
            status,
            report,
            width,
            false,
        ),
        Happening::ToolCall { tool_name, arguments } => if hidden_tool(tool_name) {
            Seq::empty()
        } else {
            let p = call_parts(tool_name, arguments);
            call_head(p.0, p.1, width, ToolRowStatus::Done)
        },
        Happening::ToolResult { tool_name, result } => if hidden_tool(tool_name) {
            Seq::empty()
        } else {
            short_result(tool_name, result, width)
        },
        Happening::InvalidToolCall { tool_name, error } => block(
            seq![piece("✗ "@ + tool_name + ": "@ + error, colored(danger()))],
            width,
            false,
        ),
    }
}

/// What an event shows by itself.
pub fn event_lines(e: &HarnessEvent, width: usize) -> (r: Vec<Line>)
    ensures
        rows(r@) == event_rows(e@, width as nat),
{
    match e {
        HarnessEvent::UserInput { text } => user_lines(text.as_str(), width),
        HarnessEvent::Steer { text } => steer_lines(text.as_str(), width),
        HarnessEvent::AssistantText { text } => indent_block(&render_prose(text.as_str(), width)),
        HarnessEvent::Note { entry } => note_lines(entry.as_str(), width),
        HarnessEvent::FilePresented { path, caption } => match caption {
            Some(c) => present_file_lines(path.as_str(), Some(c.as_str()), width),
            None => present_file_lines(path.as_str(), None, width),
        },
        HarnessEvent::SystemDecision { step, reasoning } => decision_lines(
            step.as_str(),
            reasoning.as_str(),
            width,
        ),
        HarnessEvent::ModelError { message } => marker_block(
            "✗",
            danger(),
            message.as_str(),
            width,
        ),
        HarnessEvent::UserQuestion { questions } => {
            let text = match question_text(questions) {
                Some(t) => t,
                None => "(question)".to_string(),
            };
            marker_block("?", warn(), text.as_str(), width)
        },
        HarnessEvent::ApprovalRequest { .. } => no_lines(),
        HarnessEvent::LaneSpawned { title, .. } => {
            let text = cat2("delegated: ", title.as_str());
            marker_block("→", lane(), text.as_str(), width)
        },
        HarnessEvent::LaneCompleted { title, status, report, .. } => match report {
            Some(s) => lane_completed_lines(title.as_str(), *status, Some(s.as_str()), width, false),
            None => lane_completed_lines(title.as_str(), *status, None, width, false),
        },
        HarnessEvent::ToolCall { tool_name, arguments } => if is_hidden_tool(tool_name.as_str()) {
            no_lines()
        } else {
            tool_call_lines(tool_name.as_str(), arguments, width, false)
        },
        HarnessEvent::ToolResult { tool_name, result } => if is_hidden_tool(tool_name.as_str()) {
            no_lines()
        } else {
            tool_result_lines(tool_name.as_str(), result, width)
        },
        HarnessEvent::InvalidToolCall { tool_name, error } => {
            let text = cat4("✗ ", tool_name.as_str(), ": ", error.as_str());
            let mut items = no_spans();
            push_span(&mut items, Span { text, style: colored(danger()) });
            assert(pieces_of(items@) =~= seq![
                piece("✗ "@ + tool_name@ + ": "@ + error@, colored(danger())),
            ]);
            result_block(&items, width)
        },
    }
}

/// Something to see has happened since the user last wrote.
pub open spec fn acted(events: Seq<Happening>) -> bool
    decreases events.len(),
{
    if events.len() == 0 {
        false
    } else {
        match events.last() {
            Happening::UserInput { .. } | Happening::Steer { .. } => false,
            Happening::SystemDecision { .. } | Happening::ModelError { .. } => acted(
                events.drop_last(),
            ),
            _ => true,
        }
    }
}

pub fn turn_has_visible_action(events: &Vec<HarnessEvent>) -> (r: bool)
    ensures
        r == acted(happenings(events@)),
{
    let ghost all = happenings(events@);
    let mut i: usize = events.len();
    assert(all.take(all.len() as int) =~= all);
    while i > 0
        invariant
            all == happenings(events@),
            i <= events.len(),
            acted(all) == acted(all.take(i as int)),
        decreases i,
    {
        proof {
            assert(all.take(i as int).last() == events@[i - 1]@);
            assert(all.take(i as int).drop_last() =~= all.take(i - 1));
        }
        match &events[i - 1] {
            HarnessEvent::UserInput { .. } => {
                return false;
            },
            HarnessEvent::Steer { .. } => {
                return false;
            },
            HarnessEvent::SystemDecision { .. } => {},
            HarnessEvent::ModelError { .. } => {},
            _ => {
                return true;
            },
        }
        i -= 1;
    }
    false
}

// ---------------------------------------------------------------------------
// Rows of calls
// ---------------------------------------------------------------------------

/// How a transcript is to be shown.
pub ghost struct Scene {
    /// A turn is running.
    pub running: bool,
    /// Calls are shown at length.
    pub expanded: bool,
    pub frame: nat,
    /// The width of the content column.
    pub width: nat,
}

/// What says how to show more or less of a call.
pub open spec fn expand_hint(expanded: bool) -> Seq<char> {
    if expanded {
        "(ctrl+o to collapse)"@
    } else {
        "(ctrl+o to expand)"@
    }
}

/// The first line with a span more, after a space.
pub open spec fn first_extended(list: Seq<Seq<Piece>>, p: Piece) -> Seq<Seq<Piece>> {
    list.update(0, list[0].push(raw(" "@)).push(p))
}

/// The row of a call with what belongs to it: the hint where there is more to
/// show and room for it, the spinner while it runs, and below it what it does
/// and gave.
pub open spec fn call_rows(
    tool: Seq<char>,
    args: Value,
    result: Option<Value>,
    status: ToolRowStatus,
    scene: Scene,
) -> Seq<Seq<Piece>> {
    let p = call_parts(tool, args);
    let head = call_head(p.0, p.1, scene.width, status);
    let hint = expand_hint(scene.expanded);
    let hinted = if expandable(tool, args, result) && room(scene.width, row_width(head[0]))
        > hint.len() + 1 {
        first_extended(head, piece(hint, colored(faint()).dimmed()))
    } else {
        head
    };
    let spun = if status == ToolRowStatus::Running {
        first_extended(hinted, piece(spinner(scene.frame), colored(accent())))
    } else {
        hinted
    };
    if scene.expanded {
        spun + call_preview(tool, args, scene.width) + match result {
            Some(v) => long_result(tool, v, scene.width),
            None => Seq::empty(),
        }
    } else {
        match result {
            Some(v) => if is_error(v) {
                spun + short_result(tool, v, scene.width)
            } else {
                spun
            },
            None => spun,
        }
    }
}

proof fn lemma_head_nonempty(verb: Seq<char>, arg: Seq<char>, width: nat, status: ToolRowStatus)
    ensures
        call_head(verb, arg, width, status).len() > 0,
{
}

fn extend_first(list: &mut Vec<Line>, s: Span)
    requires
        old(list)@.len() > 0,
    ensures
        rows(final(list)@) == first_extended(rows(old(list)@), s@),
        final(list)@.len() == old(list)@.len(),
{
    let ghost before = rows(list@);
    let line = suffixed(suffixed(copy_line(&list[0]), raw_span(" ")), s);
    assert(before[0] == list@[0]@);
    list.set(0, line);
    assert(rows(list@) =~= first_extended(before, s@));
}

/// How a transcript is to be shown.
#[derive(Clone, Copy)]
pub struct Look {
    pub running: bool,
    pub expanded: bool,
    pub frame: usize,
    pub width: usize,
}

impl Look {
    pub open spec fn scene(self) -> Scene {
        Scene {
            running: self.running,
            expanded: self.expanded,
            frame: self.frame as nat,
            width: self.width as nat,
        }
    }
}

/// The row of a call with what belongs to it.
pub fn call_block(
    tool: &str,
    args: &Json,
    result: Option<&Json>,
    status: ToolRowStatus,
    view: Look,
) -> (r: Vec<Line>)
    ensures
        rows(r@) == call_rows(tool@, args@, opt_value(result), status, view.scene()),
{
    let mut out = tool_call_head_lines_status(tool, args, view.width, status);
    let ghost head = rows(out@);
    proof {
        let p = call_parts(tool@, args@);
        lemma_head_nonempty(p.0, p.1, view.width as nat, status);
        assert(head.len() == out@.len());
        assert(head[0] == out@[0]@);
    }
    let hint = if view.expanded {
        "(ctrl+o to collapse)"
    } else {
        "(ctrl+o to expand)"
    };
    if tool_is_expandable(tool, args, result) {
        let left: usize = room_beside(&out[0], view.width);
        if left > 1 && left - 1 > hint.unicode_len() {
            extend_first(&mut out, span(hint, colored(faint()).dimmed()));
        }
    }
    match status {
        ToolRowStatus::Running => {
            extend_first(&mut out, span(spinner_at(view.frame), colored(accent())));
        },
        _ => {},
    }
    let ghost spun = rows(out@);
    if view.expanded {
        append_lines(&mut out, tool_call_preview(tool, args, view.width));
        match result {
            Some(v) => {
                append_lines(&mut out, tool_result_lines_expanded(tool, v, view.width));
            },
            None => {
                assert(rows(out@) + Seq::empty() =~= rows(out@));
            },
        }
    } else {
        match result {
            Some(v) => {
                if failed(v) {
                    append_lines(&mut out, tool_result_lines(tool, v, view.width));
                }
            },
            None => {},
        }
    }
    out
}

// ---------------------------------------------------------------------------
// The transcript
// ---------------------------------------------------------------------------

/// The lines so far, whose turn it is, whether its mark is still to come, and
/// whether the last thing shown was a call.
pub ghost struct Board {
    pub lines: Seq<Seq<Piece>>,
    pub speaker: Option<bool>,
    pub pending: bool,
    pub after_tool: bool,
}

/// The turn goes to the agent or the user, with a blank line between turns.
pub open spec fn turned(b: Board, agent: bool) -> Board {
    if b.speaker == Some(agent) {
        b
    } else {
        Board {
            lines: if b.speaker is Some {
                b.lines.push(blank_row())
            } else {
                b.lines
            },
            speaker: Some(agent),
            pending: true,
            ..b
        }
    }
}

/// A blank line, where the last one is not blank.
pub open spec fn spaced(lines: Seq<Seq<Piece>>) -> Seq<Seq<Piece>> {
    if lines.len() > 0 && lines.last().len() > 0 {
        lines.push(blank_row())
    } else {
        lines
    }
}

/// Lines of whoever's turn it is.
pub open spec fn spoken(b: Board, list: Seq<Seq<Piece>>, agent: bool) -> Board {
    Board {
        lines: b.lines + tagged(list, agent, b.pending),
        pending: b.pending && list.len() == 0,
        after_tool: false,
        ..b
    }
}

/// Where a run of errors ends that goes on at `i`.
pub open spec fn errors_end(events: Seq<Happening>, i: int) -> int
    decreases events.len() - i,
{
    if 0 <= i < events.len() && events[i] is ModelError {
        errors_end(events, i + 1)
    } else {
        i
    }
}

/// A run of errors shows the last and how many there were.
pub open spec fn errors_label(last: Seq<char>, count: nat) -> Seq<char> {
    if count > 1 {
        last + "  (×"@ + decimal(count) + ")"@
    } else {
        last
    }
}

/// The result that belongs to a call at `i`: the next event, where that is a
/// result of the same tool.
pub open spec fn result_at(events: Seq<Happening>, i: int, tool: Seq<char>) -> Option<Value> {
    if i < events.len() {
        match events[i] {
            Happening::ToolResult { tool_name, result } => if tool_name == tool && !hidden_tool(
                tool_name,
            ) {
                Some(result)
            } else {
                None
            },
            _ => None,
        }
    } else {
        None
    }
}

pub open spec fn hidden_result_at(events: Seq<Happening>, i: int) -> bool {
    i < events.len() && (events[i] matches Happening::ToolResult { tool_name, .. } && hidden_tool(
        tool_name,
    ))
}

pub open spec fn row_status(result: Option<Value>, running: bool) -> ToolRowStatus {
    match result {
        Some(v) => if is_error(v) {
            ToolRowStatus::Failed
        } else {
            ToolRowStatus::Done
        },
        None => if running {
            ToolRowStatus::Running
        } else {
            ToolRowStatus::Done
        },
    }
}

/// A run of errors from `i` on.
pub open spec fn shown_errors(events: Seq<Happening>, i: int, b: Board, scene: Scene) -> (
    Board,
    int,
) {
    let end = errors_end(events, i + 1);
    let last = events[end - 1]->ModelError_message;
    let text = errors_label(last, (end - i) as nat);
    (
        spoken(turned(b, true), marked_block("✗"@, danger(), text, scene.width), true),
        end,
    )
}

/// A call with its result.
pub open spec fn shown_call(
    tool: Seq<char>,
    args: Value,
    result: Option<Value>,
    b: Board,
    scene: Scene,
) -> Board {
    let t = turned(b, true);
    let above = if b.after_tool {
        t.lines
    } else {
        spaced(t.lines)
    };
    Board {
        lines: above + call_rows(tool, args, result, row_status(result, scene.running), scene),
        after_tool: true,
        ..t
    }
}

/// The call at `i`, which belongs to a hidden tool or is shown.
pub open spec fn shown_tool(
    events: Seq<Happening>,
    i: int,
    tool: Seq<char>,
    args: Value,
    b: Board,
    scene: Scene,
) -> (Board, int) {
    if hidden_tool(tool) {
        (
            b,
            if hidden_result_at(events, i + 1) {
                i + 2
            } else {
                i + 1
            },
        )
    } else {
        let result = result_at(events, i + 1, tool);
        (
            shown_call(tool, args, result, b, scene),
            if result is Some {
                i + 2
            } else {
                i + 1
            },
        )
    }
}

/// An event that shows something by itself, or nothing.
pub open spec fn shown_plain(e: Happening, b: Board, scene: Scene) -> Board {
    let list = event_rows(e, scene.width);
    let agent = !(e is UserInput || e is Steer);
    if list.len() == 0 {
        b
    } else {
        let t = turned(b, agent);
        let above = Board {
            lines: if b.after_tool {
                spaced(t.lines)
            } else {
                t.lines
            },
            ..t
        };
        spoken(above, list, agent)
    }
}

/// What the event at `i` adds, and which event comes next.
pub open spec fn shown(events: Seq<Happening>, i: int, b: Board, scene: Scene) -> (Board, int) {
    match events[i] {
        Happening::ModelError { .. } => shown_errors(events, i, b, scene),
        Happening::ToolCall { tool_name, arguments } => shown_tool(
            events,
            i,
            tool_name,
            arguments,
            b,
            scene,
        ),
        Happening::LaneSpawned { .. } | Happening::LaneCompleted { .. } => (b, i + 1),
        _ => (shown_plain(events[i], b, scene), i + 1),
    }
}

/// What the events from `i` on add.
pub open spec fn shown_from(events: Seq<Happening>, i: int, b: Board, scene: Scene) -> Board
    decreases events.len() - i,
{
    if i < 0 || i >= events.len() {
        b
    } else {
        let (next, j) = shown(events, i, b, scene);
        if i < j <= events.len() {
            shown_from(events, j, next, scene)
        } else {
            next
        }
    }
}

/// The lines so far, as they are built.
struct Easel {
    lines: Vec<Line>,
    speaker: Option<bool>,
    pending: bool,
    after_tool: bool,
}

impl Easel {
    spec fn board(self) -> Board {
        Board {
            lines: rows(self.lines@),
            speaker: self.speaker,
            pending: self.pending,
            after_tool: self.after_tool,
        }
    }

    /// Gives the turn to the agent or the user.
    fn set_speaker(self, agent: bool) -> (r: Easel)
        ensures
            r.board() == turned(self.board(), agent),
    {
        match self.speaker {
            Some(who) => {
                if who == agent {
                    self
                } else {
                    let mut lines = self.lines;
                    push_line(&mut lines, blank_line());
                    Easel {
                        lines,
                        speaker: Some(agent),
                        pending: true,
                        after_tool: self.after_tool,
                    }
                }
            },
            None => Easel {
                lines: self.lines,
                speaker: Some(agent),
                pending: true,
                after_tool: self.after_tool,
            },
        }
    }

    /// A blank line, where the last one is not blank.
    fn space(self) -> (r: Easel)
        ensures
            r.board() == (Board { lines: spaced(self.board().lines), ..self.board() }),
    {
        let n = self.lines.len();
        assert(rows(self.lines@).len() == n);
        if n > 0 && self.lines[n - 1].spans.len() > 0 {
            assert(rows(self.lines@).last() == self.lines@[n - 1]@);
            let mut lines = self.lines;
            push_line(&mut lines, blank_line());
            Easel {
                lines,
                speaker: self.speaker,
                pending: self.pending,
                after_tool: self.after_tool,
            }
        } else {
            proof {
                if n > 0 {
                    assert(rows(self.lines@).last() == self.lines@[n - 1]@);
                }
            }
            self
        }
    }

    fn speak(self, list: &Vec<Line>, agent: bool) -> (r: Easel)
        ensures
            r.board() == spoken(self.board(), rows(list@), agent),
    {
        let mut lines = self.lines;
        assert(rows(list@).len() == list@.len());
        let pending = push_tagged(&mut lines, list, agent, self.pending);
        Easel { lines, speaker: self.speaker, pending, after_tool: false }
    }

    fn show_call(self, tool: &str, args: &Json, result: Option<&Json>, view: Look) -> (r: Easel)
        ensures
            r.board() == shown_call(tool@, args@, opt_value(result), self.board(), view.scene()),
    {
        let after_tool = self.after_tool;
        let t = self.set_speaker(true);
        let t = if after_tool {
            t
        } else {
            t.space()
        };
        let status = match result {
            Some(v) => if failed(v) {
                ToolRowStatus::Failed
            } else {
                ToolRowStatus::Done
            },
            None => if view.running {
                ToolRowStatus::Running
            } else {
                ToolRowStatus::Done
            },
        };
        let mut lines = t.lines;
        append_lines(&mut lines, call_block(tool, args, result, status, view));
        Easel { lines, speaker: t.speaker, pending: t.pending, after_tool: true }
    }
}

/// Where a run of errors ends, and its last message.
fn read_errors(events: &Vec<HarnessEvent>, i: usize, first: &str) -> (r: (usize, String))
    requires
        1 <= i <= events.len(),
        happenings(events@)[i - 1] == (Happening::ModelError { message: first@ }),
    ensures
        r.0 == errors_end(happenings(events@), i as int),
        i <= r.0 <= events.len(),
        happenings(events@)[r.0 - 1] == (Happening::ModelError { message: r.1@ }),
{
    let ghost all = happenings(events@);
    let mut last = first.to_owned();
    let mut j: usize = i;
    while j < events.len()
        invariant
            all == happenings(events@),
            1 <= i <= j <= events.len(),
            errors_end(all, i as int) == errors_end(all, j as int),
            all[j - 1] == (Happening::ModelError { message: last@ }),
        decreases events.len() - j,
    {
        assert(all[j as int] == events@[j as int]@);
        match &events[j] {
            HarnessEvent::ModelError { message } => {
                last = message.clone();
                j += 1;
            },
            _ => {
                return (j, last);
            },
        }
    }
    (j, last)
}

/// A run of errors from `i` on.
fn show_errors(
    easel: Easel,
    events: &Vec<HarnessEvent>,
    i: usize,
    message: &str,
    view: Look,
) -> (r: (Easel, usize))
    requires
        i < events.len(),
        happenings(events@)[i as int] == (Happening::ModelError { message: message@ }),
    ensures
        shown_errors(happenings(events@), i as int, easel.board(), view.scene()) == (
            r.0.board(),
            r.1 as int,
        ),
        i < r.1 <= events.len(),
{
    let (end, last) = read_errors(events, i + 1, message);
    let count: usize = end - i;
    let text = if count > 1 {
        let d = decimal_string(count as u64);
        cat4(last.as_str(), "  (×", d.as_str(), ")")
    } else {
        last
    };
    let block = marker_block("✗", danger(), text.as_str(), view.width);
    (easel.set_speaker(true).speak(&block, true), end)
}

/// The result that belongs to a call, where the next event is one.
fn find_result<'a>(events: &'a Vec<HarnessEvent>, i: usize, tool: &str) -> (r: Option<&'a Json>)
    requires
        i <= events.len(),
    ensures
        opt_value(r) == result_at(happenings(events@), i as int, tool@),
        r is Some ==> i < events.len(),
{
    if i >= events.len() {
        return None;
    }
    assert(happenings(events@)[i as int] == events@[i as int]@);
    match &events[i] {
        HarnessEvent::ToolResult { tool_name, result } => if same(tool_name.as_str(), tool)
            && !is_hidden_tool(tool_name.as_str()) {
            Some(result)
        } else {
            None
        },
        _ => None,
    }
}

fn is_hidden_result(events: &Vec<HarnessEvent>, i: usize) -> (r: bool)
    ensures
        r == hidden_result_at(happenings(events@), i as int),
        r ==> i < events.len(),
{
    if i >= events.len() {
        return false;
    }
    assert(happenings(events@)[i as int] == events@[i as int]@);
    match &events[i] {
        HarnessEvent::ToolResult { tool_name, .. } => is_hidden_tool(tool_name.as_str()),
        _ => false,
    }
}

fn show_tool(
    easel: Easel,
    events: &Vec<HarnessEvent>,
    i: usize,
    tool: &str,
    args: &Json,
    view: Look,
) -> (r: (Easel, usize))
    requires
        i < events.len(),
    ensures
        shown_tool(happenings(events@), i as int, tool@, args@, easel.board(), view.scene()) == (
            r.0.board(),
            r.1 as int,
        ),
        i < r.1 <= events.len(),
{
    if is_hidden_tool(tool) {
        let next: usize = if is_hidden_result(events, i + 1) {
            i + 2
        } else {
            i + 1
        };
        return (easel, next);
    }
    let result = find_result(events, i + 1, tool);
    let next: usize = if result.is_some() {
        i + 2
    } else {
        i + 1
    };
    (easel.show_call(tool, args, result, view), next)
}

fn show_plain(easel: Easel, e: &HarnessEvent, view: Look) -> (r: Easel)
    ensures
        r.board() == shown_plain(e@, easel.board(), view.scene()),
{
    let list = event_lines(e, view.width);
    assert(rows(list@).len() == list@.len());
    if list.len() == 0 {
        return easel;
    }
    let agent = match e {
        HarnessEvent::UserInput { .. } => false,
        HarnessEvent::Steer { .. } => false,
        _ => true,
    };
    let after_tool = easel.after_tool;
    let t = easel.set_speaker(agent);
    let t = if after_tool {
        t.space()
    } else {
        t
    };
    t.speak(&list, agent)
}

/// What the event at `i` adds, and which event comes next.
fn show_event(easel: Easel, events: &Vec<HarnessEvent>, i: usize, view: Look) -> (r: (Easel, usize))
    requires
        i < events.len(),
    ensures
        shown(happenings(events@), i as int, easel.board(), view.scene()) == (
            r.0.board(),
            r.1 as int,
        ),
        i < r.1 <= events.len(),
{
    assert(happenings(events@)[i as int] == events@[i as int]@);
    match &events[i] {
        HarnessEvent::ModelError { message } => show_errors(
            easel,
            events,
            i,
            message.as_str(),
            view,
        ),
        HarnessEvent::ToolCall { tool_name, arguments } => show_tool(
            easel,
            events,
            i,
            tool_name.as_str(),
            arguments,
            view,
        ),
        HarnessEvent::LaneSpawned { .. } => (easel, i + 1),
        HarnessEvent::LaneCompleted { .. } => (easel, i + 1),
        _ => (show_plain(easel, &events[i], view), i + 1),
    }
}

/// Where the transcript begins: at the last point at which history was
/// compacted. What is above it is not shown.
pub open spec fn compact_start(events: Seq<Happening>) -> int
    decreases events.len(),
{
    if events.len() == 0 {
        0
    } else if is_step(events.last(), "history_compacted"@) {
        events.len() - 1
    } else {
        compact_start(events.drop_last())
    }
}

fn find_compact_start(events: &Vec<HarnessEvent>) -> (r: usize)
    ensures
        r == compact_start(happenings(events@)),
        r <= events.len(),
{
    let ghost all = happenings(events@);
    let mut i: usize = events.len();
    assert(all.take(all.len() as int) =~= all);
    while i > 0
        invariant
            all == happenings(events@),
            i <= events.len(),
            compact_start(all) == compact_start(all.take(i as int)),
        decreases i,
    {
        proof {
            assert(all.take(i as int).last() == events@[i - 1]@);
            assert(all.take(i as int).drop_last() =~= all.take(i - 1));
        }
        if decides(&events[i - 1], "history_compacted") {
            return i - 1;
        }
        i -= 1;
    }
    0
}

/// The user wrote something.
pub open spec fn user_wrote(events: Seq<Happening>) -> bool {
    exists|i: int| 0 <= i < events.len() && #[trigger] events[i] is UserInput
}

fn has_user_input(events: &Vec<HarnessEvent>) -> (r: bool)
    ensures
        r == user_wrote(happenings(events@)),
{
    let ghost all = happenings(events@);
    for i in 0..events.len()
        invariant
            all == happenings(events@),
            forall|k: int| 0 <= k < i ==> !(#[trigger] all[k] is UserInput),
    {
        assert(all[i as int] == events@[i as int]@);
        match &events[i] {
            HarnessEvent::UserInput { .. } => {
                return true;
            },
            _ => {},
        }
    }
    false
}

/// The board before any event: the first request, where no event holds it.
pub open spec fn opening(c: Conversation, width: nat) -> Board {
    let none = Board { lines: Seq::empty(), speaker: None, pending: false, after_tool: false };
    match c.initial_request {
        Some(text) => if user_wrote(c.events) || blank(text) {
            none
        } else {
            spoken(
                Board { speaker: Some(false), pending: true, ..none },
                user_rows(text, width),
                false,
            )
        },
        None => none,
    }
}

/// What goes on at the moment.
pub ghost struct Present {
    /// The agent's loop is there.
    pub alive: bool,
    /// History is being compacted, which is shown elsewhere.
    pub compacting: bool,
    /// What the model is thinking.
    pub thinking: Seq<char>,
    /// What the model is saying.
    pub live: Seq<char>,
}

/// A block below the lines, after a blank line.
pub open spec fn below(lines: Seq<Seq<Piece>>, more: Seq<Seq<Piece>>) -> Seq<Seq<Piece>> {
    if lines.len() > 0 {
        lines.push(blank_row()) + more
    } else {
        lines + more
    }
}

/// The lines with what goes on below them: thoughts until anything is done, what
/// is being said, and that there is work going on.
pub open spec fn with_present(
    lines: Seq<Seq<Piece>>,
    c: Conversation,
    now: Present,
    frame: nat,
    content: nat,
    width: nat,
) -> Seq<Seq<Piece>> {
    if !working(c) || !now.alive {
        lines
    } else {
        let thinking = trimmed_end(now.thinking);
        let live = trimmed_end(now.live);
        let a = if thinking.len() > 0 && !acted(c.events) {
            below(lines, thought_rows(thinking, content))
        } else {
            lines
        };
        let b = if live.len() > 0 {
            below(a, indented(prose(live, width)))
        } else {
            a
        };
        if now.compacting {
            b
        } else {
            below(
                b,
                seq![
                    seq![
                        piece(spinner(frame) + " "@, colored(accent()).bolded()),
                        piece("working…"@, subtle()),
                    ],
                ],
            )
        }
    }
}

/// The width of the content column.
pub open spec fn content_width(width: nat) -> nat {
    larger(room(width, TAG_W as nat), 20)
}

/// The transcript of a conversation.
pub open spec fn transcript(
    c: Conversation,
    now: Present,
    expanded: bool,
    frame: nat,
    width: nat,
) -> Seq<Seq<Piece>> {
    let content = content_width(width);
    let scene = Scene {
        running: c.status == HarnessStatus::Running,
        expanded,
        frame,
        width: content,
    };
    let b = shown_from(c.events, compact_start(c.events), opening(c, content), scene);
    with_present(b.lines, c, now, frame, content, width)
}

/// What goes on at the moment.
pub struct Activity {
    pub alive: bool,
    pub compacting: bool,
    pub thinking: String,
    pub live: String,
}

impl Activity {
    pub open spec fn present(self) -> Present {
        Present {
            alive: self.alive,
            compacting: self.compacting,
            thinking: self.thinking@,
            live: self.live@,
        }
    }
}

fn open_board(state: &HarnessState, width: usize) -> (r: Easel)
    ensures
        r.board() == opening(state@, width as nat),
{
    let none = Easel { lines: no_lines(), speaker: None, pending: false, after_tool: false };
    if has_user_input(&state.events) {
        return none;
    }
    match &state.initial_request {
        Some(text) => {
            if is_blank(text.as_str()) {
                return none;
            }
            let first = Easel {
                lines: no_lines(),
                speaker: Some(false),
                pending: true,
                after_tool: false,
            };
            first.speak(&user_lines(text.as_str(), width), false)
        },
        None => none,
    }
}

fn put_below(lines: &mut Vec<Line>, more: Vec<Line>)
    ensures
        rows(final(lines)@) == below(rows(old(lines)@), rows(more@)),
{
    assert(rows(lines@).len() == lines@.len());
    if lines.len() > 0 {
        push_line(lines, blank_line());
    }
    append_lines(lines, more);
}

fn show_present(
    lines: Vec<Line>,
    state: &HarnessState,
    now: &Activity,
    frame: usize,
    content: usize,
    width: usize,
) -> (r: Vec<Line>)
    ensures
        rows(r@) == with_present(
            rows(lines@),
            state@,
            now.present(),
            frame as nat,
            content as nat,
            width as nat,
        ),
{
    let mut out = lines;
    if !is_working(state) || !now.alive {
        return out;
    }
    let thinking = trim_end(now.thinking.as_str());
    if !thinking.as_str().is_empty() && !turn_has_visible_action(&state.events) {
        put_below(&mut out, thinking_lines(thinking.as_str(), content));
    }
    let live = trim_end(now.live.as_str());
    if !live.as_str().is_empty() {
        put_below(&mut out, indent_block(&render_prose(live.as_str(), width)));
    }
    if !now.compacting {
        let lead = cat2(spinner_at(frame), " ");
        let mut more = no_lines();
        push_line(
            &mut more,
            line2(
                Span { text: lead, style: colored(accent()).bolded() },
                span("working…", subtle()),
            ),
        );
        assert(rows(more@) =~= seq![
            seq![
                piece(spinner(frame as nat) + " "@, colored(accent()).bolded()),
                piece("working…"@, subtle()),
            ],
        ]);
        put_below(&mut out, more);
    }
    out
}

/// The transcript of a conversation.
pub fn transcript_lines(
    state: &HarnessState,
    now: &Activity,
    expanded: bool,
    frame: usize,
    width: usize,
) -> (r: Vec<Line>)
    ensures
        rows(r@) == transcript(state@, now.present(), expanded, frame as nat, width as nat),
{
    let w = less(width, TAG_W);
    let content: usize = if w >= 20 {
        w
    } else {
        20
    };
    let view = Look {
        running: state.status == HarnessStatus::Running,
        expanded,
        frame,
        width: content,
    };
    let ghost all = happenings(state.events@);
    let mut easel = open_board(state, content);
    let mut i = find_compact_start(&state.events);
    let ghost goal = shown_from(all, i as int, easel.board(), view.scene());
    while i < state.events.len()
        invariant
            all == happenings(state.events@),
            i <= state.events.len(),
            goal == shown_from(all, i as int, easel.board(), view.scene()),
        decreases state.events.len() - i,
    {
        let (next, j) = show_event(easel, &state.events, i, view);
        easel = next;
        i = j;
    }
    show_present(easel.lines, state, now, frame, content, width)
}

// ---------------------------------------------------------------------------
// What a transcript guarantees
// ---------------------------------------------------------------------------

/// The tools that have rows of their own kind leave none as calls or results, and
/// lanes leave none in the transcript.
pub proof fn meta_tools_leave_no_row(events: Seq<Happening>, i: int, b: Board, scene: Scene)
    requires
        0 <= i < events.len(),
        match events[i] {
            Happening::ToolCall { tool_name, .. } => hidden_tool(tool_name),
            Happening::ToolResult { tool_name, .. } => hidden_tool(tool_name),
            Happening::LaneSpawned { .. } | Happening::LaneCompleted { .. } => true,
            _ => false,
        },
    ensures
        shown(events, i, b, scene).0 == b,
{
}

/// Once anything was done in a turn, what the model thinks is not shown.
pub proof fn thoughts_give_way_to_actions(
    c: Conversation,
    now: Present,
    thinking: Seq<char>,
    expanded: bool,
    frame: nat,
    width: nat,
)
    requires
        acted(c.events),
    ensures
        transcript(c, now, expanded, frame, width) == transcript(
            c,
            Present { thinking, ..now },
            expanded,
            frame,
            width,
        ),
{
}

/// What the model is saying and thinking is shown only while the loop works on a
/// turn.
pub proof fn only_a_working_loop_speaks(
    c: Conversation,
    now: Present,
    other: Present,
    expanded: bool,
    frame: nat,
    width: nat,
)
    requires
        !working(c) || !now.alive,
        !working(c) || !other.alive,
    ensures
        transcript(c, now, expanded, frame, width) == transcript(c, other, expanded, frame, width),
{
}

proof fn lemma_errors_end_behind(p: Seq<Happening>, t: Seq<Happening>, i: int)
    requires
        0 <= i,
    ensures
        errors_end(p + t, p.len() + i) == p.len() + errors_end(t, i),
        errors_end(t, i) >= i,
    decreases t.len() - i,
{
    if i < t.len() {
        assert((p + t)[p.len() + i] == t[i]);
        if t[i] is ModelError {
            lemma_errors_end_behind(p, t, i + 1);
        }
    }
}

proof fn lemma_shown_behind(p: Seq<Happening>, t: Seq<Happening>, i: int, b: Board, scene: Scene)
    requires
        0 <= i < t.len(),
    ensures
        shown(p + t, p.len() + i, b, scene).0 == shown(t, i, b, scene).0,
        shown(p + t, p.len() + i, b, scene).1 == p.len() + shown(t, i, b, scene).1,
{
    let all = p + t;
    assert(all[p.len() + i] == t[i]);
    if t[i] is ModelError {
        lemma_errors_end_behind(p, t, i + 1);
        let end = errors_end(t, i + 1);
        lemma_errors_end_inside(t, i + 1);
        assert(all[p.len() + end - 1] == t[end - 1]);
    } else if i + 1 < t.len() {
        assert(all[p.len() + i + 1] == t[i + 1]);
    }
}

proof fn lemma_errors_end_inside(t: Seq<Happening>, i: int)
    requires
        0 <= i <= t.len(),
    ensures
        i <= errors_end(t, i) <= t.len(),
    decreases t.len() - i,
{
    if i < t.len() && t[i] is ModelError {
        lemma_errors_end_inside(t, i + 1);
    }
}

proof fn lemma_shown_from_behind(
    p: Seq<Happening>,
    t: Seq<Happening>,
    i: int,
    b: Board,
    scene: Scene,
)
    requires
        0 <= i,
    ensures
        shown_from(p + t, p.len() + i, b, scene) == shown_from(t, i, b, scene),
    decreases t.len() - i,
{
    if i < t.len() {
        lemma_shown_behind(p, t, i, b, scene);
        let (next, j) = shown(t, i, b, scene);
        if i < j <= t.len() {
            lemma_shown_from_behind(p, t, j, next, scene);
        }
    }
}

proof fn lemma_compact_start_behind(p: Seq<Happening>, t: Seq<Happening>)
    requires
        t.len() > 0,
        is_step(t[0], "history_compacted"@),
    ensures
        compact_start(p + t) == p.len() + compact_start(t),
        compact_start(t) >= 0,
    decreases t.len(),
{
    assert((p + t).last() == t.last());
    if !is_step(t.last(), "history_compacted"@) {
        assert((p + t).drop_last() =~= p + t.drop_last());
        lemma_compact_start_behind(p, t.drop_last());
    }
}

/// Of the events before a compaction the transcript shows nothing. It depends on
/// them in two ways only: a first request is shown until the user wrote, and what
/// a working loop thinks is shown until anything was done since.
pub proof fn what_was_compacted_away_is_not_shown(
    c: Conversation,
    before: Seq<Happening>,
    other: Seq<Happening>,
    rest: Seq<Happening>,
    now: Present,
    expanded: bool,
    frame: nat,
    width: nat,
)
    requires
        rest.len() > 0,
        is_step(rest[0], "history_compacted"@),
        c.initial_request matches Some(text) ==> blank(text) || user_wrote(before + rest)
            == user_wrote(other + rest),
        working(c) && now.alive && trimmed_end(now.thinking).len() > 0 ==> acted(before + rest)
            == acted(other + rest),
    ensures
        transcript(Conversation { events: before + rest, ..c }, now, expanded, frame, width)
            == transcript(Conversation { events: other + rest, ..c }, now, expanded, frame, width),
{
    let a = Conversation { events: before + rest, ..c };
    let content = content_width(width);
    let scene = Scene {
        running: c.status == HarnessStatus::Running,
        expanded,
        frame,
        width: content,
    };
    let first = opening(a, content);
    let start = compact_start(rest);
    lemma_compact_start_behind(before, rest);
    lemma_compact_start_behind(other, rest);
    lemma_shown_from_behind(before, rest, start, first, scene);
    lemma_shown_from_behind(other, rest, start, first, scene);
    let b = Conversation { events: other + rest, ..c };
    assert(opening(b, content) == first);
}

// ---------------------------------------------------------------------------
// The welcome
// ---------------------------------------------------------------------------

/// A line centered by the number of its characters.
pub open spec fn welcome_row(s: Seq<char>, style: Style, width: nat) -> Seq<Piece> {
    seq![raw(spaces(room(width, s.len()) / 2)), piece(s, style)]
}

fn welcome_line(s: &str, style: Style, width: usize) -> (r: Line)
    ensures
        r@ == welcome_row(s@, style, width as nat),
{
    let pad: usize = less(width, s.unicode_len()) / 2;
    line2(spaces_span(pad), span(s, style))
}

#[verifier::allow_in_spec]
pub fn welcome_title() -> Style
    returns
        colored(Color::Rgb(165, 180, 252)).bolded(),
{
    colored(Color::Rgb(165, 180, 252)).bolded()
}

#[verifier::allow_in_spec]
pub fn welcome_dim() -> Style
    returns
        colored(Color::Rgb(71, 85, 105)),
{
    colored(Color::Rgb(71, 85, 105))
}

#[verifier::allow_in_spec]
pub fn welcome_green() -> Style
    returns
        colored(Color::Rgb(74, 222, 128)),
{
    colored(Color::Rgb(74, 222, 128))
}

#[verifier::allow_in_spec]
pub fn welcome_cyan() -> Style
    returns
        colored(Color::Rgb(125, 207, 245)),
{
    colored(Color::Rgb(125, 207, 245))
}

#[verifier::allow_in_spec]
pub fn welcome_purple() -> Style
    returns
        colored(Color::Rgb(189, 147, 249)),
{
    colored(Color::Rgb(189, 147, 249))
}

/// The pets at the top of the welcome, line by line; an empty line is blank.
pub open spec fn welcome_pets() -> Seq<(Seq<char>, Style)> {
    let none = (""@, welcome_dim());
    seq![
        none,
        ("t                                          T"@, welcome_dim()),
        ("G                                           "@, welcome_dim()),
        none,
        ("          /\\___/\\       /\\___/\\          "@, welcome_purple()),
        ("         (  o.o  )     (  o.o  )  ~♥     "@, welcome_green()),
        ("          >  ^  <       >  ^  <          "@, welcome_cyan()),
    ]
}

/// The basket that they sit in.
pub open spec fn welcome_basket() -> Seq<(Seq<char>, Style)> {
    seq![
        ("      . - ~ ~ ~ ~ ~ ~ ~ ~ ~ ~ ~ - .      "@, welcome_green()),
        ("    /   .-----------------------.   \\    "@, welcome_green()),
        ("   /   /    (◕ ◡ ◕)   SNIPPET    \\   \\   "@, welcome_cyan().bolded()),
        ("  |   |     \\  ♥  /   MATRIX PET  |   |  "@, welcome_purple()),
        ("   \\   \\     `---'               /   /   "@, welcome_green()),
        ("     ~ - . _ . _ . _ . _ . _ . - ~       "@, welcome_green()),
    ]
}

/// The name below them.
pub open spec fn welcome_name() -> Seq<(Seq<char>, Style)> {
    let none = (""@, welcome_dim());
    seq![
        none,
        ("███████ ███    ██ ███████ ███████ ██████  ███████ ████████"@, welcome_title()),
        ("██      ████   ██    ███  ██      ██   ██ ██         ██   "@, welcome_title()),
        ("███████ ██ ██  ██   ███   █████   ██████  █████      ██   "@, welcome_title()),
        ("     ██ ██  ██ ██  ███    ██      ██      ██         ██   "@, welcome_title()),
        ("███████ ██   ████ ███████ ███████ ██      ███████    ██   "@, welcome_title()),
        none,
        ("g                                          g"@, welcome_dim()),
        ("   t                                        "@, welcome_dim()),
    ]
}

/// Lines of the welcome as they are shown.
pub open spec fn welcome_part(list: Seq<(Seq<char>, Style)>, width: nat) -> Seq<Seq<Piece>> {
    list.map_values(
        |l: (Seq<char>, Style)|
            if l.0 == ""@ {
                blank_row()
            } else {
                welcome_row(l.0, l.1, width)
            },
    )
}

/// The welcome on a screen that is at least fifty columns wide.
pub open spec fn welcome_rows(width: nat) -> Seq<Seq<Piece>> {
    let w = larger(width, 50);
    welcome_part(welcome_pets(), w) + welcome_part(welcome_basket(), w) + welcome_part(
        welcome_name(),
        w,
    )
}

fn push_welcome(lines: &mut Vec<Line>, s: &str, style: Style, width: usize)
    ensures
        rows(final(lines)@) == rows(old(lines)@).push(
            if s@ == ""@ {
                blank_row()
            } else {
                welcome_row(s@, style, width as nat)
            },
        ),
{
    if same(s, "") {
        push_line(lines, blank_line());
    } else {
        push_line(lines, welcome_line(s, style, width));
    }
}

fn pet_lines(w: usize) -> (r: Vec<Line>)
    ensures
        rows(r@) == welcome_part(welcome_pets(), w as nat),
{
    let mut out = no_lines();
    push_welcome(&mut out, "", welcome_dim(), w);
    push_welcome(&mut out, "t                                          T", welcome_dim(), w);
    push_welcome(&mut out, "G                                           ", welcome_dim(), w);
    push_welcome(&mut out, "", welcome_dim(), w);
    push_welcome(&mut out, "          /\\___/\\       /\\___/\\          ", welcome_purple(), w);
    push_welcome(&mut out, "         (  o.o  )     (  o.o  )  ~♥     ", welcome_green(), w);
    push_welcome(&mut out, "          >  ^  <       >  ^  <          ", welcome_cyan(), w);
    assert(rows(out@) =~= welcome_part(welcome_pets(), w as nat));
    out
}

fn basket_lines(w: usize) -> (r: Vec<Line>)
    ensures
        rows(r@) == welcome_part(welcome_basket(), w as nat),
{
    let mut out = no_lines();
    push_welcome(&mut out, "      . - ~ ~ ~ ~ ~ ~ ~ ~ ~ ~ ~ - .      ", welcome_green(), w);
    push_welcome(&mut out, "    /   .-----------------------.   \\    ", welcome_green(), w);
    push_welcome(
        &mut out,
        "   /   /    (◕ ◡ ◕)   SNIPPET    \\   \\   ",
        welcome_cyan().bolded(),
        w,
    );
    push_welcome(&mut out, "  |   |     \\  ♥  /   MATRIX PET  |   |  ", welcome_purple(), w);
    push_welcome(&mut out, "   \\   \\     `---'               /   /   ", welcome_green(), w);
    push_welcome(&mut out, "     ~ - . _ . _ . _ . _ . _ . - ~       ", welcome_green(), w);
    assert(rows(out@) =~= welcome_part(welcome_basket(), w as nat));
    out
}

fn name_lines(w: usize) -> (r: Vec<Line>)
    ensures
        rows(r@) == welcome_part(welcome_name(), w as nat),
{
    let mut out = no_lines();
    push_welcome(&mut out, "", welcome_dim(), w);
    push_welcome(
        &mut out,
        "███████ ███    ██ ███████ ███████ ██████  ███████ ████████",
        welcome_title(),
        w,
    );
    push_welcome(
        &mut out,
        "██      ████   ██    ███  ██      ██   ██ ██         ██   ",
        welcome_title(),
        w,
    );
    push_welcome(
        &mut out,
        "███████ ██ ██  ██   ███   █████   ██████  █████      ██   ",
        welcome_title(),
        w,
    );
    push_welcome(
        &mut out,
        "     ██ ██  ██ ██  ███    ██      ██      ██         ██   ",
        welcome_title(),
        w,
    );
    push_welcome(
        &mut out,
        "███████ ██   ████ ███████ ███████ ██      ███████    ██   ",
        welcome_title(),
        w,
    );
    push_welcome(&mut out, "", welcome_dim(), w);
    push_welcome(&mut out, "g                                          g", welcome_dim(), w);
    push_welcome(&mut out, "   t                                        ", welcome_dim(), w);
    assert(rows(out@) =~= welcome_part(welcome_name(), w as nat));
    out
}

/// What an empty conversation shows.
pub fn empty_state_lines(_cwd: &str, _model: &str, width: usize) -> (r: Vec<Line>)
    ensures
        rows(r@) == welcome_rows(width as nat),
{
    let w: usize = if width >= 50 {
        width
    } else {
        50
    };
    let mut out = pet_lines(w);
    append_lines(&mut out, basket_lines(w));
    append_lines(&mut out, name_lines(w));
    out
}

} // verus!
