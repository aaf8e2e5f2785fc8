//! The bars around the transcript: the header, what waits for approval, the
//! progress of a compaction, what is said, and the footer.
use crate::asking::told;
use crate::blocks::less;
use crate::events::{Conversation, GoalStatus, HarnessState, Lane, LaneRecord, LaneStatus, lanes_of};
use crate::figures::{fmt_si, rate_window_label, si, window_label};
use crate::style::{
    Line, Piece, Span, append_spans, blank_line, blank_row, colored, line1, line2, line_of,
    no_lines, no_spans, piece, pieces_of, push_line, push_span, raw, raw_span, room, rows, span,
};
use crate::text::{
    blank, cat2, cat3, cat4, decimal, decimal_string, is_blank, join, joined, no_texts, opt_str,
    push_text, repeat_char, repeated, same, texts,
};
use crate::theme::{accent, danger, faint, ink, lane, muted, subtle, success, warn};
use vstd::prelude::*;
use vstd::utf8::*;

verus! {

// ---------------------------------------------------------------------------
// Approval
// ---------------------------------------------------------------------------

/// A panel: its title and its lines.
pub struct Panel {
    pub title: Span,
    pub body: Vec<Line>,
}

pub open spec fn approval_title(tool: Seq<char>, index: nat, total: nat) -> Seq<char> {
    if total > 1 {
        " approve · "@ + tool + "   "@ + decimal(index) + "/"@ + decimal(total) + " "@
    } else {
        " approve · "@ + tool + " "@
    }
}

/// What is to be approved.
pub open spec fn approval_subject(tool: Seq<char>, summary: Seq<char>) -> Seq<char> {
    "  "@ + (if tool == "bash"@ {
        "$ "@
    } else {
        ""@
    }) + (if blank(summary) {
        "(no preview)"@
    } else {
        summary
    })
}

/// The keys. All can be approved where there are several.
pub open spec fn approval_actions(total: nat) -> Seq<Piece> {
    seq![
        piece("  ✓ y "@, colored(success()).bolded()),
        piece("approve   "@, subtle()),
    ] + (if total > 1 {
        seq![
            piece("⏩ a "@, colored(accent()).bolded()),
            piece("approve all   "@, subtle()),
        ]
    } else {
        Seq::empty()
    }) + seq![
        piece("✗ n "@, colored(danger()).bolded()),
        piece("deny   "@, subtle()),
        piece("esc "@, colored(muted()).bolded()),
        piece("stop"@, subtle()),
    ]
}

fn title_approval(tool: &str, index: usize, total: usize) -> (r: String)
    ensures
        r@ == approval_title(tool@, index as nat, total as nat),
{
    if total > 1 {
        let i = decimal_string(index as u64);
        let n = decimal_string(total as u64);
        let left = cat4(" approve · ", tool, "   ", i.as_str());
        let r = cat4(left.as_str(), "/", n.as_str(), " ");
        assert(r@ =~= approval_title(tool@, index as nat, total as nat));
        r
    } else {
        cat3(" approve · ", tool, " ")
    }
}

/// The panel in which a call is approved.
pub fn approval_panel(tool: &str, summary: &str, index: usize, total: usize) -> (r: Panel)
    ensures
        r.title@ == piece(
            approval_title(tool@, index as nat, total as nat),
            colored(warn()).bolded(),
        ),
        rows(r.body@) == seq![
            seq![piece(approval_subject(tool@, summary@), colored(ink()))],
            blank_row(),
            approval_actions(total as nat),
        ],
{
    let title = title_approval(tool, index, total);
    let prefix = if same(tool, "bash") {
        "$ "
    } else {
        ""
    };
    let what = if is_blank(summary) {
        "(no preview)"
    } else {
        summary
    };
    let subject = cat3("  ", prefix, what);
    let mut actions = no_spans();
    push_span(&mut actions, span("  ✓ y ", colored(success()).bolded()));
    push_span(&mut actions, span("approve   ", subtle()));
    if total > 1 {
        push_span(&mut actions, span("⏩ a ", colored(accent()).bolded()));
        push_span(&mut actions, span("approve all   ", subtle()));
    }
    push_span(&mut actions, span("✗ n ", colored(danger()).bolded()));
    push_span(&mut actions, span("deny   ", subtle()));
    push_span(&mut actions, span("esc ", colored(muted()).bolded()));
    push_span(&mut actions, span("stop", subtle()));
    let actions = line_of(actions);
    assert(actions@ =~= approval_actions(total as nat));
    let mut body = no_lines();
    push_line(&mut body, line1(Span { text: subject, style: colored(ink()) }));
    push_line(&mut body, blank_line());
    push_line(&mut body, actions);
    assert(rows(body@) =~= seq![
        seq![piece(approval_subject(tool@, summary@), colored(ink()))],
        blank_row(),
        approval_actions(total as nat),
    ]);
    Panel { title: Span { text: title, style: colored(warn()).bolded() }, body }
}

// ---------------------------------------------------------------------------
// Compaction
// ---------------------------------------------------------------------------

pub const BARS: [&'static str; 8] = [" ", "▁", "▂", "▃", "▄", "▅", "▆", "▇"];

/// The height of a bar: it rises and falls, each bar ahead of the one before.
pub open spec fn bar_height(frame: nat, i: nat) -> nat {
    let phase = (frame / 2 + i * 2) % 14;
    if phase < 7 {
        phase
    } else {
        (14 - phase) as nat
    }
}

pub open spec fn compaction_row(frame: nat) -> Seq<Piece> {
    seq![piece(" ✦ compacting context  "@, colored(accent()).bolded())] + Seq::new(
        16,
        |i: int| piece(BARS@[bar_height(frame, i as nat) as int]@, colored(accent())),
    )
}

/// The progress of a compaction.
pub fn compaction_bar(frame: usize) -> (r: Line)
    ensures
        r@ == compaction_row(frame as nat),
{
    let ghost goal = compaction_row(frame as nat);
    let mut spans = no_spans();
    push_span(&mut spans, span(" ✦ compacting context  ", colored(accent()).bolded()));
    for i in 0..16
        invariant
            goal == compaction_row(frame as nat),
            pieces_of(spans@) == goal.take(i + 1),
    {
        let phase: usize = (frame / 2 + i * 2) % 14;
        let h: usize = if phase < 7 {
            phase
        } else {
            14 - phase
        };
        proof {
            assert(h == bar_height(frame as nat, i as nat));
            assert(goal.take(i + 2) =~= goal.take(i + 1).push(goal[i + 1]));
        }
        push_span(&mut spans, span(BARS[h], colored(accent())));
    }
    assert(goal.take(17) =~= goal);
    line_of(spans)
}

// ---------------------------------------------------------------------------
// What is said
// ---------------------------------------------------------------------------

/// What is said, or the error that is shown in place of it.
pub open spec fn message_row(status: Seq<char>, error: Option<Seq<char>>) -> Seq<Piece> {
    match error {
        Some(e) => seq![
            piece("error: "@, colored(danger()).bolded()),
            piece(e, colored(danger())),
        ],
        None => seq![piece(status, subtle())],
    }
}

/// What is said, or the error that is shown in place of it.
pub fn status_message_line(status: &str, error: Option<&str>) -> (r: Line)
    ensures
        r@ == message_row(status@, opt_str(error)),
{
    match error {
        Some(e) => line2(
            span("error: ", colored(danger()).bolded()),
            span(e, colored(danger())),
        ),
        None => line1(span(status, subtle())),
    }
}

// ---------------------------------------------------------------------------
// Header
// ---------------------------------------------------------------------------

pub open spec fn goal_badge(goal: Option<GoalStatus>) -> Option<Seq<char>> {
    match goal {
        Some(GoalStatus::Active) => Some("◇ goal"@),
        Some(GoalStatus::Paused) => Some("◇ goal · paused"@),
        _ => None,
    }
}

pub open spec fn update_note(version: Seq<char>) -> Seq<char> {
    "⬆ updated to v"@ + version + " — restart to apply"@
}

/// What the rule in the header leaves free: the name, the model, the goal, the
/// update, and what is between them.
pub open spec fn header_taken(
    model: Seq<char>,
    goal: Option<GoalStatus>,
    update: Option<Seq<char>>,
) -> nat {
    " snipett"@.len() + 3 + model.len() + 1 + (match goal_badge(goal) {
        Some(l) => l.len() + 3,
        None => 0,
    }) + 1 + (match update {
        Some(v) => update_note(v).len() + 1,
        None => 0,
    })
}

/// The header.
pub open spec fn header_row(
    model: Seq<char>,
    goal: Option<GoalStatus>,
    update: Option<Seq<char>>,
    width: nat,
) -> Seq<Piece> {
    let rule = room(width, header_taken(model, goal, update));
    seq![
        piece(" snipett"@, colored(accent()).bolded()),
        piece(" · "@, colored(muted())),
        piece(model, colored(muted())),
        raw(" "@),
    ] + (match goal_badge(goal) {
        Some(l) => seq![
            piece("· "@, colored(muted())),
            piece(l + " "@, colored(accent()).bolded()),
        ],
        None => Seq::empty(),
    }) + (if rule > 0 {
        seq![piece(repeated('─', rule), colored(faint()))]
    } else {
        Seq::empty()
    }) + (match update {
        Some(v) => seq![raw(" "@), piece(update_note(v), colored(accent()))],
        None => Seq::empty(),
    })
}

fn badge_of(goal: Option<GoalStatus>) -> (r: Option<&'static str>)
    ensures
        goal_badge(goal) == match r {
            Some(s) => Some(s@),
            None => None,
        },
{
    match goal {
        Some(GoalStatus::Active) => Some("◇ goal"),
        Some(GoalStatus::Paused) => Some("◇ goal · paused"),
        _ => None,
    }
}

/// The header: the name, the model that is used, a goal that is pursued, and an
/// update that takes effect with the next start.
pub fn header_line(
    model: &str,
    goal: Option<GoalStatus>,
    update: Option<&str>,
    width: usize,
) -> (r: Line)
    ensures
        r@ == header_row(model@, goal, opt_str(update), width as nat),
{
    let ghost goal_row = header_row(model@, goal, opt_str(update), width as nat);
    let badge = badge_of(goal);
    let notice = match update {
        Some(v) => Some(cat3("⬆ updated to v", v, " — restart to apply")),
        None => None,
    };
    let mut rule = less(width, 5);
    rule = less(rule, " snipett".unicode_len());
    rule = less(rule, model.unicode_len());
    let mut spans = no_spans();
    push_span(&mut spans, span(" snipett", colored(accent()).bolded()));
    push_span(&mut spans, span(" · ", colored(muted())));
    push_span(&mut spans, span(model, colored(muted())));
    push_span(&mut spans, raw_span(" "));
    match badge {
        Some(l) => {
            rule = less(less(rule, l.unicode_len()), 3);
            push_span(&mut spans, span("· ", colored(muted())));
            push_span(
                &mut spans,
                Span { text: cat2(l, " "), style: colored(accent()).bolded() },
            );
        },
        None => {},
    }
    match &notice {
        Some(n) => {
            rule = less(less(rule, n.as_str().unicode_len()), 1);
        },
        None => {},
    }
    assert(rule == room(width as nat, header_taken(model@, goal, opt_str(update))));
    if rule > 0 {
        push_span(
            &mut spans,
            Span { text: repeat_char('─', rule), style: colored(faint()) },
        );
    }
    match notice {
        Some(n) => {
            push_span(&mut spans, raw_span(" "));
            push_span(&mut spans, Span { text: n, style: colored(accent()) });
        },
        None => {},
    }
    let r = line_of(spans);
    assert(r@ =~= goal_row);
    r
}

// ---------------------------------------------------------------------------
// Footer
// ---------------------------------------------------------------------------

/// How many lanes are at work.
pub open spec fn lanes_running(lanes: Seq<Lane>) -> nat {
    lanes.filter(|l: Lane| l.status == LaneStatus::Running).len()
}

pub fn count_running(lanes: &Vec<LaneRecord>) -> (r: usize)
    ensures
        r == lanes_running(lanes_of(lanes@)),
        r <= lanes.len(),
{
    let ghost all = lanes_of(lanes@);
    let ghost p = |l: Lane| l.status == LaneStatus::Running;
    let mut n: usize = 0;
    proof {
        reveal(Seq::filter);
        assert(all.take(0).filter(p).len() == 0);
    }
    for i in 0..lanes.len()
        invariant
            all == lanes_of(lanes@),
            p == (|l: Lane| l.status == LaneStatus::Running),
            n == all.take(i as int).filter(p).len(),
            n <= i,
    {
        proof {
            assert(all[i as int].status == lanes@[i as int].status);
            assert(all.take(i + 1) =~= all.take(i as int).push(all[i as int]));
            all.take(i as int).lemma_filter_push(all[i as int], p);
        }
        if lanes[i].status == LaneStatus::Running {
            n += 1;
        }
    }
    assert(all.take(all.len() as int) =~= all);
    n
}

/// What is left of each window of the account: its label and what is left, as a
/// number of percent.
pub open spec fn window_parts(windows: Seq<(i64, String)>) -> Seq<Seq<char>> {
    windows.map_values(|w: (i64, String)| window_label(w.0 as int) + " "@ + w.1@ + "%"@)
}

pub open spec fn windows_pieces(windows: Seq<(i64, String)>) -> Seq<Piece> {
    if windows.len() == 0 {
        Seq::empty()
    } else {
        seq![
            piece("◷ "@ + joined(window_parts(windows), " · "@) + " left"@, colored(warn())),
            piece("   "@, colored(faint())),
        ]
    }
}

/// The figures of a conversation.
pub ghost struct Figures {
    pub prompt: nat,
    pub completion: nat,
    pub cache: nat,
    pub context: nat,
    pub lanes: nat,
    pub watching: nat,
}

pub open spec fn figures_of(c: Option<Conversation>) -> Figures {
    match c {
        Some(c) => Figures {
            prompt: c.prompt_tokens as nat,
            completion: c.completion_tokens as nat,
            cache: c.cache_read_tokens as nat,
            context: c.last_prompt_tokens as nat,
            lanes: lanes_running(c.lanes),
            watching: c.watching as nat,
        },
        None => Figures {
            prompt: 0,
            completion: 0,
            cache: 0,
            context: 0,
            lanes: 0,
            watching: 0,
        },
    }
}

pub open spec fn figures_pieces(f: Figures) -> Seq<Piece> {
    seq![
        piece("↑"@ + si(f.prompt), subtle()),
        raw(" "@),
        piece("↓"@ + si(f.completion), subtle()),
    ] + (if f.lanes > 0 {
        seq![piece("  ◆"@ + decimal(f.lanes), colored(lane()))]
    } else {
        Seq::empty()
    }) + (if f.watching > 0 {
        seq![piece("  ◉"@ + decimal(f.watching), colored(warn()))]
    } else {
        Seq::empty()
    }) + (if f.cache > 0 {
        seq![piece(" ↻"@ + si(f.cache), subtle())]
    } else {
        Seq::empty()
    }) + seq![
        piece(" · "@, colored(faint())),
        piece("ctx "@ + si(f.context) + " "@, subtle()),
    ]
}

/// The right side of the footer.
pub open spec fn footer_figures(c: Option<Conversation>, windows: Seq<(i64, String)>) -> Seq<Piece> {
    windows_pieces(windows) + figures_pieces(figures_of(c))
}

fn window_spans(windows: &Vec<(i64, String)>) -> (r: Vec<Span>)
    requires
        forall|i: int|
            0 <= i < windows@.len() ==> (#[trigger] windows@[i]).0 > i64::MIN + 43200,
    ensures
        pieces_of(r@) == windows_pieces(windows@),
{
    let mut spans = no_spans();
    if windows.len() == 0 {
        return spans;
    }
    let ghost goal = window_parts(windows@);
    let mut parts = no_texts();
    for i in 0..windows.len()
        invariant
            forall|k: int|
                0 <= k < windows@.len() ==> (#[trigger] windows@[k]).0 > i64::MIN + 43200,
            goal == window_parts(windows@),
            texts(parts@) == goal.take(i as int),
    {
        let (minutes, left) = &windows[i];
        assert(windows@[i as int].0 > i64::MIN + 43200);
        let label = rate_window_label(*minutes);
        push_text(&mut parts, cat4(label.as_str(), " ", left.as_str(), "%"));
        assert(goal.take(i + 1) =~= goal.take(i as int).push(goal[i as int]));
    }
    assert(goal.take(goal.len() as int) =~= goal);
    let all = join(&parts, " · ");
    let text = cat3("◷ ", all.as_str(), " left");
    push_span(&mut spans, Span { text, style: colored(warn()) });
    push_span(&mut spans, span("   ", colored(faint())));
    assert(pieces_of(spans@) =~= windows_pieces(windows@));
    spans
}

fn si_span(mark: &str, n: u64) -> (r: Span)
    ensures
        r@ == piece(mark@ + si(n as nat), subtle()),
{
    let d = fmt_si(n);
    Span { text: cat2(mark, d.as_str()), style: subtle() }
}

fn figures_line(
    prompt: u64,
    completion: u64,
    cache: u64,
    context: u64,
    lanes: usize,
    watching: usize,
) -> (r: Line)
    ensures
        r@ == figures_pieces(
            Figures {
                prompt: prompt as nat,
                completion: completion as nat,
                cache: cache as nat,
                context: context as nat,
                lanes: lanes as nat,
                watching: watching as nat,
            },
        ),
{
    let mut spans = no_spans();
    push_span(&mut spans, si_span("↑", prompt));
    push_span(&mut spans, raw_span(" "));
    push_span(&mut spans, si_span("↓", completion));
    if lanes > 0 {
        let d = decimal_string(lanes as u64);
        push_span(&mut spans, Span { text: cat2("  ◆", d.as_str()), style: colored(lane()) });
    }
    if watching > 0 {
        let d = decimal_string(watching as u64);
        push_span(&mut spans, Span { text: cat2("  ◉", d.as_str()), style: colored(warn()) });
    }
    if cache > 0 {
        push_span(&mut spans, si_span(" ↻", cache));
    }
    push_span(&mut spans, span(" · ", colored(faint())));
    let d = fmt_si(context);
    push_span(&mut spans, Span { text: cat3("ctx ", d.as_str(), " "), style: subtle() });
    let r = line_of(spans);
    assert(r@ =~= figures_pieces(
        Figures {
            prompt: prompt as nat,
            completion: completion as nat,
            cache: cache as nat,
            context: context as nat,
            lanes: lanes as nat,
            watching: watching as nat,
        },
    ));
    r
}

/// The right side of the footer: what is left of the account's windows, each as
/// its length in minutes and a number of percent, and the figures of the
/// conversation.
pub fn footer_line(state: &Option<HarnessState>, windows: &Vec<(i64, String)>) -> (r: Line)
    requires
        forall|i: int|
            0 <= i < windows@.len() ==> (#[trigger] windows@[i]).0 > i64::MIN + 43200,
    ensures
        r@ == footer_figures(told(*state), windows@),
{
    let figures = match state {
        Some(s) => figures_line(
            s.prompt_tokens,
            s.completion_tokens,
            s.cache_read_tokens,
            s.last_prompt_tokens,
            count_running(&s.lanes),
            s.watching,
        ),
        None => figures_line(0, 0, 0, 0, 0, 0),
    };
    let mut spans = window_spans(windows);
    append_spans(&mut spans, figures);
    line_of(spans)
}

/// The left side of the footer: where one works, and whether changes are approved
/// by hand.
pub open spec fn footer_place(cwd: Seq<char>, manual: bool) -> Seq<Piece> {
    seq![piece(" "@ + cwd, subtle())] + (if manual {
        seq![piece("  ⚠ manual"@, colored(warn()))]
    } else {
        Seq::empty()
    })
}

pub fn place_line(cwd: &str, manual: bool) -> (r: Line)
    ensures
        r@ == footer_place(cwd@, manual),
{
    let mut spans = no_spans();
    push_span(&mut spans, Span { text: cat2(" ", cwd), style: subtle() });
    if manual {
        push_span(&mut spans, span("  ⚠ manual", colored(warn())));
    }
    let r = line_of(spans);
    assert(r@ =~= footer_place(cwd@, manual));
    r
}

// ---------------------------------------------------------------------------
// The clipboard
// ---------------------------------------------------------------------------

/// The character for the lowest six bits of a number, in the standard alphabet.
pub open spec fn digit64(n: nat) -> char {
    let d = n % 64;
    if d < 26 {
        ('A' as nat + d) as char
    } else if d < 52 {
        ('a' as nat + d - 26) as char
    } else if d < 62 {
        ('0' as nat + d - 52) as char
    } else if d == 62 {
        '+'
    } else {
        '/'
    }
}

/// Bytes in base64: four characters for each three bytes, with padding at the end.
pub open spec fn in_base64(b: Seq<u8>) -> Seq<char>
    decreases b.len(),
{
    if b.len() == 0 {
        Seq::empty()
    } else {
        let n = b[0] as nat * 65536 + (if b.len() > 1 {
            b[1] as nat * 256
        } else {
            0
        }) + (if b.len() > 2 {
            b[2] as nat
        } else {
            0
        });
        seq![
            digit64(n / 262144),
            digit64(n / 4096),
            if b.len() > 1 {
                digit64(n / 64)
            } else {
                '='
            },
            if b.len() > 2 {
                digit64(n)
            } else {
                '='
            },
        ] + (if b.len() > 3 {
            in_base64(b.skip(3))
        } else {
            Seq::empty()
        })
    }
}

/// `base64::engine::general_purpose::STANDARD.encode` on the bytes of a text: its
/// result is their base64, with the standard alphabet and padding.
#[verifier::external_body]
fn encode_base64(text: &str) -> (r: String)
    ensures
        r@ == in_base64(encode_utf8(text@)),
{
    base64::Engine::encode(&base64::engine::general_purpose::STANDARD, text.as_bytes())
}

/// The sequence that hands an encoded text to the terminal's clipboard.
pub open spec fn clipboard_escape(encoded: Seq<char>) -> Seq<char> {
    "\u{1b}]52;c;"@ + encoded + "\u{7}"@
}

/// The sequence that hands an encoded text to the terminal's clipboard.
pub fn clipboard_sequence(encoded: &str) -> (r: String)
    ensures
        r@ == clipboard_escape(encoded@),
{
    cat3("\u{1b}]52;c;", encoded, "\u{7}")
}

/// What is written to the terminal so that it puts a text on its clipboard.
pub fn copy_sequence(text: &str) -> (r: String)
    ensures
        r@ == clipboard_escape(in_base64(encode_utf8(text@))),
{
    let encoded = encode_base64(text);
    clipboard_sequence(encoded.as_str())
}

} // verus!
