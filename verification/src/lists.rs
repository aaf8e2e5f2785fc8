//! The screens on which something is picked, as lines.
use crate::app::{opt_setup, profiles_of};
use crate::blocks::{less, smaller};
use crate::form::{ModelConfig, Setup};
use crate::style::{
    Color, Line, Piece, Span, append_lines, blank_line, blank_row, colored, line1, line2, line3,
    line_of, no_lines, no_spans, piece, pieces_of, push_line, push_span, raw, raw_span, room, rows,
    span,
};
use crate::table::larger;
use crate::text::{
    blank, cat2, cat4, cat5, decimal, decimal_string, is_blank, lemma_pieces_nonempty, pad_to,
    padded_to, pieces, same, split, starts, strip_prefix, texts,
};
use crate::theme::{Theme, accent, faint, ink, lane, subtle, success};
use crate::vault::pair_texts;
use vstd::prelude::*;

verus! {

// ---------------------------------------------------------------------------
// The part of a list that is shown
// ---------------------------------------------------------------------------

/// The first row that is shown of a list, so that the focus is among `visible`.
pub open spec fn shown_first(focus: nat, visible: nat) -> nat {
    if focus >= visible {
        (focus + 1 - visible) as nat
    } else {
        0
    }
}

/// The row after the last that is shown.
pub open spec fn shown_end(focus: nat, visible: nat, total: nat) -> nat {
    smaller(shown_first(focus, visible) + visible, total)
}

/// However long a list is, the row in focus is shown, and no more rows than there
/// is room for.
pub proof fn focus_is_shown(focus: nat, visible: nat, total: nat)
    requires
        focus < total,
        visible > 0,
    ensures
        shown_first(focus, visible) <= focus < shown_end(focus, visible, total),
        shown_end(focus, visible, total) - shown_first(focus, visible) <= visible,
        shown_end(focus, visible, total) <= total,
{
}

fn first_shown(focus: usize, visible: usize) -> (r: usize)
    requires
        visible > 0,
    ensures
        r == shown_first(focus as nat, visible as nat),
        r <= focus,
{
    if focus >= visible {
        focus - visible + 1
    } else {
        0
    }
}

fn end_shown(focus: usize, visible: usize, total: usize) -> (r: usize)
    requires
        visible > 0,
        focus < total || (focus == 0 && total == 0),
    ensures
        r == shown_end(focus as nat, visible as nat, total as nat),
        r <= total,
{
    let first = first_shown(focus, visible);
    if visible <= total - first {
        first + visible
    } else {
        total
    }
}

/// What stands for the rows above or below.
pub open spec fn more_row(mark: Seq<char>, n: nat) -> Seq<Piece> {
    seq![piece("  "@ + mark + " "@ + decimal(n) + " more"@, colored(faint()))]
}

fn more_line(mark: &str, n: usize) -> (r: Line)
    ensures
        r@ == more_row(mark@, n as nat),
{
    let d = decimal_string(n as u64);
    line1(Span { text: cat5("  ", mark, " ", d.as_str(), " more"), style: colored(faint()) })
}

/// The rows above, where there are any.
pub open spec fn above(n: nat) -> Seq<Seq<Piece>> {
    if n > 0 {
        seq![more_row("↑"@, n)]
    } else {
        Seq::empty()
    }
}

/// The rows below, where there are any.
pub open spec fn below(n: nat) -> Seq<Seq<Piece>> {
    if n > 0 {
        seq![more_row("↓"@, n)]
    } else {
        Seq::empty()
    }
}

fn push_above(lines: &mut Vec<Line>, n: usize)
    ensures
        rows(final(lines)@) == rows(old(lines)@) + above(n as nat),
{
    if n > 0 {
        push_line(lines, more_line("↑", n));
    }
    assert(rows(lines@) =~= rows(old(lines)@) + above(n as nat));
}

fn push_below(lines: &mut Vec<Line>, n: usize)
    ensures
        rows(final(lines)@) == rows(old(lines)@) + below(n as nat),
{
    if n > 0 {
        push_line(lines, more_line("↓", n));
    }
    assert(rows(lines@) =~= rows(old(lines)@) + below(n as nat));
}

// ---------------------------------------------------------------------------
// Conversations
// ---------------------------------------------------------------------------

/// A conversation in the list.
pub open spec fn session_row(s: (Seq<char>, Seq<char>), selected: bool) -> Seq<Piece> {
    if selected {
        seq![
            piece("▍ "@, colored(accent())),
            piece(padded_to(s.0, 38) + " "@, colored(accent()).bolded()),
            piece(s.1, subtle()),
        ]
    } else {
        seq![
            raw("  "@),
            piece(padded_to(s.0, 38) + " "@, colored(ink())),
            piece(s.1, colored(faint())),
        ]
    }
}

/// Some of the conversations.
pub open spec fn session_rows(
    list: Seq<(Seq<char>, Seq<char>)>,
    from: int,
    to: int,
    selected: int,
) -> Seq<Seq<Piece>> {
    Seq::new((to - from) as nat, |k: int| session_row(list[from + k], from + k == selected))
}

/// The list of conversations in so many rows.
pub open spec fn sessions_shown(
    list: Seq<(Seq<char>, Seq<char>)>,
    selected: nat,
    height: nat,
) -> Seq<Seq<Piece>> {
    let total = list.len();
    if total == 0 {
        seq![seq![piece("  No saved conversations found."@, subtle())]]
    } else {
        let at = smaller(selected, (total - 1) as nat);
        let visible = larger(room(height, 4), 1);
        let from = shown_first(at, visible);
        let to = shown_end(at, visible, total);
        above(from) + session_rows(list, from as int, to as int, at as int) + below(
            (total - to) as nat,
        )
    }
}

fn session_line(name: &str, about: &str, selected: bool) -> (r: Line)
    ensures
        r@ == session_row((name@, about@), selected),
{
    let padded = pad_to(name, 38);
    let text = cat2(padded.as_str(), " ");
    if selected {
        line3(
            span("▍ ", colored(accent())),
            Span { text, style: colored(accent()).bolded() },
            span(about, subtle()),
        )
    } else {
        line3(
            raw_span("  "),
            Span { text, style: colored(ink()) },
            span(about, colored(faint())),
        )
    }
}

/// The list of conversations, of which the selected one is always shown. `height`
/// is that of the list with its two rules.
pub fn session_lines(list: &Vec<(String, String)>, selected: usize, height: usize) -> (r: Vec<Line>)
    ensures
        rows(r@) == sessions_shown(pair_texts(list@), selected as nat, height as nat),
{
    let total = list.len();
    let mut out = no_lines();
    assert(pair_texts(list@).len() == total);
    if total == 0 {
        push_line(&mut out, line1(span("  No saved conversations found.", subtle())));
        assert(rows(out@) =~= sessions_shown(pair_texts(list@), selected as nat, height as nat));
        return out;
    }
    let at: usize = if selected <= total - 1 {
        selected
    } else {
        total - 1
    };
    let visible: usize = if less(height, 4) >= 1 {
        less(height, 4)
    } else {
        1
    };
    let from = first_shown(at, visible);
    let to = end_shown(at, visible, total);
    proof {
        focus_is_shown(at as nat, visible as nat, total as nat);
    }
    push_above(&mut out, from);
    let ghost head = rows(out@);
    let ghost goal = session_rows(pair_texts(list@), from as int, to as int, at as int);
    assert(head + goal.take(0) =~= head);
    for i in from..to
        invariant
            to <= list@.len(),
            goal == session_rows(pair_texts(list@), from as int, to as int, at as int),
            rows(out@) == head + goal.take(i - from),
    {
        let (name, about) = &list[i];
        proof {
            assert(pair_texts(list@)[i as int] == (name@, about@));
            assert(goal[i - from] == session_row((name@, about@), i == at));
            assert(goal.take(i - from + 1) =~= goal.take(i - from).push(goal[i - from]));
            assert((head + goal.take(i - from)).push(goal[i - from]) =~= head + goal.take(
                i - from + 1,
            ));
        }
        push_line(&mut out, session_line(name.as_str(), about.as_str(), i == at));
    }
    assert(goal.take(to - from) =~= goal);
    push_below(&mut out, total - to);
    out
}

// ---------------------------------------------------------------------------
// Palettes
// ---------------------------------------------------------------------------

/// A palette that can be picked.
pub struct Preset {
    pub label: String,
    pub theme: Theme,
}

/// A palette in the list, with a sample of its colours.
pub open spec fn preset_row(label: Seq<char>, t: Theme, selected: bool) -> Seq<Piece> {
    seq![
        if selected {
            piece("▍ "@, colored(accent()))
        } else {
            raw("  "@)
        },
        piece(
            padded_to(label, 18),
            if selected {
                colored(accent()).bolded()
            } else {
                colored(ink())
            },
        ),
        piece("●"@, colored(t.accent)),
        raw(" "@),
        piece("●"@, colored(t.success)),
        raw(" "@),
        piece("●"@, colored(t.warn)),
        raw(" "@),
        piece("●"@, colored(t.danger)),
        raw(" "@),
        piece("●"@, colored(t.lane)),
        raw(" "@),
        piece("●"@, colored(t.code)),
        raw(" "@),
    ]
}

pub open spec fn preset_rows(list: Seq<Preset>, from: int, to: int, selected: int) -> Seq<
    Seq<Piece>,
> {
    Seq::new(
        (to - from) as nat,
        |k: int|
            preset_row(list[from + k].label@, list[from + k].theme, from + k == selected),
    )
}

/// The list of palettes in so many rows.
pub open spec fn presets_shown(list: Seq<Preset>, selected: nat, height: nat) -> Seq<Seq<Piece>> {
    let total = list.len();
    let at = smaller(selected, room(total, 1));
    let visible = larger(room(height, 4), 1);
    let from = shown_first(at, visible);
    let to = shown_end(at, visible, total);
    (if from > 0 {
        seq![more_row("↑"@, from)]
    } else {
        seq![blank_row()]
    }) + preset_rows(list, from as int, to as int, at as int) + below((total - to) as nat)
}

fn push_sample(spans: &mut Vec<Span>, c: Color)
    ensures
        pieces_of(final(spans)@) == pieces_of(old(spans)@).push(piece("●"@, colored(c))).push(
            raw(" "@),
        ),
{
    push_span(spans, span("●", colored(c)));
    push_span(spans, raw_span(" "));
}

fn preset_line(label: &str, t: Theme, selected: bool) -> (r: Line)
    ensures
        r@ == preset_row(label@, t, selected),
{
    let mut spans = no_spans();
    let name = pad_to(label, 18);
    if selected {
        push_span(&mut spans, span("▍ ", colored(accent())));
        push_span(&mut spans, Span { text: name, style: colored(accent()).bolded() });
    } else {
        push_span(&mut spans, raw_span("  "));
        push_span(&mut spans, Span { text: name, style: colored(ink()) });
    }
    push_sample(&mut spans, t.accent);
    push_sample(&mut spans, t.success);
    push_sample(&mut spans, t.warn);
    push_sample(&mut spans, t.danger);
    push_sample(&mut spans, t.lane);
    push_sample(&mut spans, t.code);
    let r = line_of(spans);
    assert(r@ =~= preset_row(label@, t, selected));
    r
}

fn push_presets(lines: &mut Vec<Line>, list: &Vec<Preset>, from: usize, to: usize, at: usize)
    requires
        from <= to <= list@.len(),
    ensures
        rows(final(lines)@) == rows(old(lines)@) + preset_rows(
            list@,
            from as int,
            to as int,
            at as int,
        ),
{
    let ghost head = rows(lines@);
    let ghost goal = preset_rows(list@, from as int, to as int, at as int);
    assert(head + goal.take(0) =~= head);
    for i in from..to
        invariant
            to <= list@.len(),
            goal == preset_rows(list@, from as int, to as int, at as int),
            rows(lines@) == head + goal.take(i - from),
    {
        let p = &list[i];
        proof {
            assert(goal[i - from] == preset_row(p.label@, p.theme, i == at));
            assert(goal.take(i - from + 1) =~= goal.take(i - from).push(goal[i - from]));
            assert((head + goal.take(i - from)).push(goal[i - from]) =~= head + goal.take(
                i - from + 1,
            ));
        }
        push_line(lines, preset_line(p.label.as_str(), p.theme, i == at));
    }
    assert(goal.take(to - from) =~= goal);
}

fn presets_top(from: usize) -> (r: Vec<Line>)
    ensures
        rows(r@) == if from > 0 {
            seq![more_row("↑"@, from as nat)]
        } else {
            seq![blank_row()]
        },
{
    let mut out = no_lines();
    if from > 0 {
        push_line(&mut out, more_line("↑", from));
    } else {
        push_line(&mut out, blank_line());
    }
    assert(rows(out@) =~= if from > 0 {
        seq![more_row("↑"@, from as nat)]
    } else {
        seq![blank_row()]
    });
    out
}

fn at_least_one(n: usize) -> (r: usize)
    ensures
        r == larger(n as nat, 1),
        r > 0,
{
    if n >= 1 {
        n
    } else {
        1
    }
}

fn at_most(n: usize, max: usize) -> (r: usize)
    ensures
        r == smaller(n as nat, max as nat),
        r <= max,
{
    if n <= max {
        n
    } else {
        max
    }
}

/// The list of palettes, of which the selected one is always shown. `height` is
/// that of the list with its two rules.
pub fn preset_lines(list: &Vec<Preset>, selected: usize, height: usize) -> (r: Vec<Line>)
    ensures
        rows(r@) == presets_shown(list@, selected as nat, height as nat),
{
    let total = list.len();
    let at = at_most(selected, less(total, 1));
    let visible = at_least_one(less(height, 4));
    let from = first_shown(at, visible);
    let to = end_shown(at, visible, total);
    proof {
        if total > 0 {
            focus_is_shown(at as nat, visible as nat, total as nat);
        }
    }
    let mut out = presets_top(from);
    push_presets(&mut out, list, from, to, at);
    push_below(&mut out, total - to);
    out
}

// ---------------------------------------------------------------------------
// Profiles
// ---------------------------------------------------------------------------

/// An address without the protocol before it, however often that is there.
pub open spec fn without_protocol(s: Seq<char>, protocol: Seq<char>) -> Seq<char>
    decreases s.len(),
{
    if protocol.len() > 0 && starts(s, protocol) {
        without_protocol(s.skip(protocol.len() as int), protocol)
    } else {
        s
    }
}

/// The host of an endpoint.
pub open spec fn host(url: Seq<char>) -> Seq<char> {
    let rest = without_protocol(without_protocol(url, "https://"@), "http://"@);
    let first = pieces(rest, '/')[0];
    if first.len() == 0 {
        "custom endpoint"@
    } else {
        first
    }
}

/// Whether a profile can be used, in a few words.
pub open spec fn profile_note(s: Setup, signed_in: bool) -> Seq<char> {
    if s.provider == "chatgpt"@ {
        if signed_in {
            "✓ signed in"@
        } else {
            "not signed in — Enter to sign in"@
        }
    } else if s.provider == "openai-compatible"@ {
        host(s.base_url)
    } else if blank(s.api_key) {
        "no api key"@
    } else {
        "api key set"@
    }
}

fn drop_protocol(s: &str, protocol: &str) -> (r: String)
    requires
        protocol@.len() > 0,
    ensures
        r@ == without_protocol(s@, protocol@),
{
    let mut rest = s.to_owned();
    loop
        invariant
            protocol@.len() > 0,
            without_protocol(s@, protocol@) == without_protocol(rest@, protocol@),
        ensures
            rest@ == without_protocol(s@, protocol@),
        decreases rest@.len(),
    {
        match strip_prefix(rest.as_str(), protocol) {
            Some(r) => {
                rest = r;
            },
            None => {
                break;
            },
        }
    }
    rest
}

/// Whether a profile can be used, in a few words.
pub fn profile_status(cfg: &ModelConfig, signed_in: bool) -> (r: String)
    ensures
        r@ == profile_note(cfg@, signed_in),
{
    if same(cfg.provider.as_str(), "chatgpt") {
        if signed_in {
            "✓ signed in".to_string()
        } else {
            "not signed in — Enter to sign in".to_string()
        }
    } else if same(cfg.provider.as_str(), "openai-compatible") {
        proof {
            reveal_strlit("https://");
            reveal_strlit("http://");
        }
        let a = drop_protocol(cfg.base_url.as_str(), "https://");
        let b = drop_protocol(a.as_str(), "http://");
        let parts = split(b.as_str(), '/');
        proof {
            lemma_pieces_nonempty(b@, '/');
            assert(texts(parts@).len() == parts@.len());
            assert(texts(parts@)[0] == parts@[0]@);
        }
        if parts[0].as_str().is_empty() {
            "custom endpoint".to_string()
        } else {
            parts[0].clone()
        }
    } else if is_blank(cfg.api_key.as_str()) {
        "no api key".to_string()
    } else {
        "api key set".to_string()
    }
}

/// A profile: its name, whether it is in use, and its model.
pub open spec fn profile_card(
    p: (Seq<char>, Option<Setup>),
    selected: bool,
    active: bool,
    signed_in: bool,
) -> Seq<Seq<Piece>> {
    let head = seq![
        piece(
            if selected {
                "▍ "@
            } else {
                "  "@
            },
            colored(accent()),
        ),
        piece(
            p.0,
            if selected {
                colored(accent()).bolded()
            } else {
                colored(ink()).bolded()
            },
        ),
    ] + (if active {
        seq![piece("   ● active"@, colored(success()))]
    } else {
        Seq::empty()
    });
    seq![head] + (match p.1 {
        Some(s) => seq![
            seq![
                piece(
                    "     "@ + (if s.model.len() == 0 {
                        "(no model)"@
                    } else {
                        s.model
                    }) + " · "@ + profile_note(s, signed_in),
                    subtle(),
                ),
            ],
        ],
        None => Seq::empty(),
    }) + seq![blank_row()]
}

/// Some of the profiles.
pub open spec fn profile_cards(
    list: Seq<(Seq<char>, Option<Setup>)>,
    from: int,
    to: int,
    selected: int,
    active: Seq<char>,
    signed_in: bool,
) -> Seq<Seq<Piece>>
    decreases to - from,
{
    if to <= from {
        Seq::empty()
    } else {
        profile_cards(list, from, to - 1, selected, active, signed_in) + profile_card(
            list[to - 1],
            to - 1 == selected,
            list[to - 1].0 == active,
            signed_in,
        )
    }
}

/// The row that adds a profile.
pub open spec fn add_row(selected: bool) -> Seq<Piece> {
    seq![
        piece(
            if selected {
                "▍ "@
            } else {
                "  "@
            },
            colored(accent()),
        ),
        piece(
            "+ Add a model"@,
            if selected {
                colored(accent()).bolded()
            } else {
                colored(faint())
            },
        ),
    ]
}

/// The list of profiles in so many rows, and the row that adds one.
pub open spec fn profiles_shown(
    list: Seq<(Seq<char>, Option<Setup>)>,
    selected: nat,
    active: Seq<char>,
    signed_in: bool,
    height: nat,
) -> Seq<Seq<Piece>> {
    let total = list.len();
    let at = smaller(selected, total);
    let visible = larger(room(room(height, 2), 2) / 3, 1);
    let focus = smaller(at, room(total, 1));
    let from = shown_first(focus, visible);
    let to = shown_end(focus, visible, total);
    above(from) + profile_cards(list, from as int, to as int, at as int, active, signed_in)
        + below((total - to) as nat) + seq![add_row(at >= total)]
}

fn card_lines(
    name: &str,
    setup: &Option<ModelConfig>,
    selected: bool,
    active: bool,
    signed_in: bool,
) -> (r: Vec<Line>)
    ensures
        rows(r@) == profile_card((name@, opt_setup(*setup)), selected, active, signed_in),
{
    let mut head = no_spans();
    if selected {
        push_span(&mut head, span("▍ ", colored(accent())));
        push_span(&mut head, span(name, colored(accent()).bolded()));
    } else {
        push_span(&mut head, span("  ", colored(accent())));
        push_span(&mut head, span(name, colored(ink()).bolded()));
    }
    if active {
        push_span(&mut head, span("   ● active", colored(success())));
    }
    let head = line_of(head);
    let ghost head_view = head@;
    let mut out = no_lines();
    push_line(&mut out, head);
    match setup {
        Some(cfg) => {
            let model = if cfg.model.as_str().is_empty() {
                "(no model)"
            } else {
                cfg.model.as_str()
            };
            let note = profile_status(cfg, signed_in);
            let text = cat4("     ", model, " · ", note.as_str());
            push_line(&mut out, line1(Span { text, style: subtle() }));
        },
        None => {},
    }
    push_line(&mut out, blank_line());
    proof {
        let goal = profile_card((name@, opt_setup(*setup)), selected, active, signed_in);
        assert(head_view =~= goal[0]);
        assert(rows(out@) =~= goal);
    }
    out
}

fn add_line(selected: bool) -> (r: Line)
    ensures
        r@ == add_row(selected),
{
    if selected {
        line2(
            span("▍ ", colored(accent())),
            span("+ Add a model", colored(accent()).bolded()),
        )
    } else {
        line2(span("  ", colored(accent())), span("+ Add a model", colored(faint())))
    }
}

/// The list of profiles, of which the selected one is always shown, and the row
/// that adds one. `height` is that of the list with its two rules.
pub fn profile_lines(
    list: &Vec<(String, Option<ModelConfig>)>,
    selected: usize,
    active: &str,
    signed_in: bool,
    height: usize,
) -> (r: Vec<Line>)
    ensures
        rows(r@) == profiles_shown(
            profiles_of(list@),
            selected as nat,
            active@,
            signed_in,
            height as nat,
        ),
{
    let total = list.len();
    let ghost all = profiles_of(list@);
    assert(all.len() == total);
    let at = at_most(selected, total);
    let visible = at_least_one(less(less(height, 2), 2) / 3);
    let focus = at_most(at, less(total, 1));
    let from = first_shown(focus, visible);
    let to = end_shown(focus, visible, total);
    proof {
        if total > 0 {
            focus_is_shown(focus as nat, visible as nat, total as nat);
        }
    }
    let mut out = no_lines();
    push_above(&mut out, from);
    push_cards(&mut out, list, from, to, at, active, signed_in);
    push_below(&mut out, total - to);
    push_add(&mut out, at >= total);
    assert(Seq::<Seq<Piece>>::empty() + above(from as nat) =~= above(from as nat));
    out
}

fn push_add(lines: &mut Vec<Line>, selected: bool)
    ensures
        rows(final(lines)@) == rows(old(lines)@) + seq![add_row(selected)],
{
    push_line(lines, add_line(selected));
    assert(rows(lines@) =~= rows(old(lines)@) + seq![add_row(selected)]);
}

fn push_cards(
    lines: &mut Vec<Line>,
    list: &Vec<(String, Option<ModelConfig>)>,
    from: usize,
    to: usize,
    at: usize,
    active: &str,
    signed_in: bool,
)
    requires
        from <= to <= list@.len(),
    ensures
        rows(final(lines)@) == rows(old(lines)@) + profile_cards(
            profiles_of(list@),
            from as int,
            to as int,
            at as int,
            active@,
            signed_in,
        ),
{
    let ghost all = profiles_of(list@);
    let ghost head = rows(lines@);
    assert(head + profile_cards(
        all,
        from as int,
        from as int,
        at as int,
        active@,
        signed_in,
    ) =~= head);
    for i in from..to
        invariant
            to <= list@.len(),
            all == profiles_of(list@),
            rows(lines@) == head + profile_cards(
                all,
                from as int,
                i as int,
                at as int,
                active@,
                signed_in,
            ),
    {
        let (name, setup) = &list[i];
        let card = card_lines(
            name.as_str(),
            setup,
            i == at,
            same(name.as_str(), active),
            signed_in,
        );
        proof {
            assert(all[i as int] == (name@, opt_setup(*setup)));
            let done = profile_cards(all, from as int, i as int, at as int, active@, signed_in);
            assert((head + done) + rows(card@) =~= head + (done + rows(card@)));
        }
        append_lines(lines, card);
    }
}

/// The title of the screen of the profiles, with the lanes that are at work.
pub open spec fn profiles_title(lanes: nat) -> Seq<Piece> {
    seq![
        piece(" snippet"@, colored(accent()).bolded()),
        piece("  ·  models"@, subtle()),
    ] + (if lanes > 0 {
        seq![
            piece(
                "  ·  "@ + decimal(lanes) + " active lane"@ + (if lanes == 1 {
                    ""@
                } else {
                    "s"@
                }),
                colored(lane()),
            ),
        ]
    } else {
        Seq::empty()
    })
}

/// The title of the screen of the profiles.
pub fn profiles_header(lanes: usize) -> (r: Line)
    ensures
        r@ == profiles_title(lanes as nat),
{
    let mut spans = no_spans();
    push_span(&mut spans, span(" snippet", colored(accent()).bolded()));
    push_span(&mut spans, span("  ·  models", subtle()));
    if lanes > 0 {
        let d = decimal_string(lanes as u64);
        let end = if lanes == 1 {
            ""
        } else {
            "s"
        };
        let text = cat4("  ·  ", d.as_str(), " active lane", end);
        push_span(&mut spans, Span { text, style: colored(lane()) });
    }
    let r = line_of(spans);
    assert(r@ =~= profiles_title(lanes as nat));
    r
}

/// The place of the form on the screen: how wide and how high it is, and how far
/// it is from the left and from above.
pub open spec fn form_place(width: nat, height: nat) -> (nat, nat, nat, nat) {
    let w = larger(smaller(room(width, 8), 96), 64);
    let h = larger(smaller(room(height, 6), 26), 16);
    (w, h, room(width, w) / 2, room(height, h) / 2)
}

/// The place of the form on a screen of this size.
pub fn form_popup(width: u16, height: u16) -> (r: (u16, u16, u16, u16))
    ensures
        (r.0 as nat, r.1 as nat, r.2 as nat, r.3 as nat) == form_place(
            width as nat,
            height as nat,
        ),
{
    let a: u16 = if width > 8 {
        width - 8
    } else {
        0
    };
    let a: u16 = if a <= 96 {
        a
    } else {
        96
    };
    let w: u16 = if a >= 64 {
        a
    } else {
        64
    };
    let b: u16 = if height > 6 {
        height - 6
    } else {
        0
    };
    let b: u16 = if b <= 26 {
        b
    } else {
        26
    };
    let h: u16 = if b >= 16 {
        b
    } else {
        16
    };
    let x: u16 = if width > w {
        (width - w) / 2
    } else {
        0
    };
    let y: u16 = if height > h {
        (height - h) / 2
    } else {
        0
    };
    (w, h, x, y)
}

} // verus!
