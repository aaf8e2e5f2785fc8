//! What a slash command can be completed to.
use crate::events::{Checkpoint, checkpoints_of};
use crate::style::{
    Line, Piece, Span, colored, line3, no_lines, piece, push_line, raw, raw_span, rows, span,
};
use crate::text::{
    byte_len, cat2, char_bytes, chars_of, contains, contains_char, occurs, pad_to, padded_to,
    starts, starts_with, starts_with_char, strip_prefix,
};
use crate::theme::{accent, faint, ink, subtle};
use crate::vault::pair_texts;
use vstd::prelude::*;

verus! {

/// The commands and what they do.
pub const ALL_COMMANDS: [(&'static str, &'static str); 8] = [
    ("/new", "Start a new session"),
    ("/resume", "Resume a saved session"),
    ("/rewind", "Restore the workspace to a checkpoint"),
    ("/model", "Connect or change the AI model"),
    ("/compact", "Compact older conversation history now"),
    ("/goal", "Set an autonomous goal the agent drives to completion (/goal cancel to stop)"),
    ("/mode", "Toggle manual approval (bash & file edits ask y/n)"),
    ("/theme", "Switch the color theme"),
];

/// The commands as texts.
pub open spec fn commands() -> Seq<(Seq<char>, Seq<char>)> {
    ALL_COMMANDS@.map_values(|c: (&'static str, &'static str)| (c.0@, c.1@))
}

/// What follows a prefix, nothing where the prefix is not there.
pub open spec fn after(s: Seq<char>, prefix: Seq<char>) -> Seq<char> {
    if starts(s, prefix) {
        s.skip(prefix.len() as int)
    } else {
        Seq::empty()
    }
}

/// The characters whose bytes are all among the first `n`.
pub open spec fn within_bytes(s: Seq<char>, n: int) -> Seq<char>
    decreases s.len(),
{
    if s.len() == 0 || byte_len(seq![s[0]]) > n {
        Seq::empty()
    } else {
        seq![s[0]] + within_bytes(s.skip(1), n - byte_len(seq![s[0]]))
    }
}

/// The conversations whose names begin with what is entered.
pub open spec fn resumable(input: Seq<char>, sessions: Seq<(Seq<char>, Seq<char>)>) -> Seq<
    (Seq<char>, Seq<char>),
> {
    let query = after(input, "/resume "@);
    sessions.filter(|s: (Seq<char>, Seq<char>)| starts(s.0, query)).map_values(
        |s: (Seq<char>, Seq<char>)| ("/resume "@ + s.0, s.1),
    )
}

/// A checkpoint by the beginning of its id.
pub open spec fn rewind_entry(c: (Seq<char>, Seq<char>)) -> (Seq<char>, Seq<char>) {
    ("/rewind "@ + within_bytes(c.0, 8), c.1)
}

/// The checkpoints that what is entered occurs in, the newest first.
pub open spec fn rewindable(input: Seq<char>, checkpoints: Seq<(Seq<char>, Seq<char>)>) -> Seq<
    (Seq<char>, Seq<char>),
> {
    let query = after(input, "/rewind "@);
    checkpoints.reverse().map_values(|c: (Seq<char>, Seq<char>)| rewind_entry(c)).filter(
        |c: (Seq<char>, Seq<char>)| occurs(c.0, query),
    )
}

/// What the input can be completed to, and what each of these is about.
pub open spec fn suggested(
    input: Seq<char>,
    sessions: Seq<(Seq<char>, Seq<char>)>,
    checkpoints: Seq<(Seq<char>, Seq<char>)>,
) -> Seq<(Seq<char>, Seq<char>)> {
    if input.len() == 0 || input[0] != '/' {
        Seq::empty()
    } else if starts(input, "/resume"@) {
        resumable(input, sessions)
    } else if starts(input, "/rewind"@) {
        rewindable(input, checkpoints)
    } else if !input.contains(' ') {
        commands().filter(|c: (Seq<char>, Seq<char>)| starts(c.0, input))
    } else {
        Seq::empty()
    }
}

/// What follows a prefix.
pub fn rest_after(s: &str, prefix: &str) -> (r: String)
    ensures
        r@ == after(s@, prefix@),
{
    match strip_prefix(s, prefix) {
        Some(rest) => rest,
        None => {
            let none = String::new();
            assert(none@ =~= Seq::<char>::empty());
            none
        },
    }
}

fn first_bytes(s: &str, n: usize) -> (r: String)
    ensures
        r@ == within_bytes(s@, n as int),
{
    let v = chars_of(s);
    let mut out = String::new();
    let mut i: usize = 0;
    let mut left: usize = n;
    assert(v@.skip(0) =~= v@);
    assert(out@ + within_bytes(v@, n as int) =~= within_bytes(v@, n as int));
    while i < v.len() && char_bytes(v[i]) <= left
        invariant
            i <= v.len(),
            v@ == s@,
            within_bytes(s@, n as int) == out@ + within_bytes(v@.skip(i as int), left as int),
        decreases v.len() - i,
    {
        let c = v[i];
        let ghost rest = v@.skip(i as int);
        let ghost before = out@;
        proof {
            assert(rest[0] == c);
            assert(rest.skip(1) =~= v@.skip(i + 1));
        }
        left -= char_bytes(c);
        out.push(c);
        i += 1;
        proof {
            let tail = within_bytes(v@.skip(i as int), left as int);
            assert(before + (seq![c] + tail) =~= before.push(c) + tail);
        }
    }
    proof {
        let rest = v@.skip(i as int);
        if i < v.len() {
            assert(rest[0] == v@[i as int]);
        }
        assert(within_bytes(rest, left as int) =~= Seq::<char>::empty());
        assert(out@ + within_bytes(rest, left as int) =~= out@);
    }
    out
}

/// Adds a pair.
pub fn push_pair(list: &mut Vec<(String, String)>, a: String, b: String)
    ensures
        pair_texts(final(list)@) == pair_texts(old(list)@).push((a@, b@)),
{
    let ghost before = pair_texts(list@);
    let ghost pair = (a@, b@);
    list.push((a, b));
    assert(pair_texts(list@) =~= before.push(pair));
}

/// No pairs.
pub fn no_pairs() -> (r: Vec<(String, String)>)
    ensures
        pair_texts(r@) == Seq::<(Seq<char>, Seq<char>)>::empty(),
{
    let list: Vec<(String, String)> = Vec::new();
    assert(pair_texts(list@) =~= Seq::empty());
    list
}

fn suggest_sessions(input: &str, sessions: &Vec<(String, String)>) -> (r: Vec<(String, String)>)
    ensures
        pair_texts(r@) == resumable(input@, pair_texts(sessions@)),
{
    let query = rest_after(input, "/resume ");
    let ghost all = pair_texts(sessions@);
    let ghost p = |s: (Seq<char>, Seq<char>)| starts(s.0, query@);
    let ghost f = |s: (Seq<char>, Seq<char>)| ("/resume "@ + s.0, s.1);
    let mut out = no_pairs();
    proof {
        reveal(Seq::filter);
        assert(all.take(0).filter(p).map_values(f) =~= Seq::empty());
    }
    for i in 0..sessions.len()
        invariant
            all == pair_texts(sessions@),
            p == (|s: (Seq<char>, Seq<char>)| starts(s.0, query@)),
            f == (|s: (Seq<char>, Seq<char>)| ("/resume "@ + s.0, s.1)),
            pair_texts(out@) == all.take(i as int).filter(p).map_values(f),
    {
        let s = &sessions[i];
        proof {
            assert(all[i as int] == (s.0@, s.1@));
            assert(all.take(i + 1) =~= all.take(i as int).push(all[i as int]));
            all.take(i as int).lemma_filter_push(all[i as int], p);
        }
        if starts_with(s.0.as_str(), query.as_str()) {
            push_pair(&mut out, cat2("/resume ", s.0.as_str()), s.1.clone());
            assert(pair_texts(out@) =~= all.take(i + 1).filter(p).map_values(f));
        }
    }
    assert(all.take(all.len() as int) =~= all);
    out
}

fn suggest_checkpoints(input: &str, checkpoints: &Vec<Checkpoint>) -> (r: Vec<(String, String)>)
    ensures
        pair_texts(r@) == rewindable(input@, checkpoints_of(checkpoints@)),
{
    let query = rest_after(input, "/rewind ");
    let ghost all = checkpoints_of(checkpoints@).reverse().map_values(
        |c: (Seq<char>, Seq<char>)| rewind_entry(c),
    );
    let ghost p = |c: (Seq<char>, Seq<char>)| occurs(c.0, query@);
    let mut out = no_pairs();
    proof {
        reveal(Seq::filter);
        assert(all.take(0).filter(p) =~= Seq::empty());
    }
    for i in 0..checkpoints.len()
        invariant
            all == checkpoints_of(checkpoints@).reverse().map_values(
                |c: (Seq<char>, Seq<char>)| rewind_entry(c),
            ),
            p == (|c: (Seq<char>, Seq<char>)| occurs(c.0, query@)),
            pair_texts(out@) == all.take(i as int).filter(p),
    {
        let c = &checkpoints[checkpoints.len() - 1 - i];
        let short = first_bytes(c.id.as_str(), 8);
        let command = cat2("/rewind ", short.as_str());
        proof {
            assert(all[i as int] == rewind_entry((c.id@, c.label@)));
            assert(all.take(i + 1) =~= all.take(i as int).push(all[i as int]));
            all.take(i as int).lemma_filter_push(all[i as int], p);
        }
        if contains(command.as_str(), query.as_str()) {
            push_pair(&mut out, command, c.label.clone());
        }
    }
    assert(all.take(all.len() as int) =~= all);
    out
}

fn suggest_commands(input: &str) -> (r: Vec<(String, String)>)
    ensures
        pair_texts(r@) == commands().filter(|c: (Seq<char>, Seq<char>)| starts(c.0, input@)),
{
    let ghost all = commands();
    let ghost p = |c: (Seq<char>, Seq<char>)| starts(c.0, input@);
    let mut out = no_pairs();
    proof {
        reveal(Seq::filter);
        assert(all.take(0).filter(p) =~= Seq::empty());
    }
    for i in 0..8
        invariant
            all == commands(),
            p == (|c: (Seq<char>, Seq<char>)| starts(c.0, input@)),
            pair_texts(out@) == all.take(i as int).filter(p),
    {
        let (command, about) = ALL_COMMANDS[i];
        proof {
            assert(all[i as int] == (command@, about@));
            assert(all.take(i + 1) =~= all.take(i as int).push(all[i as int]));
            all.take(i as int).lemma_filter_push(all[i as int], p);
        }
        if starts_with(command, input) {
            push_pair(&mut out, command.to_owned(), about.to_owned());
        }
    }
    assert(all.take(8) =~= all);
    out
}

/// What the input can be completed to: a command, a saved conversation after
/// `/resume`, or a checkpoint after `/rewind`.
pub fn get_suggestions(
    input: &str,
    sessions: &Vec<(String, String)>,
    checkpoints: &Vec<Checkpoint>,
) -> (r: Vec<(String, String)>)
    ensures
        pair_texts(r@) == suggested(
            input@,
            pair_texts(sessions@),
            checkpoints_of(checkpoints@),
        ),
{
    if !starts_with_char(input, '/') {
        return no_pairs();
    }
    if starts_with(input, "/resume") {
        return suggest_sessions(input, sessions);
    }
    if starts_with(input, "/rewind") {
        return suggest_checkpoints(input, checkpoints);
    }
    if !contains_char(input, ' ') {
        suggest_commands(input)
    } else {
        no_pairs()
    }
}

/// The rows that the suggestions take: one each and one for the rule above.
/// A screen has no more rows than a `u16` holds.
pub fn suggestion_height(count: usize) -> (r: u16)
    ensures
        r == if count == 0 {
            0
        } else if count < u16::MAX {
            count + 1
        } else {
            u16::MAX as int
        },
{
    if count == 0 {
        0
    } else if count < 65535 {
        count as u16 + 1
    } else {
        65535
    }
}

/// One suggestion, marked where it is selected.
pub open spec fn suggestion_row(s: (Seq<char>, Seq<char>), selected: bool) -> Seq<Piece> {
    if selected {
        seq![
            piece("▍ "@, colored(accent())),
            piece(padded_to(s.0, 10), colored(accent()).bolded()),
            piece("  "@ + s.1, subtle()),
        ]
    } else {
        seq![
            raw("  "@),
            piece(padded_to(s.0, 10), colored(ink())),
            piece("  "@ + s.1, colored(faint())),
        ]
    }
}

pub open spec fn suggestions_shown(list: Seq<(Seq<char>, Seq<char>)>, selected: nat) -> Seq<
    Seq<Piece>,
> {
    Seq::new(list.len(), |i: int| suggestion_row(list[i], i == selected))
}

/// The suggestions as lines.
pub fn suggestion_lines(list: &Vec<(String, String)>, selected: usize) -> (r: Vec<Line>)
    ensures
        rows(r@) == suggestions_shown(pair_texts(list@), selected as nat),
{
    let ghost goal = suggestions_shown(pair_texts(list@), selected as nat);
    let mut out = no_lines();
    for i in 0..list.len()
        invariant
            goal == suggestions_shown(pair_texts(list@), selected as nat),
            rows(out@) == goal.take(i as int),
    {
        let (command, about) = &list[i];
        let name = pad_to(command.as_str(), 10);
        let rest = cat2("  ", about.as_str());
        let line = if i == selected {
            line3(
                span("▍ ", colored(accent())),
                Span { text: name, style: colored(accent()).bolded() },
                Span { text: rest, style: subtle() },
            )
        } else {
            line3(
                raw_span("  "),
                Span { text: name, style: colored(ink()) },
                Span { text: rest, style: colored(faint()) },
            )
        };
        proof {
            assert(pair_texts(list@)[i as int] == (command@, about@));
            assert(line@ =~= goal[i as int]);
            assert(goal.take(i + 1) =~= goal.take(i as int).push(goal[i as int]));
        }
        push_line(&mut out, line);
    }
    assert(goal.take(goal.len() as int) =~= goal);
    out
}

} // verus!
