//! What the commands at the prompt do, and what reading the state of a conversation
//! comes to.
use crate::app::{Around, Desk, Screen, acknowledged, alive, busy, restarted, spawned};
use crate::commands::{
    argument, checkpoint_for, commanded, compact_command, goal_command, goal_text, mode_command,
    model_command, name_taken_note, new_command, resume_command, rewinding, theme_command,
};
use crate::connecting::Ending;
use crate::effects::{Deed, Message, Receipt, told_loop};
use crate::events::{Conversation, Happening, HarnessStatus, LaneStatus};
use crate::lexis::{texts_hold_their_parts, trimming_takes_the_white_space_around};
use crate::prompt::{image_path, pasted_in};
use crate::text::{blank, ends, is_white, lowered, occurs, starts, words};
use crate::ticking::{
    Attaching, Glance, Reading, Shot, attached_name, file_attached, image_attached, looked,
    loop_over, pasted_text, state_read, times_compacted, turn_over,
};
use vstd::prelude::*;

verus! {

// ---------------------------------------------------------------------------
// Commands
// ---------------------------------------------------------------------------

/// Nothing of this is said to the agent, and no call is approved by it.
pub open spec fn unsaid(out: Seq<Deed>) -> bool {
    forall|i: int|
        0 <= i < out.len() ==> match #[trigger] out[i] {
            Deed::Send { input, .. } => !(input is UserMessage) && !(input is Answer) && !(
            input is Approve) && !(input is ApproveAll),
            Deed::Spawn { initial } => initial is None,
            Deed::Submit { .. } => false,
            _ => true,
        }
}

proof fn lemma_unsaid_opening(d: Desk, name: Option<Seq<char>>, w: Around)
    ensures
        unsaid(new_command(d, name, w).1),
        unsaid(resume_command(d, name, w).1),
{
}

proof fn lemma_unsaid_others(d: Desk, name: Option<Seq<char>>, w: Around)
    ensures
        unsaid(model_command(d, w).1),
        unsaid(theme_command(d, name, w).1),
        unsaid(mode_command(d).1),
        unsaid(compact_command(d).1),
{
}

proof fn lemma_unsaid_goal(d: Desk, goal: Seq<char>, w: Around)
    ensures
        unsaid(goal_command(d, goal, w).1),
        unsaid(rewinding(d, goal, w).1),
{
}

/// What begins with a slash is a command, and never said to the agent.
pub proof fn commands_are_not_said(d: Desk, text: Seq<char>, w: Around)
    ensures
        unsaid(commanded(d, text, w).1),
{
    let parts = words(text);
    lemma_unsaid_opening(d, argument(parts), w);
    lemma_unsaid_others(d, argument(parts), w);
    lemma_unsaid_goal(d, goal_text(text), w);
    if parts.len() > 1 {
        lemma_unsaid_goal(d, parts[1], w);
    }
}

proof fn lemma_command_names()
    ensures
        "/new"@.len() == 4,
        "/resume"@.len() == 7 && "/resume"@[3] == 's',
        "/model"@.len() == 6 && "/model"@[1] == 'm',
        "/rewind"@.len() == 7 && "/rewind"@[3] == 'w',
        "/mode"@.len() == 5 && "/mode"@[1] == 'm',
        "/compact"@.len() == 8,
        "/goal"@.len() == 5 && "/goal"@[1] == 'g',
        "/theme"@.len() == 6 && "/theme"@[1] == 't',
{
    reveal_strlit("/new");
    reveal_strlit("/resume");
    reveal_strlit("/model");
    reveal_strlit("/rewind");
    reveal_strlit("/mode");
    reveal_strlit("/compact");
    reveal_strlit("/goal");
    reveal_strlit("/theme");
}

/// `/new` opens a conversation of that name, or of a fresh one, where there is none
/// yet; `/resume` opens one that is there and resumes it. A name that does not fit
/// changes nothing but what is said, and what is said names it.
pub proof fn conversations_are_opened_by_name(d: Desk, text: Seq<char>, w: Around)
    ensures
        ({
            let parts = words(text);
            let (e, out) = commanded(d, text, w);
            let known = |n: Seq<char>|
                exists|i: int| 0 <= i < w.sessions.len() && (#[trigger] w.sessions[i]).0 == n;
            &&& parts == seq!["/new"@] ==> e.conversation == w.fresh_name && out.last()
                == Deed::Open
            &&& parts.len() > 1 && parts[0] == "/new"@ && !known(parts[1]) ==> e.conversation
                == parts[1] && out.last() == Deed::Open && e.state is None && e.queued.len() == 0
            &&& parts.len() > 1 && parts[0] == "/new"@ && known(parts[1]) ==> e == (Desk {
                status: e.status,
                ..d
            }) && out.len() == 0 && occurs(e.status, parts[1])
            &&& parts.len() > 1 && parts[0] == "/resume"@ && known(parts[1]) ==> e.conversation
                == parts[1] && out.last() == Deed::TryResume && e.state is None
                && e.queued.len() == 0
            &&& parts.len() > 1 && parts[0] == "/resume"@ && !known(parts[1]) ==> e == (Desk {
                status: e.status,
                ..d
            }) && out.len() == 0 && occurs(e.status, parts[1])
            &&& parts == seq!["/resume"@] && w.sessions.len() > 0 ==> e.screen
                == Screen::ResumeSelection && e.picking.list == Some(w.sessions)
                && e.picking.selected == 0 && !e.picking.deleting && out.len() == 0
            &&& parts == seq!["/resume"@] && w.sessions.len() == 0 && !alive(d, w) ==> out == seq![
                Deed::ResumeLast,
            ]
        }),
{
    lemma_command_names();
    let parts = words(text);
    if parts.len() > 1 {
        let n = parts[1];
        let rest = "` already exists — /resume "@ + n + " to open it, or pick another name"@;
        texts_hold_their_parts("`"@, n, rest);
        assert(name_taken_note(n) =~= "`"@ + n + rest);
        texts_hold_their_parts(
            "no session named `"@,
            n,
            "` — bare /resume opens the picker"@,
        );
    }
}

/// `/mode` turns approval by hand on or off, keeps it, and tells the loop.
pub proof fn mode_turns_approval_over(d: Desk, text: Seq<char>, w: Around)
    requires
        words(text).len() > 0,
        words(text)[0] == "/mode"@,
    ensures
        ({
            let (e, out) = commanded(d, text, w);
            &&& e.manual == !d.manual
            &&& e == (Desk { manual: e.manual, status: e.status, ..d })
            &&& out[0] == (Deed::SetManual { manual: e.manual })
            &&& d.linked ==> out.len() == 2 && out[1] == told_loop(
                Message::SetMode { manual: e.manual },
            )
            &&& !d.linked ==> out.len() == 1
        }),
{
    lemma_command_names();
}

/// `/compact` asks a loop that listens to compact, and nothing else.
pub proof fn compact_asks_the_loop(d: Desk, text: Seq<char>, w: Around)
    requires
        words(text).len() > 0,
        words(text)[0] == "/compact"@,
    ensures
        d.linked ==> commanded(d, text, w) == (
            d,
            seq![Deed::Send { input: Message::Compact, receipt: Receipt::Compaction }],
        ),
        !d.linked ==> commanded(d, text, w).1.len() == 0,
{
    lemma_command_names();
}

/// `/model` lists the profiles, but not while a turn goes on.
pub proof fn model_waits_for_the_turn(d: Desk, text: Seq<char>, w: Around)
    requires
        words(text).len() > 0,
        words(text)[0] == "/model"@,
    ensures
        busy(d, w) ==> commanded(d, text, w).1.len() == 0,
        !busy(d, w) ==> commanded(d, text, w).1 == seq![Deed::ListProfiles],
{
    lemma_command_names();
}

/// A goal is what stands behind the command, without the white space around it.
pub proof fn a_goal_is_what_follows(gap: Seq<char>, goal: Seq<char>, v: Seq<char>)
    requires
        blank(gap),
        blank(v),
        goal.len() > 0,
        !is_white(goal[0]),
        !is_white(goal.last()),
    ensures
        goal_text("/goal"@ + (gap + goal + v)) == goal,
{
    let text = "/goal"@ + (gap + goal + v);
    texts_hold_their_parts(text, "/goal"@, gap + goal + v);
    assert(text.skip("/goal"@.len() as int) =~= gap + goal + v);
    trimming_takes_the_white_space_around(gap, goal, v);
}

/// `cancel` and `stop`, however they are written, end the goal; no other text does.
/// Any other goal is set as it was given, by a loop that is started where there is
/// none.
pub proof fn goals_are_set_and_cancelled(d: Desk, goal: Seq<char>, w: Around)
    ensures
        ({
            let (e, out) = goal_command(d, goal, w);
            let ends_it = lowered(goal) == "cancel"@ || lowered(goal) == "stop"@;
            &&& ends_it && d.linked ==> out == seq![told_loop(Message::CancelGoal)]
            &&& ends_it && !d.linked ==> out.len() == 0
            &&& !ends_it && goal.len() == 0 ==> out.len() == 0
            &&& !ends_it && goal.len() > 0 && (d.linked || !alive(d, w)) ==> out.len() > 0
                && out.last() == (Deed::Send {
                input: Message::SetGoal { text: goal },
                receipt: Receipt::Goal,
            })
            &&& !ends_it && goal.len() > 0 && !alive(d, w) ==> out[0] == (Deed::Spawn {
                initial: None,
            }) && out.len() == 2
            &&& !ends_it && goal.len() > 0 && d.linked && alive(d, w) ==> out.len() == 1
        }),
{
}

/// The checkpoint that a beginning of an identifier names is the newest one that
/// fits, and there is none only where none fits.
pub proof fn the_newest_checkpoint_is_taken(
    a: Seq<(Seq<char>, Seq<char>)>,
    c: (Seq<char>, Seq<char>),
    b: Seq<(Seq<char>, Seq<char>)>,
    prefix: Seq<char>,
)
    requires
        starts(c.0, prefix),
        forall|i: int| 0 <= i < b.len() ==> !starts((#[trigger] b[i]).0, prefix),
    ensures
        checkpoint_for(a + seq![c] + b, prefix) == Some(c),
        checkpoint_for(b, prefix) is None,
    decreases b.len(),
{
    let all = a + seq![c] + b;
    if b.len() == 0 {
        assert(all.last() == c);
    } else {
        let rest = b.drop_last();
        assert(!starts(b[b.len() - 1].0, prefix));
        assert(all.drop_last() =~= a + seq![c] + rest);
        assert(all.last() == b.last());
        assert forall|i: int| 0 <= i < rest.len() implies !starts((#[trigger] rest[i]).0, prefix) by {
            assert(rest[i] == b[i]);
        }
        the_newest_checkpoint_is_taken(a, c, rest, prefix);
    }
}

/// Rewinding restores the checkpoint that was named, never while a turn goes on, and
/// otherwise only says why not.
pub proof fn rewinding_restores_the_named_checkpoint(d: Desk, prefix: Seq<char>, w: Around)
    ensures
        ({
            let (e, out) = rewinding(d, prefix, w);
            let there = match d.state {
                Some(c) => checkpoint_for(c.checkpoints, prefix),
                None => None,
            };
            &&& busy(d, w) || there is None ==> out.len() == 0 && e == (Desk {
                status: e.status,
                ..d
            })
            &&& !busy(d, w) && there is Some ==> out == seq![
                Deed::Rewind { id: (there->0).0, label: (there->0).1 },
            ] && e == d
        }),
{
}

/// An unknown command is named in what is said, and does nothing else.
pub proof fn unknown_commands_do_nothing(d: Desk, text: Seq<char>, w: Around)
    requires
        words(text).len() > 0,
        words(text)[0] != "/new"@,
        words(text)[0] != "/resume"@,
        words(text)[0] != "/model"@,
        words(text)[0] != "/rewind"@,
        words(text)[0] != "/mode"@,
        words(text)[0] != "/compact"@,
        words(text)[0] != "/goal"@,
        words(text)[0] != "/theme"@,
    ensures
        commanded(d, text, w).1.len() == 0,
        commanded(d, text, w).0 == (Desk { status: commanded(d, text, w).0.status, ..d }),
        occurs(commanded(d, text, w).0.status, words(text)[0]),
{
    texts_hold_their_parts(
        "Unknown command: "@,
        words(text)[0],
        ". Type /new, /resume, /rewind, /model, or /theme."@,
    );
}

// ---------------------------------------------------------------------------
// The loop
// ---------------------------------------------------------------------------

/// A loop is started where none goes on, with what it begins with; one that goes on
/// is left alone.
pub proof fn one_loop_at_a_time(d: Desk, w: Around, initial: Option<Seq<char>>)
    ensures
        d.held && !w.ended ==> spawned(d, w, initial) == (d, Seq::<Deed>::empty()),
        !(d.held && !w.ended) ==> spawned(d, w, initial).1 == seq![Deed::Spawn { initial }]
            && spawned(d, w, initial).0.held && spawned(d, w, initial).0.linked,
        restarted(d, w).1.len() > 0 <==> d.held && !w.ended,
        d.held && !w.ended ==> restarted(d, w).1 == seq![
            Deed::Abort,
            Deed::Spawn { initial: None },
        ],
{
}

/// A turn goes on while the loop is alive and something was handed over, the agent
/// runs or one of its lanes does.
pub proof fn a_turn_is_running_work(d: Desk, w: Around, i: int)
    ensures
        !d.held || w.ended ==> !busy(d, w),
        d.held && !w.ended && d.pending ==> busy(d, w),
        d.held && !w.ended && d.state is Some && d.state->0.status == HarnessStatus::Running
            ==> busy(d, w),
        d.held && !w.ended && d.state is Some && 0 <= i < d.state->0.lanes.len()
            && d.state->0.lanes[i].status == LaneStatus::Running ==> busy(d, w),
        busy(d, w) && !d.pending ==> d.state is Some && (d.state->0.status
            == HarnessStatus::Running || exists|k: int|
            0 <= k < d.state->0.lanes.len() && (#[trigger] d.state->0.lanes[k]).status
                == LaneStatus::Running),
{
}

/// What comes of handing something over: a turn that begins where it was taken, an
/// error where a message was not, and otherwise only what is said.
pub proof fn handing_over_is_acknowledged(d: Desk, receipt: Receipt, ok: bool)
    ensures
        ({
            let (e, out) = acknowledged(d, receipt, ok);
            &&& receipt == Receipt::Turn && ok ==> e == (Desk {
                pending: true,
                was_busy: true,
                ..d
            }) && out.len() == 0
            &&& receipt == Receipt::Turn && !ok ==> e.error is Some && !(e.pending && !d.pending)
            &&& receipt == Receipt::Ignored ==> e == d && out.len() == 0
            &&& receipt == Receipt::Compaction && ok ==> out.len() == 1 && out[0] is Stream
            &&& receipt != Receipt::Turn ==> e == (Desk { status: e.status, ..d })
            &&& !ok ==> out.len() == 0
        }),
{
}

/// A loop that is over is let go of; where it failed, the error is shown.
pub proof fn a_loop_that_is_over_is_let_go(d: Desk, e: Seq<char>)
    ensures
        !loop_over(d, Ending::Done(())).held && !loop_over(d, Ending::Done(())).linked,
        !loop_over(d, Ending::Failed(e)).held && !loop_over(d, Ending::Failed(e)).linked,
        !loop_over(d, Ending::Crashed(e)).held && !loop_over(d, Ending::Crashed(e)).linked,
        loop_over(d, Ending::Done(())).error == d.error,
        loop_over(d, Ending::Failed(e)).error == Some(e),
        loop_over(d, Ending::Crashed(e)).error == Some(e),
        loop_over(d, Ending::Failed(e)).queued == d.queued,
        loop_over(d, Ending::Failed(e)).draft == d.draft,
{
}

/// Held messages go out at the end of a turn, not before and not without one.
pub proof fn held_messages_wait_for_the_end(d: Desk, busy: bool)
    ensures
        busy ==> turn_over(d, busy) == (d, Seq::<Deed>::empty()),
        !d.was_busy ==> turn_over(d, busy) == (d, Seq::<Deed>::empty()),
        d.was_busy && !busy ==> turn_over(d, busy).0.queued.len() == 0 && turn_over(
            d,
            busy,
        ).1.len() == d.queued.len(),
        forall|i: int|
            d.was_busy && !busy && 0 <= i < d.queued.len() ==> #[trigger] turn_over(d, busy).1[i]
                == (Deed::Submit { text: d.queued[i] }),
{
}

/// A state that was read is shown; one that is unreadable or gone is not, and why it
/// could not be read is told.
pub proof fn what_is_read_is_shown(d: Desk, c: Conversation, e: Seq<char>)
    ensures
        state_read(d, Reading::Readable(c)) == (Desk { state: Some(c), ..d }),
        state_read(d, Reading::Unreadable).state is None,
        state_read(d, Reading::NotFound) == (Desk { state: None, stamp: None, ..d }),
        state_read(d, Reading::Failed(e)).state == d.state,
        state_read(d, Reading::Failed(e)).stamp is None,
        ends(state_read(d, Reading::Failed(e)).error->0, e),
{
    texts_hold_their_parts("state read error: "@, e, Seq::empty());
}

/// The state is read when it changed or it is not known whether it did.
pub proof fn a_change_is_read(d: Desk, t: i128)
    ensures
        d.stamp != Some(t) ==> looked(d, Glance::Changed(t)).1.read && looked(
            d,
            Glance::Changed(t),
        ).0.stamp == Some(t),
        d.stamp == Some(t) ==> !looked(d, Glance::Changed(t)).1.read,
        looked(d, Glance::Undated).1.read,
        looked(d, Glance::Missing).0.state is None,
        !looked(d, Glance::Missing).1.read,
{
}

/// What says that a turn is being interrupted goes when the turn is over, and
/// nothing else that is said.
pub proof fn interrupting_is_said_until_the_end(d: Desk, rest: Seq<char>)
    ensures
        d.status == "Interrupting"@ + rest ==> crate::ticking::settled(d, false).status.len() == 0,
        !starts(d.status, "Interrupting"@) ==> crate::ticking::settled(d, false).status
            == d.status,
        crate::ticking::settled(d, true).status == d.status,
        crate::ticking::settled(d, true).was_busy,
        !crate::ticking::settled(d, false).was_busy,
{
    texts_hold_their_parts(d.status, "Interrupting"@, rest);
    reveal_strlit("");
}

/// Every compaction among the events counts, and nothing else.
pub proof fn compactions_are_counted(a: Seq<Happening>, b: Seq<Happening>, e: Happening)
    ensures
        times_compacted(a + b) == times_compacted(a) + times_compacted(b),
        times_compacted(seq![e]) == (if e is SystemDecision && e->step == "history_compacted"@ {
            1nat
        } else {
            0
        }),
        times_compacted(Seq::empty()) == 0,
    decreases b.len(),
{
    reveal_with_fuel(times_compacted, 2);
    assert(seq![e].drop_last() =~= Seq::<Happening>::empty());
    if b.len() == 0 {
        assert(a + b =~= a);
    } else {
        assert((a + b).drop_last() =~= a + b.drop_last());
        assert((a + b).last() == b.last());
        compactions_are_counted(a, b.drop_last(), e);
    }
}

/// A paste into the form is one line, and one into the prompt goes to the cursor.
pub proof fn pastes_go_where_one_writes(d: Desk, text: Seq<char>)
    ensures
        d.connecting ==> pasted_text(d, text).draft == d.draft,
        !d.connecting ==> pasted_text(d, text).entry == d.entry,
        !d.connecting ==> pasted_text(d, text).draft == pasted_in(d.draft, text),
{
}

/// A file that was copied is attached, under its name, behind those that are, and a
/// file that was not is not.
pub proof fn copied_files_are_attached(d: Desk, source: Seq<char>, path: Seq<char>, e: Seq<char>)
    ensures
        ({
            let f = file_attached(d, source, Attaching::Copied { path });
            &&& f.draft.attached.drop_last() == d.draft.attached
            &&& f.draft.attached.last().path == path
            &&& f.draft.attached.last().image == image_path(source)
            &&& f.draft.input == d.draft.input
        }),
        file_attached(d, source, Attaching::NoPlace { error: e }).draft == d.draft,
        file_attached(d, source, Attaching::NotCopied { error: e }).draft == d.draft,
        ends(file_attached(d, source, Attaching::NoPlace { error: e }).status, e),
        ends(file_attached(d, source, Attaching::NotCopied { error: e }).status, e),
        ({
            let f = image_attached(d, Shot::Taken { path });
            &&& f.draft.attached.drop_last() == d.draft.attached
            &&& f.draft.attached.last().path == path
            &&& f.draft.attached.last().image
        }),
        image_attached(d, Shot::NoPlace { error: e }).draft == d.draft,
        image_attached(d, Shot::Absent { needs_tool: true }).draft == d.draft,
{
    let f = file_attached(d, source, Attaching::Copied { path });
    assert(f.draft.attached.drop_last() =~= d.draft.attached);
    let g = image_attached(d, Shot::Taken { path });
    assert(g.draft.attached.drop_last() =~= d.draft.attached);
    texts_hold_their_parts("couldn't attach: "@, e, Seq::empty());
    texts_hold_their_parts("couldn't attach "@ + attached_name(source) + ": "@, e, Seq::empty());
}

} // verus!
