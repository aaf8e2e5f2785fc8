//! What holds of the screen whatever is pressed and whatever happens.
use crate::app::{
    Around, Desk, Screen, acknowledged, alive, busy, send_if, submitted, switched, waiting_call,
};
use crate::commands::{
    commanded, mode_command, model_command, new_command, resume_command, resuming, rewinding,
    session_known, theme_command,
};
use crate::connecting::form_key;
use crate::effects::{Deed, Message, Receipt};
use crate::keyboard::{
    approval_key, control_key, main_key, offered, pressed, prompt_key, question_key,
    queue_cancelled, sent_off, submitting, suggestion_key, waiting_total, within,
};
use crate::keys::{Key, KeyCode};
use crate::pickers::{list_key, picked, resume_key, theme_key};
use crate::profiles::{activated, activated_here, activating, profiles_key};
use crate::prompt::{message, with_input};
use crate::text::trimmed;
use crate::ticking::{Glance, Reading, Sight, compactions, looked, state_read, turn_over};
use vstd::prelude::*;

verus! {

/// An error is shown until a key is pressed, whatever key it is.
pub proof fn a_key_clears_the_error(d: Desk, key: Key, w: Around)
    ensures
        pressed(d, key, w).0.error is None,
{
    let e = Desk { error: None, ..d };
    if e.connecting {
        lemma_form_key(e, key, w);
    } else if e.screen == Screen::Main && waiting_call(e) is Some {
        lemma_approval_key(e, key.code, waiting_total(e));
    } else if key.ctrl {
        lemma_control_key(e, key.code, w);
    } else if e.screen == Screen::Profiles {
        lemma_profiles_key(e, key.code, w);
    } else if e.screen == Screen::ThemeSelection {
        lemma_theme_key(e, key.code, w);
    } else if e.screen == Screen::ResumeSelection {
        lemma_resume_key(e, key.code, w);
    } else {
        lemma_main_key(e, key, w);
    }
}

proof fn lemma_main_key(d: Desk, key: Key, w: Around)
    requires
        d.error is None,
    ensures
        main_key(d, key, w).0.error is None,
{
    let (first, taken) = question_key(d, key.code, w);
    lemma_question_key(d, key.code, w);
    if !taken {
        let list = offered(first.0, w);
        if list.len() == 0 {
            lemma_prompt_key(first.0, key, w);
        } else {
            let f = within(first.0, list.len());
            lemma_suggestion_key(f, key.code, list, w);
            let (second, taken) = suggestion_key(f, key.code, list, w);
            if !taken {
                lemma_prompt_key(second.0, key, w);
            }
        }
    }
}

proof fn lemma_approval_key(d: Desk, code: KeyCode, total: usize)
    requires
        d.error is None,
    ensures
        approval_key(d, code, total).0.error is None,
{
}

proof fn lemma_control_key(d: Desk, code: KeyCode, w: Around)
    requires
        d.error is None,
    ensures
        control_key(d, code, w).0.error is None,
{
}

proof fn lemma_profiles_key(d: Desk, code: KeyCode, w: Around)
    requires
        d.error is None,
    ensures
        profiles_key(d, code, w).0.error is None,
{
}

proof fn lemma_theme_key(d: Desk, code: KeyCode, w: Around)
    requires
        d.error is None,
    ensures
        theme_key(d, code, w).0.error is None,
{
}

proof fn lemma_resume_key(d: Desk, code: KeyCode, w: Around)
    requires
        d.error is None,
    ensures
        resume_key(d, code, w).0.error is None,
{
}

proof fn lemma_form_key(d: Desk, key: Key, w: Around)
    requires
        d.error is None,
    ensures
        form_key(d, key, w).0.error is None,
{
}

proof fn lemma_question_key(d: Desk, code: KeyCode, w: Around)
    requires
        d.error is None,
    ensures
        question_key(d, code, w).0.0.error is None,
{
}

proof fn lemma_submitting(d: Desk, w: Around)
    requires
        d.error is None,
    ensures
        submitting(d, w).0.error is None,
{
    let text = trimmed(message(d.draft));
    if !d.connecting && text.len() > 0 && text[0] == '/' {
        lemma_commanded(sent_off(d, text), text, w);
    }
}

proof fn lemma_commanded(d: Desk, text: Seq<char>, w: Around)
    requires
        d.error is None,
    ensures
        commanded(d, text, w).0.error is None,
{
}

proof fn lemma_prompt_key(d: Desk, key: Key, w: Around)
    requires
        d.error is None,
    ensures
        prompt_key(d, key, w).0.error is None,
{
    lemma_submitting(d, w);
}

proof fn lemma_suggestion_key(
    d: Desk,
    code: KeyCode,
    list: Seq<(Seq<char>, Seq<char>)>,
    w: Around,
)
    requires
        d.error is None,
    ensures
        suggestion_key(d, code, list, w).0.0.error is None,
{
    lemma_submitting(Desk { draft: with_input(d.draft, list[d.suggestion as int].0), ..d }, w);
}

/// Nothing of a conversation stays when another is opened: no loop and no channel,
/// no message that was held for it, no turn that is waited for, no error and no
/// state. So nothing that was held goes out in the new one.
pub proof fn switching_keeps_nothing(d: Desk, name: Seq<char>, w: Around, now_busy: bool)
    ensures
        ({
            let e = switched(d, name).0;
            &&& e.conversation == name
            &&& !alive(e, w)
            &&& !busy(e, w)
            &&& !e.linked
            &&& e.state is None
            &&& e.queued.len() == 0
            &&& e.error is None
            &&& turn_over(e, now_busy).1.len() == 0
        }),
{
}

/// A conversation that is opened with compactions in it shows none as new.
pub proof fn old_compactions_are_not_news(d: Desk, name: Seq<char>, g: Glance, s: Reading)
    requires
        compactions(state_read(looked(switched(d, name).0, g).0, s)) <= usize::MAX,
    ensures
        ({
            let e = state_read(looked(switched(d, name).0, g).0, s);
            compactions(e) <= e.seen_compactions
        }),
{
}

/// Opening a conversation ends the loop before anything else is asked of it, so
/// that the one that is resumed starts afresh.
pub proof fn resuming_a_conversation_starts_a_loop(d: Desk, name: Seq<char>, w: Around)
    requires
        session_known(w.sessions, name),
    ensures
        ({
            let (e, first) = resume_command(d, Some(name), w);
            let (f, later) = resuming(e, true, w);
            &&& d.held ==> first.contains(Deed::Abort)
            &&& first.last() == Deed::TryResume
            &&& later == seq![Deed::Spawn { initial: None }]
            &&& f.conversation == name
        }),
{
    let (_, out) = switched(d, name);
    if d.held {
        let n = send_if(d.linked, Message::Interrupt).len() as int;
        assert(out[n] == Deed::Abort);
        assert(out.push(Deed::TryResume)[n] == Deed::Abort);
    }
}

/// A name that is taken is not opened by `/new`, and one that is not known is not
/// opened by `/resume`: the conversation stays as it is.
pub proof fn mistaken_names_change_nothing(d: Desk, name: Seq<char>, w: Around)
    ensures
        session_known(w.sessions, name) ==> {
            let (e, out) = new_command(d, Some(name), w);
            out.len() == 0 && e == (Desk { status: e.status, ..d })
        },
        !session_known(w.sessions, name) ==> {
            let (e, out) = resume_command(d, Some(name), w);
            out.len() == 0 && e == (Desk { status: e.status, ..d })
        },
{
}

/// A message that is entered while a turn goes on is held, and not sent into it.
pub proof fn messages_wait_for_the_turn(d: Desk, w: Around)
    requires
        busy(d, w),
        !d.connecting,
        ({
            let text = trimmed(message(d.draft));
            text.len() > 0 && text[0] != '/'
        }),
    ensures
        ({
            let (e, out) = submitting(d, w);
            &&& out.len() == 0
            &&& e.queued == d.queued.push(trimmed(message(d.draft)))
            &&& e.draft.input.len() == 0
        }),
{
}

/// A message that was handed over counts as a turn until the state shows it, so
/// that the next one is held.
pub proof fn a_sent_message_makes_a_turn(d: Desk, text: Seq<char>, w: Around, next: Around)
    requires
        !next.ended,
    ensures
        ({
            let (e, out) = submitted(d, text, w);
            let f = if d.linked && alive(d, w) {
                acknowledged(e, Receipt::Turn, true).0
            } else {
                e
            };
            busy(f, next)
        }),
{
}

/// When a turn is over, all that was held goes out, in the order in which it was
/// entered, each message for itself.
pub proof fn held_messages_go_out_in_order(d: Desk)
    requires
        d.was_busy,
    ensures
        ({
            let (e, out) = turn_over(d, false);
            &&& e.queued.len() == 0
            &&& out.len() == d.queued.len()
            &&& forall|i: int|
                0 <= i < out.len() ==> #[trigger] out[i] == (Deed::Submit { text: d.queued[i] })
        }),
{
}

/// What is held and then cancelled never goes out.
pub proof fn cancelled_messages_never_go_out(d: Desk, now_busy: bool)
    ensures
        queue_cancelled(d).0.queued.len() == 0,
        turn_over(queue_cancelled(d).0, now_busy).1.len() == 0,
{
}

/// Ctrl-C interrupts a turn and never leaves then; without a turn it leaves.
pub proof fn control_c_leaves_only_when_idle(d: Desk, w: Around)
    requires
        !d.quit,
        d.screen != Screen::Main || waiting_call(d) is None,
        !d.connecting,
    ensures
        ({
            let key = Key {
                code: KeyCode::Char('c'),
                ctrl: true,
                alt: false,
                shift: false,
                command: false,
            };
            pressed(d, key, w).0.quit == !busy(d, w)
        }),
{
}

/// While a call waits for approval on the main screen, no key edits the prompt,
/// quits or changes anything but what is said.
pub proof fn approval_owns_the_keys(d: Desk, key: Key, w: Around)
    requires
        d.screen == Screen::Main,
        waiting_call(d) is Some,
        !d.connecting,
    ensures
        ({
            let e = pressed(d, key, w).0;
            e == (Desk { status: e.status, error: None, ..d })
        }),
{
}

/// Approving all is not offered for a single call: that key does nothing then.
pub proof fn one_call_is_not_approved_as_all(d: Desk, c: char)
    requires
        c == 'a' || c == 'A',
    ensures
        approval_key(d, KeyCode::Char(c), 1) == (d, Seq::<Deed>::empty()),
{
}

/// A chord never types its letter into the form, where it would not be seen in the
/// key. Only where it takes up an account that is signed in does the form change,
/// and then it holds no key.
pub proof fn chords_are_not_typed(d: Desk, key: Key, w: Around)
    requires
        d.connecting,
        key.code is Char,
        key.ctrl || key.alt || key.command,
    ensures
        ({
            let e = pressed(d, key, w).0;
            ||| e.entry == d.entry
            ||| w.signed_in && d.entry.provider == "chatgpt"@ && e.entry.api_key.len() == 0
        }),
{
    reveal_strlit("");
}

/// Giving up the form gives back the configuration that was there before.
pub proof fn giving_up_restores(d: Desk, key: Key, w: Around)
    requires
        d.connecting,
        key.code == KeyCode::Esc,
    ensures
        ({
            let (e, out) = pressed(d, key, w);
            out.len() > 0 && out[0] == Deed::RestoreConfig && !e.connecting
        }),
{
}

/// A profile is never switched under a turn that goes on.
pub proof fn models_are_not_switched_under_a_turn(d: Desk, name: Seq<char>, w: Around)
    requires
        busy(d, w),
    ensures
        activating(d, name, w).1.len() == 0,
        activated_here(d, name, w).1.len() == 0,
        model_command(d, w).1.len() == 0,
        rewinding(d, name, w).1.len() == 0,
{
}

/// A conversation with a profile of its own goes on undisturbed when another is
/// made the one in use for all.
pub proof fn an_own_profile_stays(
    d: Desk,
    name: Seq<char>,
    now: Option<(Seq<char>, Seq<char>)>,
    w: Around,
)
    ensures
        ({
            let out = activated(d, name, now, true, w).1;
            forall|i: int|
                0 <= i < out.len() ==> #[trigger] out[i] != Deed::Abort && !(out[i] is Spawn)
        }),
{
}

/// Deleting a conversation takes two presses, and any other choice takes the first
/// one back.
pub proof fn deleting_takes_two_presses(d: Desk, list: Seq<(Seq<char>, Seq<char>)>)
    requires
        list.len() > 0,
        !d.picking.deleting,
    ensures
        ({
            let d_key = KeyCode::Char('d');
            let (once, first) = list_key(d, d_key, list);
            let (_, second) = list_key(once, d_key, list);
            &&& first.len() == 0
            &&& second.len() > 0 && second[0] == (Deed::DeleteSession {
                name: picked(d, list).0,
            })
            &&& list_key(list_key(once, KeyCode::Up, list).0, d_key, list).1.len() == 0
            &&& list_key(list_key(once, KeyCode::Down, list).0, d_key, list).1.len() == 0
        }),
{
}

/// Whatever was looked at in between, giving up the choice of a palette shows the
/// one again that was there when it was opened.
pub proof fn giving_up_shows_the_first_palette(d: Desk, code: KeyCode, w: Around)
    ensures
        theme_command(d, None, w).0.theme_original == w.theme,
        theme_key(d, code, w).0.theme_original == d.theme_original,
        theme_key(d, KeyCode::Esc, w).1 == seq![Deed::ShowTheme { index: d.theme_original }],
{
}

/// A state file that has not changed is not read again; one that has ends the
/// waiting for it.
pub proof fn unchanged_state_is_not_read(d: Desk, t: i128)
    ensures
        looked(looked(d, Glance::Changed(t)).0, Glance::Changed(t)).1 == (Sight {
            read: false,
            committed: false,
        }),
        d.stamp != Some(t) ==> !looked(d, Glance::Changed(t)).0.pending,
{
}

/// Switching the mode twice leaves it as it was.
pub proof fn two_switches_are_none(d: Desk)
    ensures
        mode_command(mode_command(d).0).0.manual == d.manual,
{
}

} // verus!
