//! What a key does, by what it changes and what it sends.
use crate::app::{Around, Desk, Screen, alive, busy, waiting_call};
use crate::asking::waiting_text;
use crate::effects::{Deed, Message, Receipt, told_loop};
use crate::events::HarnessStatus;
use crate::keyboard::{approval_key, offered, pressed};
use crate::keys::{Key, KeyCode};
use crate::prompt::{
    back_over, expanded_input, line_end, line_start, message, on_over, recalled_next,
};
use crate::text::{blank, decimal, is_white, lemma_blank_trimmed, starts, trimmed};
use vstd::prelude::*;

verus! {

/// A key without a modifier.
pub open spec fn bare(code: KeyCode) -> Key {
    Key { code, ctrl: false, alt: false, shift: false, command: false }
}

/// A letter with the control key.
pub open spec fn control(c: char) -> Key {
    Key { code: KeyCode::Char(c), ctrl: true, alt: false, shift: false, command: false }
}

/// Nothing but a message for the loop.
pub open spec fn only_sends(out: Seq<Deed>, input: Message) -> bool {
    out.len() == 1 && out[0] == (Deed::Send { input, receipt: Receipt::Ignored })
}

// ---------------------------------------------------------------------------
// Approving
// ---------------------------------------------------------------------------

/// A call waits for approval on the main screen.
pub open spec fn asked_to_approve(d: Desk) -> bool {
    d.screen == Screen::Main && !d.connecting && waiting_call(d) is Some
}

/// However many calls wait, `y` approves one and `n` denies it, and nothing else is
/// sent. `a` approves all, and only where there are several. Escape interrupts, and
/// no other key sends anything.
pub proof fn each_answer_is_sent_as_it_was_given(d: Desk, code: KeyCode, total: usize)
    requires
        d.linked,
    ensures
        ({
            let out = approval_key(d, code, total).1;
            &&& code == KeyCode::Char('y') || code == KeyCode::Char('Y') ==> only_sends(
                out,
                Message::Approve,
            )
            &&& code == KeyCode::Char('n') || code == KeyCode::Char('N') ==> only_sends(
                out,
                Message::Deny,
            )
            &&& code == KeyCode::Char('a') || code == KeyCode::Char('A') ==> if total > 1 {
                only_sends(out, Message::ApproveAll)
            } else {
                out.len() == 0
            }
            &&& code == KeyCode::Esc ==> only_sends(out, Message::Interrupt)
            &&& code != KeyCode::Char('y') && code != KeyCode::Char('Y') && code != KeyCode::Char(
                'n',
            ) && code != KeyCode::Char('N') && code != KeyCode::Char('a') && code != KeyCode::Char(
                'A',
            ) && code != KeyCode::Esc ==> out.len() == 0
        }),
{
}

/// The same holds of a key that is pressed while a call waits, with whatever
/// modifiers.
pub proof fn approval_keys_answer_the_call(d: Desk, key: Key, w: Around)
    requires
        asked_to_approve(d),
        d.linked,
    ensures
        ({
            let out = pressed(d, key, w).1;
            let c = key.code;
            &&& c == KeyCode::Char('y') || c == KeyCode::Char('Y') ==> only_sends(
                out,
                Message::Approve,
            )
            &&& c == KeyCode::Char('n') || c == KeyCode::Char('N') ==> only_sends(
                out,
                Message::Deny,
            )
            &&& (c == KeyCode::Char('a') || c == KeyCode::Char('A')) && (waiting_call(d)->0).3 > 1
                ==> only_sends(out, Message::ApproveAll)
            &&& c == KeyCode::Esc ==> only_sends(out, Message::Interrupt)
            &&& out.contains(told_loop(Message::ApproveAll)) ==> (c == KeyCode::Char('a') || c
                == KeyCode::Char('A')) && (waiting_call(d)->0).3 > 1
            &&& out.contains(told_loop(Message::Approve)) ==> c == KeyCode::Char('y') || c
                == KeyCode::Char('Y')
            &&& out.contains(told_loop(Message::Deny)) ==> c == KeyCode::Char('n') || c
                == KeyCode::Char('N')
        }),
{
}

/// Without a loop that listens nothing is sent.
pub proof fn without_a_loop_nothing_is_answered(d: Desk, key: Key, w: Around)
    requires
        asked_to_approve(d),
        !d.linked,
    ensures
        pressed(d, key, w).1.len() == 0,
{
}

// ---------------------------------------------------------------------------
// Editing
// ---------------------------------------------------------------------------

/// The prompt takes the keys: no form, no other screen, no call, no question and no
/// suggestion is in the way.
pub open spec fn at_prompt(d: Desk, w: Around) -> bool {
    &&& d.screen == Screen::Main
    &&& !d.connecting
    &&& waiting_call(d) is None
    &&& waiting_text(d.state) is None
    &&& offered(d, w).len() == 0
    &&& d.draft.cursor <= d.draft.input.len()
}

/// What a key at the prompt leaves as it is: all but the draft, the choice among the
/// suggestions and the error.
pub open spec fn only_drafted(d: Desk, e: Desk) -> bool {
    e == (Desk { draft: e.draft, suggestion: e.suggestion, error: None, ..d })
}

/// A character is put where the cursor is, which goes behind it.
pub proof fn characters_are_typed_at_the_cursor(
    d: Desk,
    a: Seq<char>,
    b: Seq<char>,
    c: char,
    w: Around,
)
    requires
        at_prompt(d, w),
        d.draft.input == a + b,
        d.draft.cursor == a.len(),
    ensures
        ({
            let (e, out) = pressed(d, bare(KeyCode::Char(c)), w);
            &&& e.draft.input == a + seq![c] + b
            &&& e.draft.cursor == a.len() + 1
            &&& e.draft.history == d.draft.history
            &&& e.draft.attached == d.draft.attached
            &&& out.len() == 0
            &&& only_drafted(d, e)
        }),
        ({
            let enter = Key {
                code: KeyCode::Enter,
                ctrl: false,
                alt: false,
                shift: true,
                command: false,
            };
            let (e, out) = pressed(d, enter, w);
            &&& e.draft.input == a + seq!['\n'] + b
            &&& e.draft.cursor == a.len() + 1
            &&& out.len() == 0
        }),
{
    lemma_prompted(d, w);
    assert((a + b).take(a.len() as int) =~= a);
    assert((a + b).skip(a.len() as int) =~= b);
}

/// Clearing the error changes nothing of what stands in the way of the prompt.
proof fn lemma_prompted(d: Desk, w: Around)
    requires
        at_prompt(d, w),
    ensures
        at_prompt(Desk { error: None, ..d }, w),
{
    assert(offered(Desk { error: None, ..d }, w) == offered(d, w));
}

/// Backspace takes the character before the cursor and Delete the one behind it.
pub proof fn one_character_is_taken(d: Desk, a: Seq<char>, x: char, b: Seq<char>, w: Around)
    requires
        at_prompt(d, w),
        d.draft.input == a + seq![x] + b,
    ensures
        d.draft.cursor == a.len() + 1 ==> {
            let (e, out) = pressed(d, bare(KeyCode::Backspace), w);
            e.draft.input == a + b && e.draft.cursor == a.len() && e.draft.attached
                == d.draft.attached && out.len() == 0
        },
        d.draft.cursor == a.len() ==> {
            let (e, out) = pressed(d, bare(KeyCode::Delete), w);
            e.draft.input == a + b && e.draft.cursor == a.len() && out.len() == 0
        },
{
    lemma_prompted(d, w);
    let s = a + seq![x] + b;
    assert(s.take(a.len() as int) =~= a);
    assert(s.skip(a.len() + 1int) =~= b);
}

/// Backspace at the beginning takes the last attachment, and says so.
pub proof fn backspace_at_the_beginning_takes_an_attachment(d: Desk, w: Around)
    requires
        at_prompt(d, w),
        d.draft.cursor == 0,
    ensures
        ({
            let (e, out) = pressed(d, bare(KeyCode::Backspace), w);
            &&& e.draft.input == d.draft.input
            &&& d.draft.attached.len() > 0 ==> e.draft.attached == d.draft.attached.drop_last()
                && starts(e.status, "attachment removed"@)
            &&& d.draft.attached.len() == 0 ==> e.draft == d.draft && e.status == d.status
            &&& out.len() == 0
        }),
{
    lemma_prompted(d, w);
    reveal_strlit("attachment removed");
    reveal_strlit("attachment removed · 📎 ");
    let n = (d.draft.attached.len() - 1) as nat;
    let s = "attachment removed · 📎 "@ + decimal(n) + " left"@;
    assert(s.subrange(0, 18) =~= "attachment removed"@);
    assert("attachment removed"@.subrange(0, 18) =~= "attachment removed"@);
}

/// The arrows move by a character, Home and End to the ends of what is written, and
/// none of them changes it.
pub proof fn moving_changes_no_text(d: Desk, w: Around)
    requires
        at_prompt(d, w),
        d.draft.input.len() > 0,
    ensures
        ({
            let c = d.draft.cursor;
            let left = pressed(d, bare(KeyCode::Left), w).0.draft;
            let right = pressed(d, bare(KeyCode::Right), w).0.draft;
            let home = pressed(d, bare(KeyCode::Home), w).0.draft;
            let end = pressed(d, bare(KeyCode::End), w).0.draft;
            &&& left.input == d.draft.input && right.input == d.draft.input && home.input
                == d.draft.input && end.input == d.draft.input
            &&& c > 0 ==> left.cursor == c - 1
            &&& c == 0 ==> left.cursor == 0
            &&& c < d.draft.input.len() ==> right.cursor == c + 1
            &&& c == d.draft.input.len() ==> right.cursor == c
            &&& home.cursor == 0
            &&& end.cursor == d.draft.input.len()
        }),
{
    lemma_prompted(d, w);
}

/// With the control key, `u` takes what stands before the cursor and `k` what stands
/// behind it; `a` and `e` go to the ends.
pub proof fn control_takes_what_is_before_or_behind(d: Desk, a: Seq<char>, b: Seq<char>, w: Around)
    requires
        at_prompt(d, w),
        d.draft.input == a + b,
        d.draft.cursor == a.len(),
    ensures
        pressed(d, control('u'), w).0.draft.input == b,
        pressed(d, control('u'), w).0.draft.cursor == 0,
        pressed(d, control('k'), w).0.draft.input == a,
        pressed(d, control('k'), w).0.draft.cursor == a.len(),
        pressed(d, control('a'), w).0.draft.cursor == 0,
        pressed(d, control('e'), w).0.draft.cursor == d.draft.input.len(),
        pressed(d, control('a'), w).0.draft.input == d.draft.input,
        pressed(d, control('e'), w).0.draft.input == d.draft.input,
{
    assert((a + b).take(0) + (a + b).skip(a.len() as int) =~= b);
    assert((a + b).take(a.len() as int) + (a + b).skip((a + b).len() as int) =~= a);
}

/// With the control key `w` takes the word before the cursor, with the white space
/// behind it, and nothing before the word.
pub proof fn control_w_takes_a_word(
    d: Desk,
    a: Seq<char>,
    word: Seq<char>,
    gap: Seq<char>,
    b: Seq<char>,
    w: Around,
)
    requires
        at_prompt(d, w),
        d.draft.input == a + word + gap + b,
        d.draft.cursor == (a + word + gap).len(),
        a.len() == 0 || is_white(a.last()),
        word.len() > 0,
        forall|i: int| 0 <= i < word.len() ==> !is_white(#[trigger] word[i]),
        blank(gap),
    ensures
        pressed(d, control('w'), w).0.draft.input == a + b,
        pressed(d, control('w'), w).0.draft.cursor == a.len(),
{
    let s = d.draft.input;
    let k = (a + word).len() as int;
    let e = (a + word + gap).len() as int;
    assert forall|i: int| k <= i < e implies is_white(#[trigger] s[i]) by {
        assert(s[i] == gap[i - k]);
    }
    assert forall|i: int| a.len() <= i < k implies !is_white(#[trigger] s[i]) by {
        assert(s[i] == word[i - a.len()]);
    }
    assert(s[k - 1] == word[word.len() - 1]);
    if a.len() > 0 {
        assert(s[a.len() - 1] == a.last());
    }
    lemma_back_over(s, e, k, true);
    lemma_back_over(s, k, a.len() as int, false);
    assert(s.take(a.len() as int) + s.skip(e) =~= a + b);
}

proof fn lemma_back_over(s: Seq<char>, i: int, k: int, white: bool)
    requires
        0 <= k <= i <= s.len(),
        forall|j: int| k <= j < i ==> is_white(#[trigger] s[j]) == white,
        k == 0 || is_white(s[k - 1]) != white,
    ensures
        back_over(s, i, white) == k,
    decreases i - k,
{
    if k < i {
        assert(is_white(s[i - 1]) == white);
        lemma_back_over(s, i - 1, k, white);
    }
}

proof fn lemma_on_over(s: Seq<char>, i: int, k: int, white: bool)
    requires
        0 <= i <= k <= s.len(),
        forall|j: int| i <= j < k ==> is_white(#[trigger] s[j]) == white,
        k == s.len() || is_white(s[k]) != white,
    ensures
        on_over(s, i, white) == k,
    decreases k - i,
{
    if i < k {
        assert(is_white(s[i]) == white);
        lemma_on_over(s, i + 1, k, white);
    }
}

/// With the alt key the arrows move to the beginning of the word before the cursor
/// and to the end of the one behind it, and Delete takes that one.
pub proof fn alt_moves_by_words(
    d: Desk,
    a: Seq<char>,
    gap: Seq<char>,
    word: Seq<char>,
    b: Seq<char>,
    w: Around,
)
    requires
        at_prompt(d, w),
        d.draft.input == a + gap + word + b,
        d.draft.cursor == a.len(),
        b.len() == 0 || is_white(b[0]),
        word.len() > 0,
        forall|i: int| 0 <= i < word.len() ==> !is_white(#[trigger] word[i]),
        blank(gap),
    ensures
        ({
            let right = Key { alt: true, ..bare(KeyCode::Right) };
            let delete = Key { alt: true, ..bare(KeyCode::Delete) };
            &&& pressed(d, right, w).0.draft.cursor == (a + gap + word).len()
            &&& pressed(d, right, w).0.draft.input == d.draft.input
            &&& pressed(d, delete, w).0.draft.input == a + b
            &&& pressed(d, delete, w).0.draft.cursor == a.len()
        }),
{
    lemma_prompted(d, w);
    let s = d.draft.input;
    let k = (a + gap).len() as int;
    let e = (a + gap + word).len() as int;
    assert forall|i: int| a.len() <= i < k implies is_white(#[trigger] s[i]) by {
        assert(s[i] == gap[i - a.len()]);
    }
    assert forall|i: int| k <= i < e implies !is_white(#[trigger] s[i]) by {
        assert(s[i] == word[i - k]);
    }
    assert(s[k] == word[0]);
    if b.len() > 0 {
        assert(s[e] == b[0]);
    }
    lemma_on_over(s, a.len() as int, k, true);
    lemma_on_over(s, k, e, false);
    assert(s.take(a.len() as int) + s.skip(e) =~= a + b);
}

/// Up goes to the line above and Down to the line below, in the same column as far
/// as the line is long enough.
pub proof fn lines_are_changed_in_the_same_column(
    d: Desk,
    a: Seq<char>,
    upper: Seq<char>,
    lower: Seq<char>,
    b: Seq<char>,
    column: nat,
    w: Around,
)
    requires
        at_prompt(d, w),
        d.draft.input == a + upper + seq!['\n'] + lower + b,
        a.len() == 0 || a.last() == '\n',
        b.len() == 0 || b[0] == '\n',
        !upper.contains('\n'),
        !lower.contains('\n'),
    ensures
        column <= lower.len() && d.draft.cursor == a.len() + upper.len() + 1 + column ==> {
            let e = pressed(d, bare(KeyCode::Up), w).0.draft;
            e.input == d.draft.input && e.cursor == a.len() + (if column <= upper.len() {
                column
            } else {
                upper.len()
            })
        },
        column <= upper.len() && d.draft.cursor == a.len() + column ==> {
            let e = pressed(d, bare(KeyCode::Down), w).0.draft;
            e.input == d.draft.input && e.cursor == a.len() + upper.len() + 1 + (if column
                <= lower.len() {
                column
            } else {
                lower.len()
            })
        },
{
    lemma_prompted(d, w);
    let s = d.draft.input;
    let p = a.len() as int;
    let q = p + upper.len();
    let r = q + 1 + lower.len();
    assert(s[q] == '\n');
    assert forall|i: int| p <= i < q implies #[trigger] s[i] != '\n' by {
        assert(s[i] == upper[i - p]);
        assert(upper.contains(upper[i - p]));
    }
    assert forall|i: int| q + 1 <= i < r implies #[trigger] s[i] != '\n' by {
        assert(s[i] == lower[i - q - 1]);
        assert(lower.contains(lower[i - q - 1]));
    }
    if p > 0 {
        assert(s[p - 1] == a.last());
    }
    if b.len() > 0 {
        assert(s[r] == b[0]);
    }
    if column <= lower.len() && d.draft.cursor == q + 1 + column {
        lemma_line_start(s, q + 1 + column, q + 1);
        lemma_line_start(s, q, p);
    }
    if column <= upper.len() && d.draft.cursor == p + column {
        lemma_line_start(s, p + column, p);
        lemma_line_end(s, p + column, q);
        lemma_line_end(s, q + 1, r);
    }
}

proof fn lemma_line_start(s: Seq<char>, i: int, k: int)
    requires
        0 <= k <= i <= s.len(),
        forall|j: int| k <= j < i ==> #[trigger] s[j] != '\n',
        k == 0 || s[k - 1] == '\n',
    ensures
        line_start(s, i) == k,
    decreases i - k,
{
    if k < i {
        assert(s[i - 1] != '\n');
        lemma_line_start(s, i - 1, k);
    }
}

proof fn lemma_line_end(s: Seq<char>, i: int, k: int)
    requires
        0 <= i <= k <= s.len(),
        forall|j: int| i <= j < k ==> #[trigger] s[j] != '\n',
        k == s.len() || s[k] == '\n',
    ensures
        line_end(s, i) == k,
    decreases k - i,
{
    if i < k {
        assert(s[i] != '\n');
        lemma_line_end(s, i + 1, k);
    }
}

/// In a text of one line Up brings back the last message that was sent, and Down
/// what was being written.
pub proof fn up_recalls_what_was_sent(d: Desk, w: Around)
    requires
        at_prompt(d, w),
        !d.draft.input.contains('\n'),
        d.draft.recalled is None,
        d.draft.history.len() > 0,
    ensures
        ({
            let up = pressed(d, bare(KeyCode::Up), w).0;
            &&& up.draft.input == d.draft.history.last()
            &&& up.draft.cursor == d.draft.history.last().len()
            &&& up.draft.recalled == Some((d.draft.history.len() - 1) as nat)
            &&& up.draft.history == d.draft.history
            &&& recalled_next(up.draft).input == expanded_input(d.draft)
        }),
{
    lemma_prompted(d, w);
    let s = d.draft.input;
    assert forall|j: int| 0 <= j < d.draft.cursor implies #[trigger] s[j] != '\n' by {
        assert(s.contains(s[j]));
    }
    lemma_line_start(s, d.draft.cursor as int, 0);
}

/// Page Up and Page Down scroll by ten lines, not beyond the ends.
pub proof fn pages_scroll_by_ten_lines(d: Desk, w: Around)
    requires
        at_prompt(d, w),
    ensures
        ({
            let up = pressed(d, bare(KeyCode::PageUp), w).0;
            let down = pressed(d, bare(KeyCode::PageDown), w).0;
            &&& d.scroll + 10 <= d.max_scroll ==> up.scroll == d.scroll + 10
            &&& d.scroll + 10 > d.max_scroll ==> up.scroll == d.max_scroll
            &&& d.scroll >= 10 ==> down.scroll == d.scroll - 10
            &&& d.scroll < 10 ==> down.scroll == 0
            &&& up.draft == d.draft && down.draft == d.draft
        }),
{
    lemma_prompted(d, w);
}

/// Escape empties what is being written. Where nothing is written it interrupts the
/// loop, and without a loop it does nothing.
pub proof fn escape_empties_before_it_interrupts(d: Desk, w: Around)
    requires
        at_prompt(d, w),
    ensures
        ({
            let (e, out) = pressed(d, bare(KeyCode::Esc), w);
            &&& d.draft.input.len() > 0 ==> e.draft.input.len() == 0 && e.draft.attached.len() == 0
                && e.draft.history == d.draft.history && out.len() == 0
            &&& d.draft.input.len() == 0 && d.held && !w.ended && d.linked ==> only_sends(
                out,
                Message::Interrupt,
            ) && e.draft == d.draft
            &&& d.draft.input.len() == 0 && !(d.held && !w.ended) ==> out.len() == 0 && e == (Desk {
                error: None,
                ..d
            })
        }),
{
    lemma_prompted(d, w);
}

/// With the control key `q` and `d` leave, `x` cancels what is held, `v` asks for
/// the image on the clipboard, and `r` starts a loop where none goes on.
pub proof fn control_keys_act_at_once(d: Desk, w: Around)
    requires
        !d.connecting,
        d.screen == Screen::Main,
        waiting_call(d) is None,
    ensures
        pressed(d, control('q'), w) == (
            Desk { quit: true, error: None, ..d },
            Seq::<Deed>::empty(),
        ),
        pressed(d, control('d'), w) == (
            Desk { quit: true, error: None, ..d },
            Seq::<Deed>::empty(),
        ),
        pressed(d, control('x'), w).0.queued.len() == 0,
        pressed(d, control('x'), w).1.len() == 0,
        d.queued.len() == 0 ==> pressed(d, control('x'), w).0 == (Desk { error: None, ..d }),
        pressed(d, control('v'), w) == (Desk { error: None, ..d }, seq![Deed::PasteImage]),
        d.held && !w.ended ==> pressed(d, control('r'), w).1.len() == 0,
        !(d.held && !w.ended) ==> pressed(d, control('r'), w).1 == seq![
            Deed::Spawn { initial: None },
        ] && pressed(d, control('r'), w).0.held && pressed(d, control('r'), w).0.linked,
{
}

// ---------------------------------------------------------------------------
// Sending
// ---------------------------------------------------------------------------

/// Enter sends what is written, without the white space around it, as one message
/// to a loop that listens and is idle, and starts a loop with it where there is
/// none. What is written is then gone from the prompt and the last that was sent.
pub proof fn enter_sends_what_is_written(d: Desk, w: Around)
    requires
        at_prompt(d, w),
        trimmed(message(d.draft)).len() > 0,
        trimmed(message(d.draft))[0] != '/',
        !busy(d, w),
    ensures
        ({
            let (e, out) = pressed(d, bare(KeyCode::Enter), w);
            let text = trimmed(message(d.draft));
            &&& out.len() == 1
            &&& d.linked && d.held && !w.ended ==> out[0] == (Deed::Send {
                input: if d.state is Some && d.state->0.status == HarnessStatus::WaitingForInput {
                    Message::Answer { text }
                } else {
                    Message::UserMessage { text }
                },
                receipt: Receipt::Turn,
            })
            &&& !(d.held && !w.ended) ==> out[0] == (Deed::Spawn { initial: Some(text) })
                && e.pending && e.held && e.linked
            &&& d.linked || !alive(d, w) ==> e.draft.input.len() == 0 && e.draft.history.last()
                == text && e.draft.attached.len() == 0
            &&& e.queued == d.queued
            &&& e.scroll == 0
        }) || (!d.linked && alive(d, w)),
{
    lemma_prompted(d, w);
}

/// Nothing but white space is not sent.
pub proof fn blank_text_is_not_sent(d: Desk, w: Around)
    requires
        at_prompt(d, w),
        blank(message(d.draft)),
    ensures
        pressed(d, bare(KeyCode::Enter), w).1.len() == 0,
        pressed(d, bare(KeyCode::Enter), w).0.draft == d.draft,
        pressed(d, bare(KeyCode::Enter), w).0.queued == d.queued,
{
    lemma_prompted(d, w);
    lemma_blank_trimmed(message(d.draft));
}

} // verus!
