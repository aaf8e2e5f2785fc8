//! What is said to the agent and what it asks: prompts with pastes and attachments,
//! suggestions, questions with their answers, and messages with recordings.
use crate::app::{Around, Desk};
use crate::asking::{
    Inquiry, Replied, answered, combined, numbered_answers, questions, waiting_text,
};
use crate::effects::{Deed, Message, Receipt};
use crate::events::{Conversation, Happening, HarnessStatus, approval};
use crate::form::turned_by_one;
use crate::json::{Value, items_of, member, text_or_empty};
use crate::keyboard::{answer_sent, choices, noticed, question_key, suggestion_key};
use crate::keys::KeyCode;
use crate::lexis::{texts_hold_their_parts, trimming_takes_the_white_space_around};
use crate::messages::{
    Sections, bracketed, counted_noun, file_rows, section_begins, section_end, sections_from,
    stacked, summary, tagged,
};
use crate::paths::{base_name, joined_name_is_file_name, last_at, path_joined, stem_and_extension};
use crate::prompt::{
    Attached, Draft, attachment_line_text, clean_paste, expanded_input, image_path, message,
    pasted_in, path_in, recalled_next, recalled_prev, remembered,
};
use crate::questions::{answer_kind, choice, member_of, options, text_of_question};
use crate::style::Piece;
use crate::suggestions::{after, commands, resumable, suggested};
use crate::table::{larger, lemma_joined_concat};
use crate::text::{
    blank, decimal, ends, is_white, joined, lemma_blank_trimmed, lemma_replaced_absent, line_list,
    lowered, occurs, occurs_at, repeated, starts, trimmed, trimmed_start,
};
use crate::wrap::wrapped;
use vstd::prelude::*;

verus! {

// ---------------------------------------------------------------------------
// Prompts
// ---------------------------------------------------------------------------

/// A message is what is written, then each attachment in a line of its own, by its
/// path, in the order in which they were attached.
pub proof fn messages_name_their_attachments(d: Draft, a: Attached)
    ensures
        d.attached.len() == 0 ==> message(d) == expanded_input(d),
        ({
            let e = Draft { attached: d.attached.push(a), ..d };
            &&& message(d).len() > 0 ==> starts(message(e), message(d) + "\n"@)
            &&& occurs(message(e), a.path)
            &&& ends(message(e), a.path + "]"@)
        }),
{
    let e = Draft { attached: d.attached.push(a), ..d };
    assert(e.attached.drop_last() =~= d.attached);
    assert(expanded_input(e) == expanded_input(d));
    let line = attachment_line_text(a);
    let before = message(d);
    let lead = if a.image {
        "[attached image — call read_image on this exact path to view it: "@
    } else {
        "[attached file — read it at this exact path: "@
    };
    if before.len() > 0 {
        texts_hold_their_parts(Seq::empty(), before + "\n"@, line);
        lemma_path_at_the_end(before + "\n"@, lead, a.path);
    } else {
        lemma_path_at_the_end(Seq::empty(), lead, a.path);
        assert(Seq::<char>::empty() + line =~= line);
    }
}

proof fn lemma_path_at_the_end(front: Seq<char>, lead: Seq<char>, path: Seq<char>)
    ensures
        occurs(front + (lead + path + "]"@), path),
        ends(front + (lead + path + "]"@), path + "]"@),
{
    lemma_grouped(front, lead + path, "]"@);
    lemma_grouped(front, lead, path);
    lemma_grouped(front + lead, path, "]"@);
    texts_hold_their_parts(front + lead, path, "]"@);
    texts_hold_their_parts(front + lead, path + "]"@, Seq::empty());
}

pub proof fn lemma_grouped(a: Seq<char>, b: Seq<char>, c: Seq<char>)
    ensures
        a + (b + c) == a + b + c,
{
    assert(a + (b + c) =~= a + b + c);
}

/// A short paste of one line is put at the cursor as it is. A longer one, or one of
/// several lines, is put aside, and something short stands for it that tells how many
/// lines it has.
pub proof fn long_pastes_are_put_aside(d: Draft, text: Seq<char>)
    requires
        !text.contains('\r'),
        d.cursor <= d.input.len(),
    ensures
        ({
            let e = pasted_in(d, text);
            let n = line_list(text).len();
            let here = d.cursor as int;
            &&& n <= 1 && text.len() <= 200 ==> e.input == d.input.take(here) + text + d.input.skip(
                here,
            ) && e.pasted == d.pasted && e.cursor == d.cursor + text.len()
            &&& n > 1 || text.len() > 200 ==> e.pasted.drop_last() == d.pasted
                && e.pasted.last().1 == text && occurs(e.pasted.last().0, decimal(
                if n > 1 {
                    n
                } else {
                    1
                },
            )) && e.input == d.input.take(here) + e.pasted.last().0 + d.input.skip(here)
        }),
{
    lemma_keep_all(text);
    let n = line_list(text).len();
    let m = larger(n, 1);
    let e = pasted_in(d, text);
    if n > 1 || text.len() > 200 {
        assert(e.pasted.drop_last() =~= d.pasted);
        texts_hold_their_parts(
            "[Pasted #"@ + decimal(d.pasted.len() + 1) + " · "@,
            decimal(m),
            if m == 1 {
                " line]"@
            } else {
                " lines]"@
            },
        );
    }
}

proof fn lemma_keep_all(text: Seq<char>)
    requires
        !text.contains('\r'),
    ensures
        clean_paste(text) == text,
    decreases text.len(),
{
    reveal(Seq::filter);
    if text.len() > 0 {
        let rest = text.drop_last();
        assert(!rest.contains('\r')) by {
            if rest.contains('\r') {
                let i = choose|i: int| 0 <= i < rest.len() && rest[i] == '\r';
                assert(text[i] == '\r');
            }
        }
        lemma_keep_all(rest);
        assert(text.contains(text[text.len() - 1]));
        assert(text =~= rest.push(text.last()));
    } else {
        assert(text =~= Seq::<char>::empty());
    }
}

/// A message is remembered once where it is sent twice in a row, and the prompt is
/// empty afterwards.
pub proof fn messages_are_remembered_once(d: Draft, s: Seq<char>)
    ensures
        remembered(d, s).history.last() == s,
        remembered(remembered(d, s), s).history == remembered(d, s).history,
        d.history.len() > 0 && d.history.last() == s ==> remembered(d, s).history == d.history,
        d.history.len() == 0 || d.history.last() != s ==> remembered(d, s).history.drop_last()
            == d.history,
        remembered(d, s).input.len() == 0,
        remembered(d, s).pasted.len() == 0,
        remembered(d, s).attached.len() == 0,
        remembered(d, s).recalled is None,
{
    if d.history.len() == 0 || d.history.last() != s {
        assert(d.history.push(s).drop_last() =~= d.history);
    }
}

/// Going back through what was sent shows it from the newest to the oldest, and not
/// beyond.
pub proof fn recalling_goes_from_the_newest(d: Draft, p: nat)
    requires
        d.history.len() > 0,
        p < d.history.len(),
    ensures
        d.recalled is None ==> recalled_prev(d).input == d.history.last(),
        d.recalled == Some(p) && p > 0 ==> recalled_prev(d).input == d.history[p - 1]
            && recalled_prev(d).recalled == Some((p - 1) as nat),
        d.recalled == Some(0nat) ==> recalled_prev(d) == d,
        d.recalled == Some(p) && p + 1 < d.history.len() ==> recalled_next(d).input
            == d.history[p as int + 1],
        d.recalled == Some(p) && p + 1 == d.history.len() ==> recalled_next(d).input == d.kept
            && recalled_next(d).recalled is None,
        d.recalled is None ==> recalled_next(d) == d,
        recalled_prev(d).history == d.history && recalled_next(d).history == d.history,
{
}

/// A path may stand in quotation marks; without any, and without backslashes, it is
/// taken as it is.
pub proof fn quoted_paths_are_unquoted(w: Seq<char>, path: Seq<char>, v: Seq<char>, q: char)
    requires
        blank(w),
        blank(v),
        path.len() > 0,
        !path.contains('\\'),
        q == '\'' || q == '"',
    ensures
        path_in(w + (seq![q] + path + seq![q]) + v) == Some(path),
        !is_white(path[0]) && !is_white(path.last()) && path[0] != '\'' && path[0] != '"'
            ==> path_in(w + path + v) == Some(path),
        path_in(w) is None,
{
    reveal_strlit("\\ ");
    reveal_strlit("\\\\");
    reveal_strlit(" ");
    reveal_strlit("\\");
    let t = seq![q] + path + seq![q];
    assert(t[0] == q && t.last() == q);
    trimming_takes_the_white_space_around(w, t, v);
    assert(t.subrange(1, t.len() - 1) =~= path);
    lemma_no_backslash(path, "\\ "@);
    lemma_no_backslash(path, "\\\\"@);
    lemma_replaced_absent(path, "\\ "@, " "@);
    lemma_replaced_absent(path, "\\\\"@, "\\"@);
    if !is_white(path[0]) && !is_white(path.last()) {
        trimming_takes_the_white_space_around(w, path, v);
    }
    lemma_blank_trimmed(w);
}

proof fn lemma_no_backslash(path: Seq<char>, p: Seq<char>)
    requires
        !path.contains('\\'),
        p.len() > 0,
        p[0] == '\\',
    ensures
        !occurs(path, p),
{
    if occurs(path, p) {
        let i = choose|i: int| occurs_at(path, p, i);
        assert(path.subrange(i, i + p.len())[0] == path[i]);
        assert(path.contains(path[i]));
    }
}

/// A file is an image by its ending, in capitals or not.
pub proof fn images_are_known_by_their_ending(path: Seq<char>, ext: Seq<char>)
    requires
        stem_and_extension(path).1 == Some(ext),
    ensures
        image_path(path) <==> (lowered(ext) == "png"@ || lowered(ext) == "jpg"@ || lowered(ext)
            == "jpeg"@ || lowered(ext) == "gif"@ || lowered(ext) == "webp"@ || lowered(ext)
            == "bmp"@ || lowered(ext) == "heic"@ || lowered(ext) == "heif"@),
{
}

/// The ending of a file is what stands behind the last point of its name. A name
/// that has its only point in front has none.
pub proof fn endings_stand_behind_the_last_point(
    dir: Seq<char>,
    stem: Seq<char>,
    ext: Seq<char>,
)
    requires
        stem.len() > 0,
        ext.len() > 0,
        !stem.contains('/'),
        !ext.contains('/'),
        !ext.contains('.'),
        stem.len() + ext.len() > 1,
    ensures
        stem_and_extension(path_joined(dir, stem + seq!['.'] + ext)) == (Some(stem), Some(ext)),
        ext.len() > 1 ==> stem_and_extension(path_joined(dir, seq!['.'] + ext)) == (
            Some(seq!['.'] + ext),
            None::<Seq<char>>,
        ),
{
    let name = stem + seq!['.'] + ext;
    assert(!name.contains('/')) by {
        if name.contains('/') {
            let i = choose|i: int| 0 <= i < name.len() && name[i] == '/';
            if i < stem.len() {
                assert(stem[i] == '/');
            } else if i > stem.len() {
                assert(ext[i - stem.len() - 1] == '/');
            }
        }
    }
    joined_name_is_file_name(dir, name);
    lemma_last_at(stem, ext);
    assert(name.take(stem.len() as int) =~= stem);
    assert(name.skip(stem.len() + 1int) =~= ext);
    if ext.len() > 1 {
        let hidden = seq!['.'] + ext;
        let none = Seq::<char>::empty();
        assert(!hidden.contains('/')) by {
            if hidden.contains('/') {
                let i = choose|i: int| 0 <= i < hidden.len() && hidden[i] == '/';
                if i > 0 {
                    assert(ext[i - 1] == '/');
                }
            }
        }
        joined_name_is_file_name(dir, hidden);
        lemma_last_at(none, ext);
        assert(none + seq!['.'] + ext =~= hidden);
    }
}

proof fn lemma_last_at(a: Seq<char>, b: Seq<char>)
    requires
        !b.contains('.'),
    ensures
        last_at(a + seq!['.'] + b, '.') == Some(a.len() as int),
    decreases b.len(),
{
    let s = a + seq!['.'] + b;
    if b.len() == 0 {
        assert(s.last() == '.');
    } else {
        let r = b.drop_last();
        assert(b.contains(b[b.len() - 1]));
        assert(s.last() == b.last());
        assert(s.drop_last() =~= a + seq!['.'] + r);
        assert(!r.contains('.')) by {
            if r.contains('.') {
                let i = choose|i: int| 0 <= i < r.len() && r[i] == '.';
                assert(b[i] == '.');
            }
        }
        lemma_last_at(a, r);
    }
}

/// A part from the root stands for itself, and any other below what it is joined to.
pub proof fn paths_are_joined_with_one_slash(base: Seq<char>, part: Seq<char>)
    ensures
        part.len() > 0 && part[0] == '/' ==> path_joined(base, part) == part,
        (part.len() == 0 || part[0] != '/') && base.len() > 0 && base.last() != '/' ==> path_joined(
            base,
            part,
        ) == base + "/"@ + part,
        (part.len() == 0 || part[0] != '/') && (base.len() == 0 || base.last() == '/')
            ==> path_joined(base, part) == base + part,
{
}

// ---------------------------------------------------------------------------
// Suggestions
// ---------------------------------------------------------------------------

/// Commands are suggested to what begins with a slash and has no space: those that
/// begin with it, and no others.
pub proof fn commands_are_suggested_by_their_beginning(
    input: Seq<char>,
    sessions: Seq<(Seq<char>, Seq<char>)>,
    checkpoints: Seq<(Seq<char>, Seq<char>)>,
    k: int,
)
    ensures
        input.len() == 0 || input[0] != '/' ==> suggested(input, sessions, checkpoints).len() == 0,
        ({
            let list = suggested(input, sessions, checkpoints);
            let plain_input = input.len() > 0 && input[0] == '/' && !input.contains(' ') && !starts(
                input,
                "/resume"@,
            ) && !starts(input, "/rewind"@);
            &&& plain_input && 0 <= k < list.len() ==> commands().contains(list[k]) && starts(
                list[k].0,
                input,
            )
            &&& plain_input && 0 <= k < commands().len() && starts(commands()[k].0, input)
                ==> list.contains(commands()[k])
        }),
{
    let list = suggested(input, sessions, checkpoints);
    let f = |c: (Seq<char>, Seq<char>)| starts(c.0, input);
    if input.len() > 0 && input[0] == '/' && !input.contains(' ') && !starts(input, "/resume"@)
        && !starts(input, "/rewind"@) {
        if 0 <= k < list.len() {
            commands().lemma_filter_pred(f, k);
            lemma_filter_subset(commands(), f, k);
        }
        if 0 <= k < commands().len() && starts(commands()[k].0, input) {
            commands().lemma_filter_contains(f, k);
        }
    }
}

proof fn lemma_filter_subset(
    list: Seq<(Seq<char>, Seq<char>)>,
    f: spec_fn((Seq<char>, Seq<char>)) -> bool,
    k: int,
)
    requires
        0 <= k < list.filter(f).len(),
    ensures
        list.contains(list.filter(f)[k]),
    decreases list.len(),
{
    reveal(Seq::filter);
    if list.len() > 0 {
        let rest = list.drop_last();
        if k < rest.filter(f).len() {
            lemma_filter_subset(rest, f, k);
            let i = choose|i: int| 0 <= i < rest.len() && rest[i] == rest.filter(f)[k];
            assert(list[i] == rest[i]);
        } else {
            assert(list[list.len() - 1] == list.last());
        }
    }
}

/// Behind `/resume` the conversations are suggested whose names begin with what
/// follows, each with its title, as what opens it.
pub proof fn conversations_are_suggested_by_their_beginning(
    query: Seq<char>,
    sessions: Seq<(Seq<char>, Seq<char>)>,
    checkpoints: Seq<(Seq<char>, Seq<char>)>,
    k: int,
)
    requires
        0 <= k < sessions.len(),
        starts(sessions[k].0, query),
    ensures
        suggested("/resume "@ + query, sessions, checkpoints).contains(
            ("/resume "@ + sessions[k].0, sessions[k].1),
        ),
{
    reveal_strlit("/resume ");
    reveal_strlit("/resume");
    let input = "/resume "@ + query;
    assert(input[0] == '/');
    assert(input.subrange(0, 7) =~= "/resume"@);
    texts_hold_their_parts(input, "/resume "@, query);
    assert(after(input, "/resume "@) =~= query);
    let f = |s: (Seq<char>, Seq<char>)| starts(s.0, query);
    let g = |s: (Seq<char>, Seq<char>)| ("/resume "@ + s.0, s.1);
    sessions.lemma_filter_contains(f, k);
    let list = sessions.filter(f);
    let i = choose|i: int| 0 <= i < list.len() && list[i] == sessions[k];
    assert(list.map_values(g)[i] == ("/resume "@ + sessions[k].0, sessions[k].1));
    assert(resumable(input, sessions) == list.map_values(g));
}

/// A suggestion that is taken with the tabulator or Enter stands in the prompt; one
/// that is complete runs at once.
pub proof fn suggestions_are_taken_into_the_prompt(
    d: Desk,
    list: Seq<(Seq<char>, Seq<char>)>,
    w: Around,
)
    requires
        d.suggestion < list.len(),
    ensures
        ({
            let command = list[d.suggestion as int].0;
            let (tab, taken) = suggestion_key(d, KeyCode::Tab, list, w);
            let (enter, entered) = suggestion_key(d, KeyCode::Enter, list, w);
            &&& taken && entered
            &&& tab.1.len() == 0
            &&& !command.contains(' ') ==> tab.0.draft.input == command + " "@
            &&& command.contains(' ') ==> tab.0.draft.input == command
            &&& tab.0.draft.cursor == tab.0.draft.input.len()
            &&& d.draft.input != command && !starts(command, "/resume "@) && !starts(
                command,
                "/rewind "@,
            ) && !starts(command, "/profile "@) ==> enter.0.draft.input == command + " "@
                && enter.1.len() == 0
            &&& suggestion_key(d, KeyCode::Down, list, w).0.0.suggestion == turned_by_one(
                d.suggestion,
                list.len(),
                true,
            )
            &&& suggestion_key(d, KeyCode::Up, list, w).0.0.suggestion == turned_by_one(
                d.suggestion,
                list.len(),
                false,
            )
        }),
{
}

// ---------------------------------------------------------------------------
// Questions
// ---------------------------------------------------------------------------

/// A question is asked only while the agent waits for an answer.
pub proof fn questions_are_asked_while_one_waits(c: Conversation)
    ensures
        c.status != HarnessStatus::WaitingForInput ==> questions(Some(c)).len() == 0
            && waiting_text(Some(c)) is None && approval(c) is None,
        questions(None).len() == 0,
        c.status == HarnessStatus::WaitingForInput && c.events.len() > 0
            ==> match c.events.last() {
            Happening::ApprovalRequest { tool_name, summary, index, total } => approval(c) == Some(
                (tool_name, summary, index, total),
            ),
            _ => approval(c) is None,
        },
{
}

/// What can be chosen follows from the kind of the question. What is not known is
/// answered freely.
pub proof fn kinds_tell_what_can_be_chosen(q: Value)
    ensures
        answer_kind(q) == "yes_no"@ ==> options(q).len() == 2 && options(q)[0] == ("yes"@, "Yes"@)
            && options(q)[1] == ("no"@, "No"@),
        answer_kind(q) == "confirm"@ ==> options(q).len() == 2 && options(q)[0].0 == "confirm"@
            && options(q)[1].0 == "cancel"@,
        answer_kind(q) == "free_text"@ ==> options(q).len() == 0,
        answer_kind(q) == "single_choice"@ ==> match items_of(
            member_of(member(q, "answer_kind"@), "choices"@),
        ) {
            Some(list) => options(q).len() == list.len(),
            None => options(q).len() == 0,
        },
        member(q, "answer_kind"@) is None ==> answer_kind(q) == "free_text"@,
{
    reveal_strlit("yes_no");
    reveal_strlit("confirm");
    reveal_strlit("single_choice");
    reveal_strlit("free_text");
    assert("yes_no"@.len() == 6 && "confirm"@.len() == 7);
    assert("single_choice"@.len() == 13 && "free_text"@.len() == 9);
}

/// A choice is answered by its value and shown by its label; where it lacks one of
/// them, the other stands for both.
pub proof fn choices_have_a_value_and_a_label(c: Value, value: Seq<char>, label: Seq<char>)
    requires
        text_or_empty(c, "value"@) == value,
    ensures
        value.len() > 0 ==> choice(c).0 == value,
        member(c, "label"@) is None ==> choice(c).1 == value,
        member(c, "label"@) == Some(Value::Text(label)) && !blank(label) ==> choice(c).1 == trimmed(
            label,
        ),
        member(c, "label"@) == Some(Value::Text(label)) && !blank(label) && value.len() == 0
            ==> choice(c).0 == trimmed(label),
        member(c, "label"@) == Some(Value::Text(label)) && blank(label) ==> choice(c).1 == value,
{
}

/// What is chosen, or else what is typed, is the answer to the question at hand. The
/// answer to the last one is sent with all the others.
pub proof fn answers_are_gathered_in_order(q: Inquiry, list: Seq<Value>, typed: Seq<char>)
    requires
        q.index < list.len(),
        options(list[q.index as int]).len() > 0 ==> q.sel < options(list[q.index as int]).len(),
    ensures
        ({
            let here = list[q.index as int];
            let (e, reply) = answered(q, list, typed);
            let free = options(here).len() == 0;
            let answer = if free {
                trimmed(typed)
            } else {
                options(here)[q.sel as int].0
            };
            let all = q.answers.push((text_of_question(here), answer));
            &&& free && blank(typed) ==> reply == Replied::NeedText && e == q
            &&& !(free && blank(typed)) && q.index + 1 < list.len() ==> reply == (Replied::Next {
                typed: free,
            }) && e.index == q.index + 1 && e.sel == 0 && e.answers == all
            &&& !(free && blank(typed)) && q.index + 1 == list.len() ==> reply
                == (Replied::Complete { text: combined(all) }) && e.answers.len() == 0 && e.index
                == 0
        }),
{
}

/// A single answer is sent as it is. Of several each has a line, numbered from one,
/// with its question.
pub proof fn several_answers_are_numbered(answers: Seq<(Seq<char>, Seq<char>)>, i: int)
    ensures
        answers.len() == 1 ==> combined(answers) == answers[0].1,
        answers.len() > 1 ==> combined(answers) == joined(numbered_answers(answers), "\n"@),
        0 <= i < answers.len() ==> numbered_answers(answers)[i] == decimal((i + 1) as nat) + ". "@
            + answers[i].0 + " → "@ + answers[i].1,
        numbered_answers(answers).len() == answers.len(),
{
}

/// A key of the keyboard goes to the question before the prompt: the arrows choose,
/// and letters are not typed where there is something to choose.
pub proof fn questions_take_the_keys(d: Desk, code: KeyCode, w: Around)
    requires
        waiting_text(d.state) is Some,
        choices(noticed(d)) > 0,
    ensures
        ({
            let e = noticed(d);
            let ((f, out), taken) = question_key(d, code, w);
            &&& code == KeyCode::Down ==> taken && out.len() == 0 && f.inquiry.sel == turned_by_one(
                e.inquiry.sel,
                choices(e),
                true,
            )
            &&& code == KeyCode::Up ==> taken && out.len() == 0 && f.inquiry.sel == turned_by_one(
                e.inquiry.sel,
                choices(e),
                false,
            )
            &&& code is Char ==> taken && f.draft == d.draft && out.len() == 0
            &&& code == KeyCode::Backspace ==> taken && f.draft == d.draft && out.len() == 0
        }),
        waiting_text(None) is None,
{
}

/// Without a question no key is taken.
pub proof fn without_a_question_no_key_is_taken(d: Desk, code: KeyCode, w: Around)
    requires
        waiting_text(d.state) is None,
    ensures
        question_key(d, code, w) == ((d, Seq::<Deed>::empty()), false),
{
}

/// The answers go to a loop that listens, as one message, and nothing is asked any
/// more.
pub proof fn answers_are_sent_as_one_message(d: Desk, text: Seq<char>, w: Around)
    ensures
        ({
            let (e, out) = answer_sent(d, text, w);
            &&& d.linked && d.held && !w.ended ==> out == seq![
                Deed::Send { input: Message::Answer { text }, receipt: Receipt::Turn },
            ]
            &&& !(d.linked && d.held && !w.ended) ==> out.len() == 0
            &&& e.inquiry.index == 0 && e.inquiry.answers.len() == 0
            &&& e.draft.input.len() == 0
        }),
{
}

// ---------------------------------------------------------------------------
// Messages
// ---------------------------------------------------------------------------

/// How many images and files a message has is told in words, with the right number.
pub proof fn attachments_are_told_in_words(images: nat, files: nat)
    ensures
        images > 0 && files == 0 ==> summary(images, files) == "📎 "@ + (decimal(images) + " "@
            + "image"@ + (if images == 1 {
            Seq::empty()
        } else {
            "s"@
        })),
        images == 0 && files > 0 ==> summary(images, files) == "📎 "@ + (decimal(files) + " "@
            + "file"@ + (if files == 1 {
            Seq::empty()
        } else {
            "s"@
        })),
        images > 0 && files > 0 ==> summary(images, files) == "📎 "@ + (counted_noun(
            images,
            "image"@,
        ) + " · "@ + counted_noun(files, "file"@)),
{
    let a = counted_noun(images, "image"@);
    let b = counted_noun(files, "file"@);
    let none = Seq::<Seq<char>>::empty();
    assert(seq![a] + none =~= seq![a]);
    assert(none + seq![b] =~= seq![b]);
    if images > 0 && files > 0 {
        assert(seq![a] + seq![b] =~= seq![a, b]);
        lemma_joined_concat(seq![a], seq![b], " · "@);
    }
}

/// The heading of a transcript takes the lines up to the next heading, under the name
/// of the recording; a line that is no heading is part of the text.
pub proof fn recordings_take_their_lines(
    lines: Seq<Seq<char>>,
    i: int,
    n: nat,
    path: Seq<char>,
    s: Sections,
)
    requires
        0 <= i,
        i + 1 + n <= lines.len(),
        forall|k: int| i + 1 <= k < i + 1 + n ==> !section_begins(#[trigger] lines[k]),
        i + 1 + n == lines.len() || section_begins(lines[i + 1 + n]),
    ensures
        lines[i] == "[Audio transcript for "@ + path + "]"@ ==> sections_from(lines, i, s)
            == sections_from(
            lines,
            i + 1 + n,
            Sections {
                audio: s.audio.push(
                    (
                        base_name(trimmed(path)),
                        trimmed(stacked(lines.subrange(i + 1, i + 1 + n))),
                    ),
                ),
                ..s
            },
        ),
        bracketed(lines[i], "[Audio transcript for "@) is None && bracketed(
            lines[i],
            "[Audio transcription unavailable: "@,
        ) is None ==> sections_from(lines, i, s) == sections_from(
            lines,
            i + 1,
            Sections {
                prose: if s.prose.len() > 0 {
                    s.prose + "\n"@ + lines[i]
                } else {
                    lines[i]
                },
                ..s
            },
        ),
{
    lemma_section_end(lines, i + 1, n);
    reveal_strlit("[Audio transcript for ");
    reveal_strlit("]");
    let lead = "[Audio transcript for "@;
    let t = lead + path + "]"@;
    if lines[i] == t {
        assert(t[0] == '[');
        assert(trimmed_start(t) == t);
        texts_hold_their_parts(Seq::empty(), lead, path + "]"@);
        assert(t =~= lead + (path + "]"@));
        assert(t.last() == ']');
        assert(t.subrange(lead.len() as int, t.len() - 1) =~= path);
    }
}

proof fn lemma_section_end(lines: Seq<Seq<char>>, j: int, n: nat)
    requires
        0 <= j,
        j + n <= lines.len(),
        forall|k: int| j <= k < j + n ==> !section_begins(#[trigger] lines[k]),
        j + n == lines.len() || section_begins(lines[j + n]),
    ensures
        section_end(lines, j) == j + n,
    decreases n,
{
    if n > 0 {
        assert(!section_begins(lines[j]));
        lemma_section_end(lines, j + 1, (n - 1) as nat);
    }
}

/// Who speaks is shown in front of the first line, and in front of that alone.
pub proof fn the_first_line_tells_who_speaks(list: Seq<Seq<Piece>>, agent: bool, pending: bool)
    ensures
        tagged(list, agent, pending).len() == list.len(),
        forall|k: int|
            0 <= k < list.len() ==> {
                let row = #[trigger] tagged(list, agent, pending)[k];
                &&& row.skip(1) == list[k]
                &&& row[0].text == (if k == 0 && pending {
                    if agent {
                        "✦ "@
                    } else {
                        "> "@
                    }
                } else {
                    repeated(' ', 2)
                })
            },
{
    assert forall|k: int| 0 <= k < list.len() implies {
        let row = #[trigger] tagged(list, agent, pending)[k];
        row.skip(1) == list[k]
    } by {
        assert(tagged(list, agent, pending)[k].skip(1) =~= list[k]);
    }
}

/// A file is shown by its name, its path where that says more, and its caption.
pub proof fn files_are_shown_by_their_name(
    path: Seq<char>,
    caption: Option<Seq<char>>,
    width: nat,
)
    ensures
        ({
            let list = wrapped("file  "@ + base_name(path), width);
            let all = file_rows(path, caption, width);
            &&& all.len() >= list.len()
            &&& forall|i: int| 0 <= i < list.len() ==> (#[trigger] all[i])[1].text == list[i]
            &&& base_name(path) == path && caption is None ==> all.len() == list.len()
        }),
{
}

} // verus!
