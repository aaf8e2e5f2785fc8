//! Questions to the user: their texts and the answers that can be picked.
use crate::json::{Json, Value, items_of, member, text_of, text_or_empty, values};
use crate::results::opt_value;
use crate::text::{blank, is_blank, join, joined, no_texts, push_text, same, texts, trim, trimmed};
use crate::vault::pair_texts;
use vstd::prelude::*;

verus! {

/// The questions of a prompt.
pub open spec fn question_list(pending: Value) -> Option<Seq<Value>> {
    items_of(member(pending, "questions"@))
}

/// The texts of the questions that have one.
pub open spec fn question_texts(list: Seq<Value>) -> Seq<Seq<char>>
    decreases list.len(),
{
    if list.len() == 0 {
        Seq::empty()
    } else {
        let before = question_texts(list.drop_last());
        match text_of(member(list.last(), "text"@)) {
            Some(t) => before.push(t),
            None => before,
        }
    }
}

/// All questions of a prompt in one text, where they have any.
pub open spec fn questions_text(pending: Value) -> Option<Seq<char>> {
    match question_list(pending) {
        Some(list) => {
            let all = joined(question_texts(list), "  |  "@);
            if all.len() > 0 {
                Some(all)
            } else {
                None
            }
        },
        None => None,
    }
}

pub fn question_text(pending: &Json) -> (r: Option<String>)
    ensures
        questions_text(pending@) == match r {
            Some(s) => Some(s@),
            None => None,
        },
{
    match pending.array_at("questions") {
        Some(list) => {
            let ghost all = values(list@);
            let mut out = no_texts();
            for i in 0..list.len()
                invariant
                    all == values(list@),
                    texts(out@) == question_texts(all.take(i as int)),
            {
                assert(all.take(i + 1).drop_last() =~= all.take(i as int));
                assert(all.take(i + 1).last() == list@[i as int]@);
                match list[i].text_at("text") {
                    Some(t) => {
                        push_text(&mut out, t);
                    },
                    None => {},
                }
            }
            assert(all.take(all.len() as int) =~= all);
            let text = join(&out, "  |  ");
            if text.as_str().is_empty() {
                None
            } else {
                Some(text)
            }
        },
        None => None,
    }
}

/// The text of one question.
pub open spec fn text_of_question(q: Value) -> Seq<char> {
    match text_of(member(q, "text"@)) {
        Some(t) => t,
        None => "(question)"@,
    }
}

pub fn q_text(q: &Json) -> (r: String)
    ensures
        r@ == text_of_question(q@),
{
    match q.text_at("text") {
        Some(t) => t,
        None => "(question)".to_string(),
    }
}

/// A member of a value that may be missing.
pub open spec fn member_of(v: Option<Value>, name: Seq<char>) -> Option<Value> {
    match v {
        Some(x) => member(x, name),
        None => None,
    }
}

/// The kind of answer that a question asks for.
pub open spec fn answer_kind(q: Value) -> Seq<char> {
    match text_of(member_of(member(q, "answer_kind"@), "kind"@)) {
        Some(k) => k,
        None => "free_text"@,
    }
}

/// A label without the white space around it, or the fallback where that leaves
/// nothing.
pub open spec fn label_or(v: Option<Value>, fallback: Seq<char>) -> Seq<char> {
    match text_of(v) {
        Some(s) => if blank(s) {
            fallback
        } else {
            trimmed(s)
        },
        None => fallback,
    }
}

/// A choice as its value and its label. Each stands in for the other where that
/// is missing.
pub open spec fn choice(c: Value) -> (Seq<char>, Seq<char>) {
    let value = text_or_empty(c, "value"@);
    let label = label_or(member(c, "label"@), value);
    (
        if value.len() == 0 {
            label
        } else {
            value
        },
        label,
    )
}

/// The answers that can be picked, each as its value and its label. None where
/// the answer is typed.
pub open spec fn options(q: Value) -> Seq<(Seq<char>, Seq<char>)> {
    let kind = answer_kind(q);
    let details = member(q, "answer_kind"@);
    if kind == "single_choice"@ {
        match items_of(member_of(details, "choices"@)) {
            Some(list) => list.map_values(|c: Value| choice(c)),
            None => Seq::empty(),
        }
    } else if kind == "yes_no"@ {
        seq![("yes"@, "Yes"@), ("no"@, "No"@)]
    } else if kind == "confirm"@ {
        seq![
            ("confirm"@, label_or(member_of(details, "confirm_label"@), "Confirm"@)),
            ("cancel"@, label_or(member_of(details, "cancel_label"@), "Cancel"@)),
        ]
    } else {
        Seq::empty()
    }
}

fn read_label(v: Option<&Json>, fallback: &str) -> (r: String)
    ensures
        r@ == label_or(opt_value(v), fallback@),
{
    match v {
        Some(j) => match j.as_str() {
            Some(s) => if is_blank(s.as_str()) {
                fallback.to_owned()
            } else {
                trim(s.as_str())
            },
            None => fallback.to_owned(),
        },
        None => fallback.to_owned(),
    }
}

fn read_choice(c: &Json) -> (r: (String, String))
    ensures
        (r.0@, r.1@) == choice(c@),
{
    let value = c.text_or_empty_at("value");
    let label = read_label(c.get("label"), value.as_str());
    if value.as_str().is_empty() {
        (label.clone(), label)
    } else {
        (value, label)
    }
}

fn get_in<'a>(v: Option<&'a Json>, name: &str) -> (r: Option<&'a Json>)
    ensures
        opt_value(r) == member_of(opt_value(v), name@),
{
    match v {
        Some(j) => j.get(name),
        None => None,
    }
}

pub fn q_options(q: &Json) -> (r: Vec<(String, String)>)
    ensures
        pair_texts(r@) == options(q@),
{
    let details = q.get("answer_kind");
    let kind = match get_in(details, "kind") {
        Some(k) => match k.as_str() {
            Some(s) => s.clone(),
            None => "free_text".to_string(),
        },
        None => "free_text".to_string(),
    };
    let mut out: Vec<(String, String)> = Vec::new();
    if same(kind.as_str(), "single_choice") {
        match get_in(details, "choices") {
            Some(c) => match c.as_array() {
                Some(list) => {
                    let ghost all = values(list@);
                    for i in 0..list.len()
                        invariant
                            all == values(list@),
                            pair_texts(out@).len() == i,
                            forall|k: int|
                                0 <= k < i ==> #[trigger] pair_texts(out@)[k] == choice(all[k]),
                    {
                        let ghost before = pair_texts(out@);
                        let item = read_choice(&list[i]);
                        let ghost view = (item.0@, item.1@);
                        out.push(item);
                        assert(pair_texts(out@) =~= before.push(view));
                        assert(all[i as int] == list@[i as int]@);
                    }
                    assert(pair_texts(out@) =~= all.map_values(|c: Value| choice(c)));
                },
                None => {},
            },
            None => {},
        }
    } else if same(kind.as_str(), "yes_no") {
        out.push(("yes".to_string(), "Yes".to_string()));
        out.push(("no".to_string(), "No".to_string()));
    } else if same(kind.as_str(), "confirm") {
        let yes = read_label(get_in(details, "confirm_label"), "Confirm");
        let no = read_label(get_in(details, "cancel_label"), "Cancel");
        out.push(("confirm".to_string(), yes));
        out.push(("cancel".to_string(), no));
    }
    assert(pair_texts(out@) =~= options(q@));
    out
}

} // verus!
