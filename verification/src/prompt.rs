//! The line editor of the prompt: text with a cursor, what was sent before,
//! collapsed pastes and attachments.
use crate::blocks::smaller;
use crate::messages::{attachment_marker, attachments, file_marker, image_marker, without_markers};
use crate::paths::{split_extension, stem_and_extension};
use crate::style::room;
use crate::table::larger;
use crate::text::{
    cat2, cat3, cat5, chars_of, copy_texts, decimal, decimal_string, decimal_wide, is_white,
    is_whitespace, joined, lemma_pieces_nonempty, lemma_pieces_push, lemma_replaced_absent,
    line_count, line_list, lowered, no_texts, occurs, occurs_at, opt_text, pieces, push_text,
    remove_char, replace, replaced, same, starts, string_of, texts, to_ascii_lowercase, trim,
    trimmed, trimmed_end, trimmed_start, without_cr,
};
use crate::vault::{pair_texts, without};
use crate::wrap::{all_within, lemma_merged_push, merged};
use vstd::prelude::*;

verus! {

/// A file that goes with the message.
pub struct Attachment {
    pub image: bool,
    pub path: String,
    pub name: String,
}

pub ghost struct Attached {
    pub image: bool,
    pub path: Seq<char>,
    pub name: Seq<char>,
}

impl View for Attachment {
    type V = Attached;

    open spec fn view(&self) -> Attached {
        Attached { image: self.image, path: self.path@, name: self.name@ }
    }
}

pub open spec fn attached_of(list: Seq<Attachment>) -> Seq<Attached> {
    list.map_values(|a: Attachment| a@)
}

/// What is being written.
pub ghost struct Draft {
    pub input: Seq<char>,
    /// How many characters are before the cursor.
    pub cursor: nat,
    /// What was sent, the oldest first.
    pub history: Seq<Seq<char>>,
    /// Which of these is shown, where it is not what is being written.
    pub recalled: Option<nat>,
    /// What was being written when recalling began.
    pub kept: Seq<char>,
    /// Collapsed pastes: what stands for them, and what they hold.
    pub pasted: Seq<(Seq<char>, Seq<char>)>,
    pub attached: Seq<Attached>,
}

/// The cursor is within the text, what is recalled is there, and what stands for
/// a paste is not empty.
pub open spec fn draft_ok(d: Draft) -> bool {
    &&& d.cursor <= d.input.len()
    &&& d.recalled matches Some(p) ==> p < d.history.len()
    &&& forall|i: int| 0 <= i < d.pasted.len() ==> (#[trigger] d.pasted[i]).0.len() > 0
}

pub struct Prompt {
    input: String,
    cursor: usize,
    history: Vec<String>,
    recalled: Option<usize>,
    kept: String,
    pasted: Vec<(String, String)>,
    attached: Vec<Attachment>,
}

impl Prompt {
    pub closed spec fn draft(&self) -> Draft {
        Draft {
            input: self.input@,
            cursor: self.cursor as nat,
            history: texts(self.history@),
            recalled: match self.recalled {
                Some(p) => Some(p as nat),
                None => None,
            },
            kept: self.kept@,
            pasted: pair_texts(self.pasted@),
            attached: attached_of(self.attached@),
        }
    }

    #[verifier::type_invariant]
    spec fn ok(self) -> bool {
        draft_ok(self.draft())
    }
}

impl View for Prompt {
    type V = Draft;

    open spec fn view(&self) -> Draft {
        self.draft()
    }
}

// ---------------------------------------------------------------------------
// Places in a text
// ---------------------------------------------------------------------------

/// Where the line begins that position `i` is on.
pub open spec fn line_start(s: Seq<char>, i: int) -> int
    decreases i,
{
    if i <= 0 {
        0
    } else if s[i - 1] == '\n' {
        i
    } else {
        line_start(s, i - 1)
    }
}

/// Where the line ends that position `i` is on.
pub open spec fn line_end(s: Seq<char>, i: int) -> int
    decreases s.len() - i,
{
    if i >= s.len() {
        s.len() as int
    } else if s[i] == '\n' {
        i
    } else {
        line_end(s, i + 1)
    }
}

/// The position to the left of a run of white space, or of anything else.
pub open spec fn back_over(s: Seq<char>, i: int, white: bool) -> int
    decreases i,
{
    if 0 < i <= s.len() && is_white(s[i - 1]) == white {
        back_over(s, i - 1, white)
    } else {
        i
    }
}

/// The position to the right of a run of white space, or of anything else.
pub open spec fn on_over(s: Seq<char>, i: int, white: bool) -> int
    decreases s.len() - i,
{
    if 0 <= i < s.len() && is_white(s[i]) == white {
        on_over(s, i + 1, white)
    } else {
        i
    }
}

/// Where the word before position `i` begins.
pub open spec fn word_before(s: Seq<char>, i: int) -> int {
    back_over(s, back_over(s, i, true), false)
}

/// Where the word after position `i` ends.
pub open spec fn word_after(s: Seq<char>, i: int) -> int {
    on_over(s, on_over(s, i, true), false)
}

fn find_line_start(v: &Vec<char>, i: usize) -> (r: usize)
    requires
        i <= v.len(),
    ensures
        r == line_start(v@, i as int),
        r <= i,
        r > 0 ==> v@[r - 1] == '\n',
{
    let mut k: usize = i;
    while k > 0 && v[k - 1] != '\n'
        invariant
            k <= i <= v.len(),
            line_start(v@, i as int) == line_start(v@, k as int),
        decreases k,
    {
        k -= 1;
    }
    k
}

fn find_line_end(v: &Vec<char>, i: usize) -> (r: usize)
    requires
        i <= v.len(),
    ensures
        r == line_end(v@, i as int),
        i <= r <= v.len(),
{
    let mut k: usize = i;
    while k < v.len() && v[k] != '\n'
        invariant
            i <= k <= v.len(),
            line_end(v@, i as int) == line_end(v@, k as int),
        decreases v.len() - k,
    {
        k += 1;
    }
    k
}

fn skip_back(v: &Vec<char>, i: usize, white: bool) -> (r: usize)
    requires
        i <= v.len(),
    ensures
        r == back_over(v@, i as int, white),
        r <= i,
{
    let mut k: usize = i;
    while k > 0 && is_whitespace(v[k - 1]) == white
        invariant
            k <= i <= v.len(),
            back_over(v@, i as int, white) == back_over(v@, k as int, white),
        decreases k,
    {
        k -= 1;
    }
    k
}

fn skip_on(v: &Vec<char>, i: usize, white: bool) -> (r: usize)
    requires
        i <= v.len(),
    ensures
        r == on_over(v@, i as int, white),
        i <= r <= v.len(),
{
    let mut k: usize = i;
    while k < v.len() && is_whitespace(v[k]) == white
        invariant
            i <= k <= v.len(),
            on_over(v@, i as int, white) == on_over(v@, k as int, white),
        decreases v.len() - k,
    {
        k += 1;
    }
    k
}

// ---------------------------------------------------------------------------
// Editing
// ---------------------------------------------------------------------------

/// The text without what is between two positions, the cursor at the first.
pub open spec fn cut(d: Draft, from: int, to: int) -> Draft {
    Draft { input: d.input.take(from) + d.input.skip(to), cursor: from as nat, ..d }
}

pub open spec fn inserted_text(d: Draft, s: Seq<char>) -> Draft {
    let c = d.cursor as int;
    Draft { input: d.input.take(c) + s + d.input.skip(c), cursor: d.cursor + s.len(), ..d }
}

pub open spec fn cleared(d: Draft) -> Draft {
    Draft {
        input: Seq::empty(),
        cursor: 0,
        pasted: Seq::empty(),
        attached: Seq::empty(),
        ..d
    }
}

pub open spec fn with_input(d: Draft, s: Seq<char>) -> Draft {
    Draft { input: s, cursor: s.len(), ..d }
}

/// The character before the cursor goes. At the beginning of the text the last
/// attachment goes instead.
pub open spec fn backspaced(d: Draft) -> Draft {
    if d.cursor > 0 {
        cut(d, d.cursor - 1, d.cursor as int)
    } else if d.attached.len() > 0 {
        Draft { attached: d.attached.drop_last(), ..d }
    } else {
        d
    }
}

/// What is said where an attachment went.
pub open spec fn detached_message(d: Draft) -> Option<Seq<char>> {
    if d.cursor > 0 || d.attached.len() == 0 {
        None
    } else if d.attached.len() == 1 {
        Some("attachment removed"@)
    } else {
        Some("attachment removed · 📎 "@ + decimal((d.attached.len() - 1) as nat) + " left"@)
    }
}

pub open spec fn deleted(d: Draft) -> Draft {
    if d.cursor < d.input.len() {
        cut(d, d.cursor as int, d.cursor as int + 1)
    } else {
        d
    }
}

/// The line above, in the same column where it is long enough.
pub open spec fn moved_up(d: Draft) -> Draft {
    let start = line_start(d.input, d.cursor as int);
    if start == 0 {
        d
    } else {
        let above = line_start(d.input, start - 1);
        let column = smaller((d.cursor - start) as nat, (start - 1 - above) as nat);
        Draft { cursor: (above + column) as nat, ..d }
    }
}

/// The line below, in the same column where it is long enough.
pub open spec fn moved_down(d: Draft) -> Draft {
    let end = line_end(d.input, d.cursor as int);
    if end == d.input.len() {
        d
    } else {
        let start = line_start(d.input, d.cursor as int);
        let below_end = line_end(d.input, end + 1);
        let column = smaller((d.cursor - start) as nat, (below_end - (end + 1)) as nat);
        Draft { cursor: (end + 1 + column) as nat, ..d }
    }
}

/// The text with every collapsed paste in full.
pub open spec fn expanded_with(s: Seq<char>, pasted: Seq<(Seq<char>, Seq<char>)>) -> Seq<char>
    decreases pasted.len(),
{
    if pasted.len() == 0 {
        s
    } else {
        let before = expanded_with(s, pasted.drop_last());
        replaced(before, pasted.last().0, pasted.last().1)
    }
}

pub open spec fn expanded_input(d: Draft) -> Seq<char> {
    expanded_with(d.input, d.pasted)
}

/// The line that names an attachment to the agent.
pub open spec fn attachment_line_text(a: Attached) -> Seq<char> {
    if a.image {
        "[attached image — call read_image on this exact path to view it: "@ + a.path + "]"@
    } else {
        "[attached file — read it at this exact path: "@ + a.path + "]"@
    }
}

pub open spec fn with_attachments(s: Seq<char>, list: Seq<Attached>) -> Seq<char>
    decreases list.len(),
{
    if list.len() == 0 {
        s
    } else {
        let before = with_attachments(s, list.drop_last());
        let line = attachment_line_text(list.last());
        if before.len() > 0 {
            before + "\n"@ + line
        } else {
            line
        }
    }
}

/// What is sent: the text in full and a line for each attachment.
pub open spec fn message(d: Draft) -> Seq<char> {
    with_attachments(expanded_input(d), d.attached)
}

/// Something that was sent, in place of the text.
pub open spec fn recalled_text(d: Draft, s: Seq<char>) -> Draft {
    Draft { input: s, cursor: s.len(), pasted: Seq::empty(), ..d }
}

/// One further back in what was sent.
pub open spec fn recalled_prev(d: Draft) -> Draft {
    match d.recalled {
        None => if d.history.len() == 0 {
            d
        } else {
            let p = (d.history.len() - 1) as nat;
            recalled_text(
                Draft { recalled: Some(p), kept: expanded_input(d), ..d },
                d.history[p as int],
            )
        },
        Some(p) => if p == 0 {
            d
        } else {
            recalled_text(
                Draft { recalled: Some((p - 1) as nat), ..d },
                d.history[p - 1],
            )
        },
    }
}

/// One further on in what was sent, and after the newest what was being written.
pub open spec fn recalled_next(d: Draft) -> Draft {
    match d.recalled {
        None => d,
        Some(p) => if p + 1 < d.history.len() {
            recalled_text(Draft { recalled: Some(p + 1), ..d }, d.history[p as int + 1])
        } else {
            recalled_text(Draft { recalled: None, kept: Seq::empty(), ..d }, d.kept)
        },
    }
}

/// What was sent joins the history, unless it was the last thing sent.
pub open spec fn remembered(d: Draft, s: Seq<char>) -> Draft {
    cleared(
        Draft {
            history: if d.history.len() > 0 && d.history.last() == s {
                d.history
            } else {
                d.history.push(s)
            },
            recalled: None,
            ..d
        },
    )
}

impl Prompt {
    pub fn new() -> (r: Prompt)
        ensures
            r@ == (Draft {
                input: Seq::empty(),
                cursor: 0,
                history: Seq::empty(),
                recalled: None,
                kept: Seq::empty(),
                pasted: Seq::empty(),
                attached: Seq::empty(),
            }),
            draft_ok(r@),
    {
        let history: Vec<String> = Vec::new();
        let pasted: Vec<(String, String)> = Vec::new();
        let attached: Vec<Attachment> = Vec::new();
        assert(texts(history@) =~= Seq::empty());
        assert(pair_texts(pasted@) =~= Seq::empty());
        assert(attached_of(attached@) =~= Seq::empty());
        let input = String::new();
        let kept = String::new();
        assert(input@ =~= Seq::<char>::empty());
        assert(kept@ =~= Seq::<char>::empty());
        Prompt { input, cursor: 0, history, recalled: None, kept, pasted, attached }
    }

    /// The text.
    pub fn input(&self) -> (r: &String)
        ensures
            r@ == self@.input,
    {
        &self.input
    }

    /// How many characters are before the cursor.
    pub fn cursor(&self) -> (r: usize)
        ensures
            r == self@.cursor,
            r <= self@.input.len(),
            draft_ok(self@),
    {
        proof {
            use_type_invariant(&*self);
        }
        self.cursor
    }

    pub fn attachment_count(&self) -> (r: usize)
        ensures
            r == self@.attached.len(),
    {
        self.attached.len()
    }

    /// The text, the cursor with it.
    fn change(&mut self, input: String, cursor: usize)
        requires
            cursor <= input@.len(),
        ensures
            final(self)@ == (Draft { input: input@, cursor: cursor as nat, ..old(self)@ }),
    {
        proof {
            use_type_invariant(&*self);
        }
        self.cursor = 0;
        self.input = input;
        self.cursor = cursor;
    }

    pub fn clear(&mut self)
        ensures
            final(self)@ == cleared(old(self)@),
    {
        let pasted: Vec<(String, String)> = Vec::new();
        let attached: Vec<Attachment> = Vec::new();
        let input = String::new();
        proof {
            use_type_invariant(&*self);
            assert(pair_texts(pasted@) =~= Seq::empty());
            assert(attached_of(attached@) =~= Seq::empty());
            assert(input@ =~= Seq::<char>::empty());
        }
        self.change(input, 0);
        self.drop_pasted();
        proof {
            use_type_invariant(&*self);
        }
        self.attached = attached;
    }

    fn drop_pasted(&mut self)
        ensures
            final(self)@ == (Draft { pasted: Seq::empty(), ..old(self)@ }),
    {
        let pasted: Vec<(String, String)> = Vec::new();
        proof {
            use_type_invariant(&*self);
            assert(pair_texts(pasted@) =~= Seq::empty());
        }
        self.pasted = pasted;
    }

    /// Replaces the text, with the cursor at its end.
    pub fn set(&mut self, value: String)
        ensures
            final(self)@ == with_input(old(self)@, value@),
    {
        let n: usize = value.as_str().unicode_len();
        self.change(value, n);
    }

    /// The text without what is between two positions, the cursor at the first.
    fn remove(&mut self, from: usize, to: usize)
        requires
            from <= to <= old(self)@.input.len(),
        ensures
            final(self)@ == cut(old(self)@, from as int, to as int),
    {
        let v = chars_of(self.input.as_str());
        let head = string_of(&v, 0, from);
        let tail = string_of(&v, to, v.len());
        let input = cat2(head.as_str(), tail.as_str());
        assert(input@ =~= self@.input.take(from as int) + self@.input.skip(to as int));
        self.change(input, from);
    }

    /// Puts a text in at the cursor.
    pub fn insert_text(&mut self, s: &str)
        ensures
            final(self)@ == inserted_text(old(self)@, s@),
    {
        proof {
            use_type_invariant(&*self);
        }
        let v = chars_of(self.input.as_str());
        let c: usize = self.cursor;
        let head = string_of(&v, 0, c);
        let tail = string_of(&v, c, v.len());
        let input = cat3(head.as_str(), s, tail.as_str());
        assert(input@ =~= self@.input.take(c as int) + s@ + self@.input.skip(c as int));
        let front = cat2(head.as_str(), s);
        let n: usize = front.as_str().unicode_len();
        self.change(input, n);
    }

    pub fn insert(&mut self, c: char)
        ensures
            final(self)@ == inserted_text(old(self)@, seq![c]),
    {
        let mut s = String::new();
        s.push(c);
        assert(s@ =~= seq![c]);
        self.insert_text(s.as_str());
    }

    /// Removes the character before the cursor or, at the beginning of the text,
    /// the last attachment; then there is something to be said of it.
    pub fn backspace(&mut self) -> (r: Option<String>)
        ensures
            final(self)@ == backspaced(old(self)@),
            opt_text(r) == detached_message(old(self)@),
    {
        proof {
            use_type_invariant(&*self);
        }
        if self.cursor > 0 {
            let c: usize = self.cursor;
            self.remove(c - 1, c);
            return None;
        }
        let n: usize = self.attached.len();
        if n == 0 {
            return None;
        }
        let mut attached: Vec<Attachment> = Vec::new();
        let ghost all = self@.attached;
        for i in 0..n - 1
            invariant
                n == self.attached.len(),
                n > 0,
                all == attached_of(self.attached@),
                attached_of(attached@) == all.take(i as int),
        {
            let a = &self.attached[i];
            let ghost before = attached_of(attached@);
            attached.push(Attachment { image: a.image, path: a.path.clone(), name: a.name.clone() });
            assert(attached_of(attached@) =~= before.push(all[i as int]));
            assert(all.take(i + 1) =~= all.take(i as int).push(all[i as int]));
        }
        assert(all.take(n - 1) =~= all.drop_last());
        proof {
            use_type_invariant(&*self);
        }
        self.attached = attached;
        if n == 1 {
            Some("attachment removed".to_string())
        } else {
            let d = decimal_string((n - 1) as u64);
            Some(cat3("attachment removed · 📎 ", d.as_str(), " left"))
        }
    }

    pub fn delete(&mut self)
        ensures
            final(self)@ == deleted(old(self)@),
    {
        proof {
            use_type_invariant(&*self);
        }
        let c: usize = self.cursor;
        if c < self.input.as_str().unicode_len() {
            self.remove(c, c + 1);
        }
    }

    fn move_to(&mut self, c: usize)
        requires
            c <= old(self)@.input.len(),
        ensures
            final(self)@ == (Draft { cursor: c as nat, ..old(self)@ }),
    {
        proof {
            use_type_invariant(&*self);
        }
        self.cursor = c;
    }

    pub fn move_left(&mut self)
        ensures
            final(self)@ == (Draft { cursor: room(old(self)@.cursor, 1), ..old(self)@ }),
    {
        proof {
            use_type_invariant(&*self);
        }
        if self.cursor > 0 {
            self.move_to(self.cursor - 1);
        }
    }

    pub fn move_right(&mut self)
        ensures
            final(self)@ == (Draft {
                cursor: smaller(old(self)@.cursor + 1, old(self)@.input.len()),
                ..old(self)@
            }),
    {
        proof {
            use_type_invariant(&*self);
        }
        if self.cursor < self.input.as_str().unicode_len() {
            self.move_to(self.cursor + 1);
        }
    }

    pub fn move_home(&mut self)
        ensures
            final(self)@ == (Draft { cursor: 0, ..old(self)@ }),
    {
        self.move_to(0);
    }

    pub fn move_end(&mut self)
        ensures
            final(self)@ == (Draft { cursor: old(self)@.input.len(), ..old(self)@ }),
    {
        let n: usize = self.input.as_str().unicode_len();
        self.move_to(n);
    }

    pub fn prev_word(&self) -> (r: usize)
        ensures
            r == word_before(self@.input, self@.cursor as int),
            r <= self@.cursor <= self@.input.len(),
    {
        proof {
            use_type_invariant(&*self);
        }
        let v = chars_of(self.input.as_str());
        let k = skip_back(&v, self.cursor, true);
        skip_back(&v, k, false)
    }

    pub fn next_word(&self) -> (r: usize)
        ensures
            r == word_after(self@.input, self@.cursor as int),
            self@.cursor <= r <= self@.input.len(),
    {
        proof {
            use_type_invariant(&*self);
        }
        let v = chars_of(self.input.as_str());
        let k = skip_on(&v, self.cursor, true);
        skip_on(&v, k, false)
    }

    pub fn move_prev_word(&mut self)
        ensures
            final(self)@ == (Draft {
                cursor: word_before(old(self)@.input, old(self)@.cursor as int) as nat,
                ..old(self)@
            }),
    {
        let k = self.prev_word();
        self.move_to(k);
    }

    pub fn move_next_word(&mut self)
        ensures
            final(self)@ == (Draft {
                cursor: word_after(old(self)@.input, old(self)@.cursor as int) as nat,
                ..old(self)@
            }),
    {
        let k = self.next_word();
        self.move_to(k);
    }

    pub fn delete_word_back(&mut self)
        ensures
            final(self)@ == cut(
                old(self)@,
                word_before(old(self)@.input, old(self)@.cursor as int),
                old(self)@.cursor as int,
            ),
    {
        let k = self.prev_word();
        let c: usize = self.cursor;
        self.remove(k, c);
    }

    pub fn delete_word_forward(&mut self)
        ensures
            final(self)@ == cut(
                old(self)@,
                old(self)@.cursor as int,
                word_after(old(self)@.input, old(self)@.cursor as int),
            ),
    {
        let k = self.next_word();
        let c: usize = self.cursor;
        self.remove(c, k);
    }

    pub fn delete_to_start(&mut self)
        ensures
            final(self)@ == cut(old(self)@, 0, old(self)@.cursor as int),
    {
        proof {
            use_type_invariant(&*self);
        }
        let c: usize = self.cursor;
        self.remove(0, c);
    }

    pub fn delete_to_end(&mut self)
        ensures
            final(self)@ == cut(
                old(self)@,
                old(self)@.cursor as int,
                old(self)@.input.len() as int,
            ),
    {
        proof {
            use_type_invariant(&*self);
        }
        let c: usize = self.cursor;
        let n: usize = self.input.as_str().unicode_len();
        self.remove(c, n);
    }

    pub fn on_first_line(&self) -> (r: bool)
        ensures
            r == (line_start(self@.input, self@.cursor as int) == 0),
    {
        proof {
            use_type_invariant(&*self);
        }
        let v = chars_of(self.input.as_str());
        find_line_start(&v, self.cursor) == 0
    }

    pub fn on_last_line(&self) -> (r: bool)
        ensures
            r == (line_end(self@.input, self@.cursor as int) == self@.input.len()),
    {
        proof {
            use_type_invariant(&*self);
        }
        let v = chars_of(self.input.as_str());
        find_line_end(&v, self.cursor) == v.len()
    }

    pub fn move_up(&mut self)
        ensures
            final(self)@ == moved_up(old(self)@),
    {
        proof {
            use_type_invariant(&*self);
        }
        let v = chars_of(self.input.as_str());
        let c: usize = self.cursor;
        let start = find_line_start(&v, c);
        if start == 0 {
            return;
        }
        let above = find_line_start(&v, start - 1);
        let column: usize = if c - start <= start - 1 - above {
            c - start
        } else {
            start - 1 - above
        };
        self.move_to(above + column);
    }

    pub fn move_down(&mut self)
        ensures
            final(self)@ == moved_down(old(self)@),
    {
        proof {
            use_type_invariant(&*self);
        }
        let v = chars_of(self.input.as_str());
        let c: usize = self.cursor;
        let end = find_line_end(&v, c);
        if end == v.len() {
            return;
        }
        let start = find_line_start(&v, c);
        let below_end = find_line_end(&v, end + 1);
        let column: usize = if c - start <= below_end - (end + 1) {
            c - start
        } else {
            below_end - (end + 1)
        };
        self.move_to(end + 1 + column);
    }

    /// The text with every collapsed paste in full.
    pub fn expand(&self) -> (r: String)
        ensures
            r@ == expanded_input(self@),
    {
        proof {
            use_type_invariant(&*self);
        }
        let ghost all = self@.pasted;
        let mut out = self.input.clone();
        for i in 0..self.pasted.len()
            invariant
                all == pair_texts(self.pasted@),
                forall|k: int| 0 <= k < all.len() ==> (#[trigger] all[k]).0.len() > 0,
                out@ == expanded_with(self@.input, all.take(i as int)),
        {
            proof {
                assert(all.take(i + 1).drop_last() =~= all.take(i as int));
                assert(all[i as int] == (self.pasted@[i as int].0@, self.pasted@[i as int].1@));
            }
            out = replace(
                out.as_str(),
                self.pasted[i].0.as_str(),
                self.pasted[i].1.as_str(),
            );
        }
        assert(all.take(all.len() as int) =~= all);
        out
    }

    /// What is sent: the text in full and a line for each attachment.
    pub fn message_for_send(&self) -> (r: String)
        ensures
            r@ == message(self@),
    {
        let ghost all = self@.attached;
        let mut out = self.expand();
        for i in 0..self.attached.len()
            invariant
                all == attached_of(self.attached@),
                out@ == with_attachments(expanded_input(self@), all.take(i as int)),
        {
            let a = &self.attached[i];
            proof {
                assert(all.take(i + 1).drop_last() =~= all.take(i as int));
                assert(all[i as int] == a@);
            }
            let line = if a.image {
                cat3(
                    "[attached image — call read_image on this exact path to view it: ",
                    a.path.as_str(),
                    "]",
                )
            } else {
                cat3("[attached file — read it at this exact path: ", a.path.as_str(), "]")
            };
            if out.as_str().is_empty() {
                out = line;
            } else {
                out = cat3(out.as_str(), "\n", line.as_str());
            }
        }
        assert(all.take(all.len() as int) =~= all);
        out
    }

    /// Adds an attachment.
    pub fn attach(&mut self, a: Attachment)
        ensures
            final(self)@ == (Draft { attached: old(self)@.attached.push(a@), ..old(self)@ }),
    {
        let ghost all = self@.attached;
        let mut attached: Vec<Attachment> = Vec::new();
        for i in 0..self.attached.len()
            invariant
                all == attached_of(self.attached@),
                attached_of(attached@) == all.take(i as int),
        {
            let x = &self.attached[i];
            let ghost before = attached_of(attached@);
            attached.push(Attachment { image: x.image, path: x.path.clone(), name: x.name.clone() });
            assert(attached_of(attached@) =~= before.push(all[i as int]));
            assert(all.take(i + 1) =~= all.take(i as int).push(all[i as int]));
        }
        assert(all.take(all.len() as int) =~= all);
        attached.push(a);
        proof {
            use_type_invariant(&*self);
            assert(attached_of(attached@) =~= all.push(a@));
        }
        self.attached = attached;
    }

    /// Shows something that was sent before. Says whether anything was.
    pub fn recall_prev(&mut self) -> (r: bool)
        ensures
            final(self)@ == recalled_prev(old(self)@),
            r == (old(self)@.history.len() > 0),
            !r ==> final(self)@ == old(self)@,
    {
        proof {
            use_type_invariant(&*self);
        }
        if self.history.len() == 0 {
            return false;
        }
        let p: usize = match self.recalled {
            None => {
                let kept = self.expand();
                self.kept = kept;
                self.history.len() - 1
            },
            Some(p) => {
                if p == 0 {
                    return true;
                }
                p - 1
            },
        };
        let text = self.history[p].clone();
        assert(texts(self.history@)[p as int] == text@);
        proof {
            use_type_invariant(&*self);
        }
        self.recalled = Some(p);
        self.drop_pasted();
        self.set(text);
        true
    }

    /// Shows what was sent next, and after the newest what was being written.
    /// Says whether anything was recalled.
    pub fn recall_next(&mut self) -> (r: bool)
        ensures
            final(self)@ == recalled_next(old(self)@),
            r == (old(self)@.recalled is Some),
    {
        proof {
            use_type_invariant(&*self);
        }
        match self.recalled {
            None => false,
            Some(p) => {
                assert(self@.recalled == Some(p as nat));
                let n: usize = self.history.len();
                if p + 1 < n {
                    let text = self.history[p + 1].clone();
                    assert(texts(self.history@)[p + 1] == text@);
                    self.recalled = Some(p + 1);
                    self.drop_pasted();
                    self.set(text);
                } else {
                    let text = self.kept.clone();
                    let none = String::new();
                    assert(none@ =~= Seq::<char>::empty());
                    self.recalled = None;
                    self.kept = none;
                    self.drop_pasted();
                    self.set(text);
                }
                true
            },
        }
    }

    /// Puts what was sent into the history and clears the prompt.
    pub fn remember(&mut self, s: &str)
        ensures
            final(self)@ == remembered(old(self)@, s@),
    {
        proof {
            use_type_invariant(&*self);
        }
        let mut history = copy_texts(&self.history);
        let n = history.len();
        assert(texts(history@).len() == n);
        let known = n > 0 && same(history[n - 1].as_str(), s);
        proof {
            if n > 0 {
                assert(texts(history@).last() == history@[n - 1]@);
            }
        }
        if !known {
            push_text(&mut history, s.to_owned());
        }
        self.recalled = None;
        self.history = history;
        self.clear();
    }
}

// ---------------------------------------------------------------------------
// Pastes
// ---------------------------------------------------------------------------

/// What stands for a collapsed paste.
pub open spec fn paste_chip(n: nat, lines: nat) -> Seq<char> {
    "[Pasted #"@ + decimal(n) + " · "@ + decimal(lines) + (if lines == 1 {
        " line]"@
    } else {
        " lines]"@
    })
}

/// A paste without carriage returns.
pub open spec fn clean_paste(text: Seq<char>) -> Seq<char> {
    text.filter(|c: char| c != '\r')
}

/// A long paste, or one of several lines, is collapsed; any other goes into the
/// text.
pub open spec fn pasted_in(d: Draft, text: Seq<char>) -> Draft {
    let clean = clean_paste(text);
    let n = larger(line_list(clean).len(), 1);
    if n > 1 || clean.len() > 200 {
        let chip = paste_chip(d.pasted.len() + 1, n);
        Draft { pasted: d.pasted.push((chip, clean)), ..inserted_text(d, chip) }
    } else {
        inserted_text(d, clean)
    }
}

fn make_chip(n: u128, lines: usize) -> (r: String)
    ensures
        r@ == paste_chip(n as nat, lines as nat),
        r@.len() > 0,
{
    proof {
        reveal_strlit("[Pasted #");
    }
    let a = decimal_wide(n);
    let b = decimal_string(lines as u64);
    if lines == 1 {
        cat5("[Pasted #", a.as_str(), " · ", b.as_str(), " line]")
    } else {
        cat5("[Pasted #", a.as_str(), " · ", b.as_str(), " lines]")
    }
}

impl Prompt {
    /// Takes a text that was pasted.
    pub fn paste(&mut self, text: &str)
        ensures
            final(self)@ == pasted_in(old(self)@, text@),
    {
        let clean = remove_char(text, '\r');
        let count = line_count(clean.as_str());
        let n: usize = if count >= 1 {
            count
        } else {
            1
        };
        if n > 1 || clean.as_str().unicode_len() > 200 {
            let ghost before = self@;
            let chip = make_chip(self.pasted.len() as u128 + 1, n);
            self.insert_text(chip.as_str());
            let ghost item = (chip@, clean@);
            let (mut pasted, _rest) = without(&self.pasted, self.pasted.len(), self.pasted.len());
            assert(pair_texts(pasted@) =~= before.pasted);
            pasted.push((chip, clean));
            proof {
                use_type_invariant(&*self);
                let all = before.pasted.push(item);
                assert(pair_texts(pasted@) =~= all);
                assert forall|i: int| 0 <= i < all.len() implies (#[trigger] all[i]).0.len()
                    > 0 by {
                    if i < before.pasted.len() {
                        assert(all[i] == self@.pasted[i]);
                    }
                }
            }
            self.pasted = pasted;
        } else {
            self.insert_text(clean.as_str());
        }
    }
}

/// The path that a pasted text may be, as a terminal writes it for a file that is
/// dropped on it: without quotes around it and with its escapes undone.
pub open spec fn path_in(text: Seq<char>) -> Option<Seq<char>> {
    let t = trimmed(text);
    let inner = if t.len() >= 2 && t[0] == t.last() && (t[0] == '\'' || t[0] == '"') {
        t.subrange(1, t.len() - 1)
    } else {
        t
    };
    if inner.len() == 0 {
        None
    } else {
        Some(replaced(replaced(inner, "\\ "@, " "@), "\\\\"@, "\\"@))
    }
}

pub fn dropped_path(text: &str) -> (r: Option<String>)
    ensures
        opt_text(r) == path_in(text@),
{
    let t = trim(text);
    let v = chars_of(t.as_str());
    let n = v.len();
    let inner = if n >= 2 && v[0] == v[n - 1] && (v[0] == '\'' || v[0] == '"') {
        string_of(&v, 1, n - 1)
    } else {
        t
    };
    if inner.as_str().is_empty() {
        return None;
    }
    proof {
        reveal_strlit("\\ ");
        reveal_strlit("\\\\");
    }
    let a = replace(inner.as_str(), "\\ ", " ");
    Some(replace(a.as_str(), "\\\\", "\\"))
}

/// A file with one of the extensions of images.
pub open spec fn image_path(path: Seq<char>) -> bool {
    match stem_and_extension(path).1 {
        Some(e) => {
            let x = lowered(e);
            x == "png"@ || x == "jpg"@ || x == "jpeg"@ || x == "gif"@ || x == "webp"@ || x == "bmp"@
                || x == "heic"@ || x == "heif"@
        },
        None => false,
    }
}

pub fn is_image_path(path: &str) -> (r: bool)
    ensures
        r == image_path(path@),
{
    match split_extension(path).1 {
        Some(e) => {
            let x = to_ascii_lowercase(e.as_str());
            let x = x.as_str();
            same(x, "png") || same(x, "jpg") || same(x, "jpeg") || same(x, "gif") || same(x, "webp")
                || same(x, "bmp") || same(x, "heic") || same(x, "heif")
        },
        None => false,
    }
}

// ---------------------------------------------------------------------------
// Rows
// ---------------------------------------------------------------------------

/// Rows that are full, the one that is being filled, and where the cursor is.
pub ghost struct Layout {
    pub rows: Seq<Seq<char>>,
    pub cur: Seq<char>,
    pub at: (nat, nat),
}

pub open spec fn here(l: Layout) -> (nat, nat) {
    (l.rows.len(), l.cur.len())
}

/// The first `i` characters in rows of `width`.
pub open spec fn laid_out(s: Seq<char>, cursor: nat, width: nat, i: int) -> Layout
    decreases i,
{
    if i <= 0 {
        Layout { rows: Seq::empty(), cur: Seq::empty(), at: (0, 0) }
    } else {
        let l = laid_out(s, cursor, width, i - 1);
        let c = s[i - 1];
        if c == '\n' {
            Layout {
                rows: l.rows.push(l.cur),
                cur: Seq::empty(),
                at: if cursor == i - 1 {
                    here(l)
                } else {
                    l.at
                },
            }
        } else {
            let m = if l.cur.len() == width {
                Layout { rows: l.rows.push(l.cur), cur: Seq::empty(), ..l }
            } else {
                l
            };
            Layout {
                rows: m.rows,
                cur: m.cur.push(c),
                at: if cursor == i - 1 {
                    here(m)
                } else {
                    l.at
                },
            }
        }
    }
}

/// A text in rows of `width` characters, with a new row at each line end, and the
/// row and column of the cursor.
pub open spec fn layout(s: Seq<char>, cursor: nat, width: nat) -> (Seq<Seq<char>>, (nat, nat)) {
    let l = laid_out(s, cursor, larger(width, 1), s.len() as int);
    (
        l.rows.push(l.cur),
        if cursor >= s.len() {
            here(l)
        } else {
            l.at
        },
    )
}

pub fn layout_input(input: &str, cursor: usize, width: usize) -> (r: (
    Vec<String>,
    (usize, usize),
))
    ensures
        layout(input@, cursor as nat, width as nat) == (
            texts(r.0@),
            (r.1.0 as nat, r.1.1 as nat),
        ),
{
    let width: usize = if width >= 1 {
        width
    } else {
        1
    };
    let v = chars_of(input);
    let mut rows = no_texts();
    let mut cur = String::new();
    let mut col: usize = 0;
    let mut at: (usize, usize) = (0, 0);
    assert(cur@ =~= Seq::<char>::empty());
    for i in 0..v.len()
        invariant
            v@ == input@,
            width >= 1,
            col == cur@.len(),
            col <= width,
            laid_out(input@, cursor as nat, width as nat, i as int) == (Layout {
                rows: texts(rows@),
                cur: cur@,
                at: (at.0 as nat, at.1 as nat),
            }),
    {
        assert(texts(rows@).len() == rows@.len());
        let c = v[i];
        if c == '\n' {
            if cursor == i {
                at = (rows.len(), col);
            }
            push_text(&mut rows, cur);
            cur = String::new();
            assert(cur@ =~= Seq::<char>::empty());
            col = 0;
        } else {
            if col == width {
                push_text(&mut rows, cur);
                cur = String::new();
                assert(cur@ =~= Seq::<char>::empty());
                col = 0;
            }
            assert(texts(rows@).len() == rows@.len());
            if cursor == i {
                at = (rows.len(), col);
            }
            cur.push(c);
            col += 1;
        }
    }
    assert(texts(rows@).len() == rows@.len());
    if cursor >= v.len() {
        at = (rows.len(), col);
    }
    push_text(&mut rows, cur);
    (rows, at)
}

pub proof fn lemma_laid_out(s: Seq<char>, cursor: nat, width: nat, i: int)
    requires
        0 <= i <= s.len(),
        width >= 1,
    ensures
        ({
            let l = laid_out(s, cursor, width, i);
            &&& all_within(l.rows, width)
            &&& l.cur.len() <= width
            &&& merged(l.rows) + l.cur == s.take(i).filter(|c: char| c != '\n')
            &&& l.at.0 <= l.rows.len()
            &&& l.at.1 <= if l.at.0 < l.rows.len() {
                l.rows[l.at.0 as int].len()
            } else {
                l.cur.len()
            }
        }),
    decreases i,
{
    let p = |c: char| c != '\n';
    if i == 0 {
        s.take(0).lemma_filter_len(p);
        assert(merged(Seq::empty()) + Seq::<char>::empty() =~= s.take(0).filter(p));
    } else {
        lemma_laid_out(s, cursor, width, i - 1);
        let l = laid_out(s, cursor, width, i - 1);
        let n = laid_out(s, cursor, width, i);
        let c = s[i - 1];
        assert(s.take(i) =~= s.take(i - 1).push(c));
        s.take(i - 1).lemma_filter_push(c, p);
        lemma_merged_push(l.rows, l.cur);
        let full = l.rows.push(l.cur);
        assert forall|k: int| 0 <= k < full.len() implies (#[trigger] full[k]).len() <= width by {
            if k < l.rows.len() {
                assert(full[k] == l.rows[k]);
            }
        }
        if c == '\n' {
            assert(merged(n.rows) + n.cur =~= merged(l.rows) + l.cur);
        } else {
            assert(merged(n.rows) + n.cur =~= (merged(l.rows) + l.cur).push(c));
        }
    }
}

/// The rows hold the text without its line ends, none is longer than the width,
/// and the cursor is on one of them.
pub proof fn layout_keeps_the_text(s: Seq<char>, cursor: nat, width: nat)
    ensures
        ({
            let (list, at) = layout(s, cursor, width);
            &&& all_within(list, larger(width, 1))
            &&& merged(list) == s.filter(|c: char| c != '\n')
            &&& at.0 < list.len()
            &&& at.1 <= list[at.0 as int].len()
        }),
{
    let w = larger(width, 1);
    lemma_laid_out(s, cursor, w, s.len() as int);
    let l = laid_out(s, cursor, w, s.len() as int);
    lemma_merged_push(l.rows, l.cur);
    assert(s.take(s.len() as int) =~= s);
    let (list, at) = layout(s, cursor, width);
    assert forall|k: int| 0 <= k < list.len() implies (#[trigger] list[k]).len() <= w by {
        if k < l.rows.len() {
            assert(list[k] == l.rows[k]);
        }
    }
}

// ---------------------------------------------------------------------------
// What editing guarantees
// ---------------------------------------------------------------------------

/// A backspace undoes the insertion of a character.
pub proof fn backspace_undoes_insert(d: Draft, c: char)
    requires
        draft_ok(d),
    ensures
        backspaced(inserted_text(d, seq![c])) == d,
{
    let n = inserted_text(d, seq![c]);
    let k = d.cursor as int;
    assert(n.input.take(k) + n.input.skip(k + 1) =~= d.input);
}

/// What was being written comes back, in full, from recalling and returning.
pub proof fn recalling_and_returning_keeps_the_text(d: Draft)
    requires
        draft_ok(d),
        d.recalled is None,
        d.history.len() > 0,
    ensures
        ({
            let back = recalled_next(recalled_prev(d));
            &&& back.input == expanded_input(d)
            &&& back.recalled is None
            &&& back.history == d.history
            &&& back.attached == d.attached
        }),
{
}

/// Going back and on again in what was sent leads to the same entry.
pub proof fn recalling_back_and_on(d: Draft)
    requires
        draft_ok(d),
        d.recalled matches Some(p) && 0 < p,
        d.input == d.history[d.recalled->0 as int],
        d.cursor == d.input.len(),
        d.pasted.len() == 0,
    ensures
        recalled_next(recalled_prev(d)) == d,
{
    let back = recalled_next(recalled_prev(d));
    assert(back.pasted =~= d.pasted);
}

/// Every operation keeps the cursor within the text.
pub proof fn editing_keeps_the_draft_in_order(d: Draft, s: Seq<char>, from: int, to: int)
    requires
        draft_ok(d),
        0 <= from <= to <= d.input.len(),
    ensures
        draft_ok(cleared(d)),
        draft_ok(with_input(d, s)),
        draft_ok(inserted_text(d, s)),
        draft_ok(cut(d, from, to)),
        draft_ok(backspaced(d)),
        draft_ok(deleted(d)),
        draft_ok(recalled_prev(d)),
        draft_ok(recalled_next(d)),
        draft_ok(remembered(d, s)),
{
}

/// A collapsed paste is sent in full: where no other bracket stands in the text,
/// expanding puts the pasted text where the chip is.
pub proof fn paste_expands_back(d: Draft, text: Seq<char>)
    requires
        draft_ok(d),
        d.pasted.len() == 0,
        !d.input.contains('['),
    ensures
        expanded_input(pasted_in(d, text)) == inserted_text(d, clean_paste(text)).input,
{
    let clean = clean_paste(text);
    let n = larger(line_list(clean).len(), 1);
    let k = d.cursor as int;
    let a = d.input.take(k);
    let b = d.input.skip(k);
    reveal_with_fuel(expanded_with, 2);
    if n > 1 || clean.len() > 200 {
        let chip = paste_chip(1, n);
        let p = pasted_in(d, text);
        assert(p.pasted =~= seq![(chip, clean)]);
        assert(p.pasted.drop_last() =~= Seq::empty());
        reveal_strlit("[Pasted #");
        assert(chip[0] == '[');
        assert(!a.contains('[')) by {
            if a.contains('[') {
                let i = choose|i: int| 0 <= i < a.len() && a[i] == '[';
                assert(d.input[i] == '[');
            }
        }
        assert(!b.contains('[')) by {
            if b.contains('[') {
                let i = choose|i: int| 0 <= i < b.len() && b[i] == '[';
                assert(d.input[i + k] == '[');
            }
        }
        lemma_replace_once(a, chip, b, clean);
    } else {
        assert(pasted_in(d, text).pasted =~= Seq::empty());
    }
}

proof fn lemma_replace_once(a: Seq<char>, m: Seq<char>, b: Seq<char>, to: Seq<char>)
    requires
        m.len() > 0,
        m[0] == '[',
        !a.contains('['),
        !b.contains('['),
    ensures
        replaced(a + m + b, m, to) == a + to + b,
    decreases a.len(),
{
    let s = a + m + b;
    if a.len() == 0 {
        assert(s =~= m + b);
        assert(s.subrange(0, m.len() as int) =~= m);
        assert(s.skip(m.len() as int) =~= b);
        assert(!occurs(b, m)) by {
            if occurs(b, m) {
                let i = choose|i: int| occurs_at(b, m, i);
                assert(b.subrange(i, i + m.len())[0] == m[0]);
                assert(b[i] == '[');
            }
        }
        lemma_replaced_absent(b, m, to);
        assert(a + to + b =~= to + b);
    } else {
        assert(s[0] == a[0]);
        assert(!starts(s, m)) by {
            if starts(s, m) {
                assert(s.subrange(0, m.len() as int)[0] == m[0]);
                assert(a[0] == '[');
            }
        }
        let rest = a.skip(1);
        assert(!rest.contains('[')) by {
            if rest.contains('[') {
                let i = choose|i: int| 0 <= i < rest.len() && rest[i] == '[';
                assert(a[i + 1] == '[');
            }
        }
        lemma_replace_once(rest, m, b, to);
        assert(s.skip(1) =~= rest + m + b);
        assert(seq![s[0]] + (rest + to + b) =~= a + to + b);
    }
}

/// The line of an attachment is a marker of its kind and of no other.
pub proof fn attachment_lines_are_markers(a: Attached)
    ensures
        image_marker(attachment_line_text(a)) == a.image,
        file_marker(attachment_line_text(a)) == !a.image,
{
    reveal_strlit("[attached image — call read_image on this exact path to view it: ");
    reveal_strlit("[attached file — read it at this exact path: ");
    reveal_strlit("[attached image —");
    reveal_strlit("[attached file —");
    reveal_strlit("]");
    let t = attachment_line_text(a);
    assert(t[0] == '[' && t.last() == ']');
    assert(trimmed_start(t) == t);
    if a.image {
        assert(t.subrange(0, "[attached image —"@.len() as int) =~= "[attached image —"@);
        assert(t[10] == 'i');
        if starts(t, "[attached file —"@) {
            assert(t.subrange(0, "[attached file —"@.len() as int)[10] == 'f');
        }
    } else {
        assert(t.subrange(0, "[attached file —"@.len() as int) =~= "[attached file —"@);
        assert(t[10] == 'f');
        if starts(t, "[attached image —"@) {
            assert(t.subrange(0, "[attached image —"@.len() as int)[10] == 'i');
        }
    }
}

/// The parts of two texts with a separator between them.
pub proof fn lemma_pieces_join(a: Seq<char>, b: Seq<char>, sep: char)
    ensures
        pieces(a + seq![sep] + b, sep) == pieces(a, sep) + pieces(b, sep),
    decreases b.len(),
{
    if b.len() == 0 {
        assert(a + seq![sep] + b =~= a.push(sep));
        lemma_pieces_push(a, sep, sep);
        assert(pieces(a, sep) + pieces(b, sep) =~= pieces(a, sep).push(Seq::empty()));
    } else {
        let c = b.last();
        let rest = b.drop_last();
        let head = a + seq![sep] + rest;
        assert(a + seq![sep] + b =~= head.push(c));
        assert(b =~= rest.push(c));
        lemma_pieces_join(a, rest, sep);
        lemma_pieces_push(head, c, sep);
        lemma_pieces_push(rest, c, sep);
        lemma_pieces_nonempty(rest, sep);
        let x = pieces(a, sep);
        let y = pieces(rest, sep);
        assert((x + y).last() == y.last());
        assert((x + y).drop_last() =~= x + y.drop_last());
        assert((x + y).push(Seq::empty()) =~= x + y.push(Seq::empty()));
        assert((x + y.drop_last()).push(y.last().push(c)) =~= x + y.drop_last().push(
            y.last().push(c),
        ));
    }
}

pub proof fn lemma_one_piece(s: Seq<char>, sep: char)
    requires
        !s.contains(sep),
    ensures
        pieces(s, sep) == seq![s],
    decreases s.len(),
{
    if s.len() == 0 {
        assert(s =~= Seq::<char>::empty());
    } else {
        let rest = s.drop_last();
        assert(!rest.contains(sep)) by {
            if rest.contains(sep) {
                let i = choose|i: int| 0 <= i < rest.len() && rest[i] == sep;
                assert(s[i] == sep);
            }
        }
        lemma_one_piece(rest, sep);
        assert(s.last() != sep) by {
            assert(s[s.len() - 1] == s.last());
        }
        assert(s =~= rest.push(s.last()));
        lemma_pieces_push(rest, s.last(), sep);
        assert(seq![rest].drop_last().push(seq![rest].last().push(s.last())) =~= seq![s]);
    }
}

pub open spec fn marker_lines(list: Seq<Attached>) -> Seq<Seq<char>> {
    list.map_values(|a: Attached| attachment_line_text(a))
}

/// No path holds a line end.
pub open spec fn paths_on_one_line(list: Seq<Attached>) -> bool {
    forall|i: int| 0 <= i < list.len() ==> !(#[trigger] list[i]).path.contains('\n')
}

proof fn lemma_marker_line(a: Attached)
    requires
        !a.path.contains('\n'),
    ensures
        !attachment_line_text(a).contains('\n'),
        attachment_line_text(a).len() > 0,
        attachment_line_text(a).last() == ']',
{
    reveal_strlit("[attached image — call read_image on this exact path to view it: ");
    reveal_strlit("[attached file — read it at this exact path: ");
    reveal_strlit("]");
    let t = attachment_line_text(a);
    let lead = if a.image {
        "[attached image — call read_image on this exact path to view it: "@
    } else {
        "[attached file — read it at this exact path: "@
    };
    assert(t == lead + a.path + "]"@);
    assert forall|i: int| 0 <= i < t.len() implies t[i] != '\n' by {
        if i < lead.len() {
            assert(t[i] == lead[i]);
        } else if i < lead.len() + a.path.len() {
            assert(t[i] == a.path[i - lead.len()]);
            assert(a.path.contains(a.path[i - lead.len()]));
        } else {
            assert(t[i] == ']');
        }
    }
}

/// The parts of a message between line ends: those of the text, then a line for
/// each attachment.
proof fn lemma_message_pieces(e: Seq<char>, list: Seq<Attached>)
    requires
        list.len() > 0,
        paths_on_one_line(list),
    ensures
        with_attachments(e, list).len() > 0,
        pieces(with_attachments(e, list), '\n') == (if e.len() == 0 {
            Seq::<Seq<char>>::empty()
        } else {
            pieces(e, '\n')
        }) + marker_lines(list),
    decreases list.len(),
{
    reveal_strlit("\n");
    let rest = list.drop_last();
    let last = list[list.len() - 1];
    let line = attachment_line_text(last);
    let before = with_attachments(e, rest);
    lemma_marker_line(last);
    lemma_one_piece(line, '\n');
    assert("\n"@ =~= seq!['\n']);
    assert(marker_lines(list) =~= marker_lines(rest).push(line));
    let base = if e.len() == 0 {
        Seq::<Seq<char>>::empty()
    } else {
        pieces(e, '\n')
    };
    if rest.len() > 0 {
        assert forall|i: int| 0 <= i < rest.len() implies !(#[trigger] rest[i]).path.contains(
            '\n',
        ) by {
            assert(rest[i] == list[i]);
        }
        lemma_message_pieces(e, rest);
        lemma_pieces_join(before, line, '\n');
        assert((base + marker_lines(rest)) + seq![line] =~= base + marker_lines(list));
    } else {
        assert(marker_lines(rest) =~= Seq::empty());
        if e.len() > 0 {
            lemma_pieces_join(e, line, '\n');
            assert(base + seq![line] =~= base + marker_lines(list));
        } else {
            assert(seq![line] =~= base + marker_lines(list));
        }
    }
}

/// The lines of a text to which more lines are added.
pub open spec fn base_lines(e: Seq<char>) -> Seq<Seq<char>> {
    if e.len() == 0 {
        Seq::empty()
    } else {
        pieces(e, '\n').map_values(|l: Seq<char>| without_cr(l))
    }
}

proof fn lemma_message_lines(e: Seq<char>, list: Seq<Attached>)
    requires
        list.len() > 0,
        paths_on_one_line(list),
    ensures
        line_list(with_attachments(e, list)) == base_lines(e) + marker_lines(list),
{
    let m = with_attachments(e, list);
    lemma_message_pieces(e, list);
    let p = pieces(m, '\n');
    let f = |l: Seq<char>| without_cr(l);
    let markers = marker_lines(list);
    let base = if e.len() == 0 {
        Seq::<Seq<char>>::empty()
    } else {
        pieces(e, '\n')
    };
    assert forall|i: int| 0 <= i < markers.len() implies (#[trigger] markers[i]).len() > 0
        && without_cr(markers[i]) == markers[i] by {
        lemma_marker_line(list[i]);
    }
    assert(p.last() == markers.last());
    assert(markers[markers.len() - 1] == markers.last());
    let ended = p.drop_last().map_values(f);
    let all = base_lines(e) + markers;
    assert(ended.push(p.last()) =~= all) by {
        assert forall|i: int| 0 <= i < all.len() implies ended.push(p.last())[i] == all[i] by {
            if i < base.len() {
                assert(p[i] == base[i]);
            } else {
                assert(p[i] == markers[i - base.len()]);
            }
        }
    }
}

proof fn lemma_base_lines(e: Seq<char>)
    requires
        e.len() > 0 ==> e.last() != '\r',
    ensures
        base_lines(e) == line_list(e) || base_lines(e) == line_list(e).push(Seq::empty()),
{
    let f = |l: Seq<char>| without_cr(l);
    let p = pieces(e, '\n');
    lemma_pieces_nonempty(e, '\n');
    if e.len() == 0 {
        assert(p.drop_last() =~= Seq::empty());
        assert(line_list(e) =~= Seq::empty());
    } else {
        assert(p =~= p.drop_last().push(p.last()));
        assert(p.map_values(f) =~= p.drop_last().map_values(f).push(without_cr(p.last())));
        if p.last().len() > 0 {
            lemma_last_piece(e, '\n');
        } else {
            assert(p.last() =~= Seq::<char>::empty());
        }
    }
}

proof fn lemma_last_piece(s: Seq<char>, sep: char)
    requires
        s.len() > 0,
        pieces(s, sep).last().len() > 0,
    ensures
        pieces(s, sep).last().last() == s.last(),
{
    lemma_pieces_nonempty(s.drop_last(), sep);
}

proof fn lemma_filter_none(list: Seq<Seq<char>>, p: spec_fn(Seq<char>) -> bool)
    requires
        forall|i: int| 0 <= i < list.len() ==> !p(#[trigger] list[i]),
    ensures
        list.filter(p).len() == 0,
    decreases list.len(),
{
    reveal(Seq::filter);
    if list.len() > 0 {
        let rest = list.drop_last();
        assert forall|i: int| 0 <= i < rest.len() implies !p(#[trigger] rest[i]) by {
            assert(rest[i] == list[i]);
        }
        lemma_filter_none(rest, p);
        assert(!p(list[list.len() - 1]));
    }
}

/// How many of the attachments are images, and how many are not.
pub open spec fn kinds(list: Seq<Attached>) -> (nat, nat) {
    (
        list.filter(|a: Attached| a.image).len(),
        list.filter(|a: Attached| !a.image).len(),
    )
}

proof fn lemma_marker_counts(list: Seq<Attached>)
    ensures
        marker_lines(list).filter(|l: Seq<char>| image_marker(l)).len() == kinds(list).0,
        marker_lines(list).filter(|l: Seq<char>| !image_marker(l) && file_marker(l)).len() == kinds(
            list,
        ).1,
    decreases list.len(),
{
    let p = |l: Seq<char>| image_marker(l);
    let q = |l: Seq<char>| !image_marker(l) && file_marker(l);
    let a = |a: Attached| a.image;
    let b = |a: Attached| !a.image;
    if list.len() == 0 {
        marker_lines(list).lemma_filter_len(p);
        marker_lines(list).lemma_filter_len(q);
        list.lemma_filter_len(a);
        list.lemma_filter_len(b);
    } else {
        let rest = list.drop_last();
        let last = list.last();
        lemma_marker_counts(rest);
        attachment_lines_are_markers(last);
        assert(list =~= rest.push(last));
        assert(marker_lines(list) =~= marker_lines(rest).push(attachment_line_text(last)));
        marker_lines(rest).lemma_filter_push(attachment_line_text(last), p);
        marker_lines(rest).lemma_filter_push(attachment_line_text(last), q);
        rest.lemma_filter_push(last, a);
        rest.lemma_filter_push(last, b);
    }
}

/// The lines that name attachments are for the agent: the transcript hides them
/// and counts them by kind, and shows the rest of the message as without them. A
/// carriage return at the very end of the text becomes part of a line end, so what
/// stands before it on the last line must not itself name an attachment.
pub proof fn sent_attachments_are_hidden_and_counted(e: Seq<char>, list: Seq<Attached>)
    requires
        paths_on_one_line(list),
        e.len() > 0 && e.last() == '\r' ==> !attachment_marker(
            pieces(e, '\n').last().drop_last(),
        ),
    ensures
        without_markers(with_attachments(e, list)) == without_markers(e),
        attachments(with_attachments(e, list)) == (
            attachments(e).0 + kinds(list).0,
            attachments(e).1 + kinds(list).1,
        ),
{
    let none = |l: Seq<char>| !attachment_marker(l);
    let p = |l: Seq<char>| image_marker(l);
    let q = |l: Seq<char>| !image_marker(l) && file_marker(l);
    lemma_marker_counts(list);
    if list.len() > 0 {
        let markers = marker_lines(list);
        let base = base_lines(e);
        let own = line_list(e);
        let empty = Seq::<char>::empty();
        lemma_message_lines(e, list);
        Seq::filter_distributes_over_add(base, markers, none);
        Seq::filter_distributes_over_add(base, markers, p);
        Seq::filter_distributes_over_add(base, markers, q);
        assert forall|i: int| 0 <= i < markers.len() implies !none(#[trigger] markers[i]) by {
            attachment_lines_are_markers(list[i]);
        }
        lemma_filter_none(markers, none);
        assert(base.filter(none) + markers.filter(none) =~= base.filter(none));
        reveal_strlit("[attached image —");
        reveal_strlit("[attached file —");
        assert(trimmed_start(empty) == empty);
        assert(!image_marker(empty) && !file_marker(empty));
        if e.len() > 0 && e.last() == '\r' {
            lemma_base_cr(e);
            let parts = pieces(e, '\n');
            let ended = parts.drop_last().map_values(|l: Seq<char>| without_cr(l));
            let x = parts.last().drop_last();
            lemma_cr_no_marker(parts.last());
            ended.lemma_filter_push(x, none);
            ended.lemma_filter_push(x, p);
            ended.lemma_filter_push(x, q);
            ended.lemma_filter_push(parts.last(), none);
            ended.lemma_filter_push(parts.last(), p);
            ended.lemma_filter_push(parts.last(), q);
            lemma_trailing_cr(ended.filter(none), parts.last());
        } else {
            lemma_base_lines(e);
            own.lemma_filter_push(empty, none);
            own.lemma_filter_push(empty, p);
            own.lemma_filter_push(empty, q);
            if base != own {
                let kept = own.filter(none);
                lemma_trailing_empty(kept);
            }
        }
    } else {
        let a = |a: Attached| a.image;
        let b = |a: Attached| !a.image;
        list.lemma_filter_len(a);
        list.lemma_filter_len(b);
    }
}

/// The last line of a text that ends with a carriage return.
proof fn lemma_base_cr(e: Seq<char>)
    requires
        e.len() > 0,
        e.last() == '\r',
    ensures
        ({
            let parts = pieces(e, '\n');
            let ended = parts.drop_last().map_values(|l: Seq<char>| without_cr(l));
            &&& parts.last().len() > 0 && parts.last().last() == '\r'
            &&& line_list(e) == ended.push(parts.last())
            &&& base_lines(e) == ended.push(parts.last().drop_last())
        }),
{
    let f = |l: Seq<char>| without_cr(l);
    let parts = pieces(e, '\n');
    lemma_pieces_nonempty(e.drop_last(), '\n');
    assert(parts =~= parts.drop_last().push(parts.last()));
    assert(base_lines(e) =~= parts.drop_last().map_values(f).push(without_cr(parts.last())));
}

/// A line that ends with a carriage return names no attachment.
proof fn lemma_cr_no_marker(line: Seq<char>)
    requires
        line.len() > 0,
        line.last() == '\r',
    ensures
        !image_marker(line),
        !file_marker(line),
        trimmed_start(line).len() > 0 ==> trimmed_start(line).last() == '\r',
    decreases line.len(),
{
    if is_white(line[0]) && line.len() > 1 {
        lemma_cr_no_marker(line.skip(1));
    } else {
        assert(line.len() == 1 ==> trimmed_start(line.skip(1)).len() == 0);
    }
}

proof fn lemma_trailing_cr(list: Seq<Seq<char>>, line: Seq<char>)
    requires
        line.len() > 0,
        line.last() == '\r',
    ensures
        trimmed_end(joined(list.push(line), "\n"@)) == trimmed_end(
            joined(list.push(line.drop_last()), "\n"@),
        ),
{
    let x = joined(list.push(line.drop_last()), "\n"@);
    let y = joined(list.push(line), "\n"@);
    assert(list.push(line).drop_last() =~= list);
    assert(list.push(line.drop_last()).drop_last() =~= list);
    assert(y =~= x.push('\r'));
    assert(y.drop_last() =~= x);
    assert(is_white('\r'));
}

proof fn lemma_trailing_empty(list: Seq<Seq<char>>)
    ensures
        trimmed_end(joined(list.push(Seq::empty()), "\n"@)) == trimmed_end(joined(list, "\n"@)),
{
    reveal_strlit("\n");
    let more = list.push(Seq::empty());
    assert(more.drop_last() =~= list);
    if list.len() == 0 {
        assert(joined(more, "\n"@) =~= joined(list, "\n"@));
    } else {
        let x = joined(list, "\n"@);
        let y = joined(more, "\n"@);
        assert(y =~= x.push('\n'));
        assert(y.drop_last() =~= x);
        assert(is_white('\n'));
    }
}

} // verus!
