//! What happens with time: the state is read, turns come to an end, and what was
//! waited for arrives.
use crate::app::{App, Desk, flushed};
use crate::connecting::{Ending, Outcome};
use crate::effects::{Deed, Effect, deeds, no_effects};
use crate::events::{
    Conversation, Happening, HarnessEvent, HarnessState, decides, happenings, is_step,
};
use crate::form::{Entry, models_loaded, one_line_paste, typed};
use crate::paths::{file_name, file_name_of, join_path, path_joined};
use crate::prompt::{Attached, Attachment, Draft, image_path, is_image_path, pasted_in};
use crate::text::{cat2, cat3, cat4, starts, starts_with, texts};
use crate::watches::look;
use vstd::prelude::*;

verus! {

// ---------------------------------------------------------------------------
// Reading the state
// ---------------------------------------------------------------------------

/// What a look at the file of the conversation shows.
#[derive(Clone, Copy, PartialEq, Eq, Structural, Debug)]
pub enum Glance {
    /// It is not there.
    Missing,
    /// It is there, and it is not known when it changed.
    Undated,
    /// When it changed, in nanoseconds from the epoch.
    Changed(i128),
}

/// What reading the file gave.
pub enum StateRead {
    Readable(HarnessState),
    Unreadable,
    NotFound,
    Failed(String),
}

pub ghost enum Reading {
    Readable(Conversation),
    Unreadable,
    NotFound,
    Failed(Seq<char>),
}

impl View for StateRead {
    type V = Reading;

    open spec fn view(&self) -> Reading {
        match *self {
            StateRead::Readable(s) => Reading::Readable(s@),
            StateRead::Unreadable => Reading::Unreadable,
            StateRead::NotFound => Reading::NotFound,
            StateRead::Failed(e) => Reading::Failed(e@),
        }
    }
}

/// What follows from a look at the file: whether it is read, and whether what was
/// streamed is in it now.
#[derive(Clone, Copy, PartialEq, Eq, Structural, Debug)]
pub struct Sight {
    pub read: bool,
    pub committed: bool,
}

/// A look at the file. One that has not changed is not read again. One that has
/// shows what was handed over.
pub open spec fn looked(d: Desk, g: Glance) -> (Desk, Sight) {
    match g {
        Glance::Missing => (
            Desk { state: None, stamp: None, ..d },
            Sight { read: false, committed: false },
        ),
        Glance::Undated => (d, Sight { read: true, committed: false }),
        Glance::Changed(t) => if d.stamp == Some(t) {
            (d, Sight { read: false, committed: false })
        } else {
            (
                Desk { stamp: Some(t), pending: false, ..d },
                Sight { read: true, committed: true },
            )
        },
    }
}

/// The file was read.
pub open spec fn state_read(d: Desk, s: Reading) -> Desk {
    match s {
        Reading::Readable(c) => Desk { state: Some(c), ..d },
        Reading::Unreadable => Desk {
            state: None,
            status: "This session's saved state is unreadable — start a new task to replace it."@,
            ..d
        },
        Reading::NotFound => Desk { state: None, stamp: None, ..d },
        Reading::Failed(e) => Desk { error: Some("state read error: "@ + e), stamp: None, ..d },
    }
}

impl App {
    /// Looks at the file of the conversation.
    pub fn look(&mut self, g: Glance) -> (r: Sight)
        ensures
            (final(self)@, r) == looked(old(self)@, g),
    {
        match g {
            Glance::Missing => {
                self.state = None;
                self.stamp = None;
                Sight { read: false, committed: false }
            },
            Glance::Undated => Sight { read: true, committed: false },
            Glance::Changed(t) => {
                let known = match self.stamp {
                    Some(s) => s == t,
                    None => false,
                };
                if known {
                    Sight { read: false, committed: false }
                } else {
                    self.stamp = Some(t);
                    self.pending = false;
                    Sight { read: true, committed: true }
                }
            },
        }
    }

    /// Takes what reading the file gave.
    pub fn take_state(&mut self, s: StateRead)
        ensures
            final(self)@ == state_read(old(self)@, s@),
    {
        match s {
            StateRead::Readable(c) => {
                self.state = Some(c);
            },
            StateRead::Unreadable => {
                self.state = None;
                self.status = "This session's saved state is unreadable — start a new task to replace it.".to_string();
            },
            StateRead::NotFound => {
                self.state = None;
                self.stamp = None;
            },
            StateRead::Failed(e) => {
                self.error = Some(cat2("state read error: ", e.as_str()));
                self.stamp = None;
            },
        }
    }
}

// ---------------------------------------------------------------------------
// Turns
// ---------------------------------------------------------------------------

/// The number of the next frame.
pub open spec fn next_frame(f: usize) -> usize {
    if f == usize::MAX {
        0
    } else {
        (f + 1) as usize
    }
}

/// What is held goes out when a turn is over.
pub open spec fn turn_over(d: Desk, busy: bool) -> (Desk, Seq<Deed>) {
    if d.was_busy && !busy && d.queued.len() > 0 {
        flushed(d)
    } else {
        (d, Seq::empty())
    }
}

/// Whether there is a turn is remembered, and that one is interrupted is said no
/// longer than there is one.
pub open spec fn settled(d: Desk, busy: bool) -> Desk {
    Desk {
        status: if !busy && starts(d.status, "Interrupting"@) {
            ""@
        } else {
            d.status
        },
        was_busy: busy,
        ..d
    }
}

/// How often the history was compacted.
pub open spec fn times_compacted(events: Seq<Happening>) -> nat
    decreases events.len(),
{
    if events.len() == 0 {
        0
    } else {
        times_compacted(events.drop_last()) + (if is_step(events.last(), "history_compacted"@) {
            1nat
        } else {
            0
        })
    }
}

pub open spec fn compactions(d: Desk) -> nat {
    match d.state {
        Some(c) => times_compacted(c.events),
        None => 0,
    }
}

fn count_compacted(events: &Vec<HarnessEvent>) -> (r: usize)
    ensures
        r == times_compacted(happenings(events@)),
{
    let ghost all = happenings(events@);
    let mut n: usize = 0;
    for i in 0..events.len()
        invariant
            all == happenings(events@),
            n == times_compacted(all.take(i as int)),
            n <= i,
    {
        assert(all.take(i + 1).drop_last() =~= all.take(i as int));
        assert(all.take(i + 1).last() == events@[i as int]@);
        if decides(&events[i], "history_compacted") {
            n += 1;
        }
    }
    assert(all.take(all.len() as int) =~= all);
    n
}

impl App {
    /// Goes to the next frame. Says whether it is one at which the usage of the
    /// account is read.
    pub fn next_frame(&mut self) -> (r: bool)
        ensures
            final(self)@ == (Desk { frame: next_frame(old(self)@.frame), ..old(self)@ }),
            r == (next_frame(old(self)@.frame) % 8 == 0),
    {
        self.frame = if self.frame == usize::MAX {
            0
        } else {
            self.frame + 1
        };
        self.frame % 8 == 0
    }

    /// Submits what is held where a turn is over.
    pub fn end_turn(&mut self, busy: bool) -> (r: Vec<Effect>)
        ensures
            (final(self)@, deeds(r@)) == turn_over(old(self)@, busy),
    {
        assert(self@.queued.len() == self.queued@.len());
        if self.was_busy && !busy && self.queued.len() > 0 {
            self.flush_queued_input()
        } else {
            no_effects()
        }
    }

    /// Remembers whether there is a turn.
    pub fn settle(&mut self, busy: bool)
        ensures
            final(self)@ == settled(old(self)@, busy),
    {
        if !busy && starts_with(self.status.as_str(), "Interrupting") {
            self.status = "".to_string();
        }
        self.was_busy = busy;
    }

    /// Notices compactions. Says whether there is a new one, which is shown for a
    /// while.
    pub fn notice_compactions(&mut self) -> (r: bool)
        ensures
            r == (compactions(old(self)@) > old(self)@.seen_compactions),
            final(self)@ == (Desk { seen_compactions: compactions(old(self)@), ..old(self)@ }),
    {
        let n: usize = match &self.state {
            Some(s) => count_compacted(&s.events),
            None => 0,
        };
        let new = n > self.seen_compactions;
        self.seen_compactions = n;
        new
    }
}

// ---------------------------------------------------------------------------
// What was waited for
// ---------------------------------------------------------------------------

pub open spec fn list_outcome(o: Outcome<Vec<String>>) -> Ending<Seq<Seq<char>>> {
    match o {
        Outcome::Done(l) => Ending::Done(texts(l@)),
        Outcome::Failed(e) => Ending::Failed(e@),
        Outcome::Crashed(e) => Ending::Crashed(e@),
    }
}

pub open spec fn end_outcome(o: Outcome<()>) -> Ending<()> {
    match o {
        Outcome::Done(_) => Ending::Done(()),
        Outcome::Failed(e) => Ending::Failed(e@),
        Outcome::Crashed(e) => Ending::Crashed(e@),
    }
}

/// The provider answered, or it did not.
pub open spec fn models_arrived(e: Entry, o: Ending<Seq<Seq<char>>>) -> Entry {
    match o {
        Ending::Done(list) => models_loaded(e, list),
        Ending::Failed(t) => Entry { fetch_status: "Fetch failed: "@ + t, ..e },
        Ending::Crashed(t) => Entry { fetch_status: "Fetch task crashed: "@ + t, ..e },
    }
}

/// The loop has ended.
pub open spec fn loop_over(d: Desk, o: Ending<()>) -> Desk {
    let e = Desk { held: false, linked: false, ..d };
    match o {
        Ending::Done(_) => Desk { status: ""@, ..e },
        Ending::Failed(t) => Desk { status: "Run failed."@, error: Some(t), ..e },
        Ending::Crashed(t) => Desk { status: "Run task crashed."@, error: Some(t), ..e },
    }
}

impl App {
    /// The provider answered with its models, or it did not.
    pub fn models_fetched(&mut self, o: Outcome<Vec<String>>)
        ensures
            final(self)@ == (Desk {
                entry: models_arrived(old(self)@.entry, list_outcome(o)),
                ..old(self)@
            }),
    {
        match o {
            Outcome::Done(list) => self.form.load_models(list),
            Outcome::Failed(e) => self.form.fail_models(e.as_str(), false),
            Outcome::Crashed(e) => self.form.fail_models(e.as_str(), true),
        }
    }

    /// The loop has ended.
    pub fn loop_ended(&mut self, o: Outcome<()>)
        ensures
            final(self)@ == loop_over(old(self)@, end_outcome(o)),
    {
        self.held = false;
        self.linked = false;
        match o {
            Outcome::Done(_) => {
                self.status = "".to_string();
            },
            Outcome::Failed(e) => {
                self.status = "Run failed.".to_string();
                self.error = Some(e);
            },
            Outcome::Crashed(e) => {
                self.status = "Run task crashed.".to_string();
                self.error = Some(e);
            },
        }
    }
}

// ---------------------------------------------------------------------------
// Pastes and attachments
// ---------------------------------------------------------------------------

/// A text is pasted: into the form while that is open, and else into the prompt.
pub open spec fn pasted_text(d: Desk, text: Seq<char>) -> Desk {
    if d.connecting {
        let line = one_line_paste(text);
        Desk {
            entry: if line.len() == 0 {
                d.entry
            } else {
                typed(d.entry, line)
            },
            ..d
        }
    } else {
        Desk { draft: pasted_in(d.draft, text), suggestion: 0, ..d }
    }
}

/// The directory to which what is attached is copied.
pub open spec fn scratch(workspace: Seq<char>, image: bool) -> Seq<char> {
    path_joined(
        path_joined(path_joined(workspace, ".snippet"@), "scratch"@),
        if image {
            "images"@
        } else {
            "files"@
        },
    )
}

/// The name of a file that is attached.
pub open spec fn attached_name(path: Seq<char>) -> Seq<char> {
    match file_name(path) {
        Some(n) => n,
        None => "file"@,
    }
}

/// The place to which a file is copied, under a name that begins with an id.
pub open spec fn attached_path(workspace: Seq<char>, path: Seq<char>, id: Seq<char>) -> Seq<char> {
    path_joined(scratch(workspace, image_path(path)), id + "-"@ + attached_name(path))
}

/// The directory to which what is attached is copied.
pub fn scratch_dir(workspace: &str, image: bool) -> (r: String)
    ensures
        r@ == scratch(workspace@, image),
{
    let a = join_path(workspace, ".snippet");
    let b = join_path(a.as_str(), "scratch");
    if image {
        join_path(b.as_str(), "images")
    } else {
        join_path(b.as_str(), "files")
    }
}

/// The name of a file that is attached.
pub fn attachment_name(path: &str) -> (r: String)
    ensures
        r@ == attached_name(path@),
{
    match file_name_of(path) {
        Some(n) => n,
        None => "file".to_string(),
    }
}

/// The place to which a file is copied.
pub fn attachment_path(workspace: &str, path: &str, id: &str) -> (r: String)
    ensures
        r@ == attached_path(workspace@, path@, id@),
{
    let dir = scratch_dir(workspace, is_image_path(path));
    let name = attachment_name(path);
    let file = cat3(id, "-", name.as_str());
    join_path(dir.as_str(), file.as_str())
}

/// How attaching a file turned out.
pub enum Attach {
    Copied { path: String },
    /// There is no directory to copy to.
    NoPlace { error: String },
    NotCopied { error: String },
}

pub ghost enum Attaching {
    Copied { path: Seq<char> },
    NoPlace { error: Seq<char> },
    NotCopied { error: Seq<char> },
}

impl View for Attach {
    type V = Attaching;

    open spec fn view(&self) -> Attaching {
        match *self {
            Attach::Copied { path } => Attaching::Copied { path: path@ },
            Attach::NoPlace { error } => Attaching::NoPlace { error: error@ },
            Attach::NotCopied { error } => Attaching::NotCopied { error: error@ },
        }
    }
}

/// A file that was dropped is attached.
pub open spec fn file_attached(d: Desk, source: Seq<char>, a: Attaching) -> Desk {
    let name = attached_name(source);
    match a {
        Attaching::Copied { path } => Desk {
            draft: Draft {
                attached: d.draft.attached.push(
                    Attached { image: image_path(source), path, name },
                ),
                ..d.draft
            },
            status: "📎 attached "@ + name,
            ..d
        },
        Attaching::NoPlace { error } => Desk { status: "couldn't attach: "@ + error, ..d },
        Attaching::NotCopied { error } => Desk {
            status: "couldn't attach "@ + name + ": "@ + error,
            ..d
        },
    }
}

/// How taking an image off the clipboard turned out.
pub enum Screenshot {
    Taken { path: String },
    NoPlace { error: String },
    /// There is none. On some systems a tool is needed for it.
    Absent { needs_tool: bool },
}

pub ghost enum Shot {
    Taken { path: Seq<char> },
    NoPlace { error: Seq<char> },
    Absent { needs_tool: bool },
}

impl View for Screenshot {
    type V = Shot;

    open spec fn view(&self) -> Shot {
        match *self {
            Screenshot::Taken { path } => Shot::Taken { path: path@ },
            Screenshot::NoPlace { error } => Shot::NoPlace { error: error@ },
            Screenshot::Absent { needs_tool } => Shot::Absent { needs_tool },
        }
    }
}

/// An image off the clipboard is attached.
pub open spec fn image_attached(d: Desk, s: Shot) -> Desk {
    match s {
        Shot::Taken { path } => Desk {
            draft: Draft {
                attached: d.draft.attached.push(
                    Attached { image: true, path, name: "screenshot"@ },
                ),
                ..d.draft
            },
            status: "📎 attached screenshot"@,
            ..d
        },
        Shot::NoPlace { error } => Desk {
            status: "couldn't create image temp dir: "@ + error,
            ..d
        },
        Shot::Absent { needs_tool } => Desk {
            status: if needs_tool {
                "No clipboard image — copy a screenshot first (needs wl-paste or xclip on Linux)."@
            } else {
                "No image on the clipboard — copy a screenshot first."@
            },
            ..d
        },
    }
}

impl App {
    /// Takes a text that was pasted and is no file.
    pub fn paste(&mut self, text: &str)
        ensures
            final(self)@ == pasted_text(old(self)@, text@),
    {
        if self.connecting {
            self.form.paste(text);
        } else {
            self.prompt.paste(text);
            self.suggestion = 0;
        }
    }

    /// A file that was dropped was copied, or it was not.
    pub fn attach_dropped(&mut self, source: &str, a: Attach)
        ensures
            final(self)@ == file_attached(old(self)@, source@, a@),
    {
        let name = attachment_name(source);
        match a {
            Attach::Copied { path } => {
                self.status = cat2("📎 attached ", name.as_str());
                self.prompt.attach(Attachment { image: is_image_path(source), path, name });
            },
            Attach::NoPlace { error } => {
                self.status = cat2("couldn't attach: ", error.as_str());
            },
            Attach::NotCopied { error } => {
                self.status = cat4("couldn't attach ", name.as_str(), ": ", error.as_str());
            },
        }
    }

    /// An image was taken off the clipboard, or there was none.
    pub fn attach_image(&mut self, s: Screenshot)
        ensures
            final(self)@ == image_attached(old(self)@, s@),
    {
        match s {
            Screenshot::Taken { path } => {
                self.prompt.attach(
                    Attachment { image: true, path, name: "screenshot".to_string() },
                );
                self.status = "📎 attached screenshot".to_string();
            },
            Screenshot::NoPlace { error } => {
                self.status = cat2("couldn't create image temp dir: ", error.as_str());
            },
            Screenshot::Absent { needs_tool } => {
                if needs_tool {
                    self.status = "No clipboard image — copy a screenshot first (needs wl-paste or xclip on Linux).".to_string();
                } else {
                    self.status = "No image on the clipboard — copy a screenshot first.".to_string();
                }
            },
        }
    }
}

} // verus!
