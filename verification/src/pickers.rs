//! The screens on which a palette or a saved conversation is picked.
use crate::app::{App, Around, Desk, Picking, Screen, World, saying, switched};
use crate::blocks::{less, smaller};
use crate::commands::copy_pairs;
use crate::effects::{Deed, Effect, deeds, no_effects, one_effect, push_effect};
use crate::form::{copy_opt, turned_by_one};
use crate::keys::KeyCode;
use crate::profiles::{back_around, step, step_back_around};
use crate::style::room;
use crate::text::{cat2, cat3, opt_text, take_chars, trim, trimmed};
use crate::vault::pair_texts;
use vstd::prelude::*;

verus! {

/// The main screen again.
pub open spec fn back_to_main(d: Desk, status: Seq<char>) -> Desk {
    Desk { screen: Screen::Main, status, ..d }
}

/// A palette is shown while it is selected.
pub open spec fn theme_shown(d: Desk, i: nat) -> (Desk, Seq<Deed>) {
    (Desk { theme_selected: i, ..d }, seq![Deed::ShowTheme { index: i }])
}

/// A key on the screen of the palettes. Each is shown as it is selected; giving up
/// shows the first one again.
pub open spec fn theme_key(d: Desk, code: KeyCode, w: Around) -> (Desk, Seq<Deed>) {
    let n = w.themes.len();
    let at = d.theme_selected;
    match code {
        KeyCode::Up => if n == 0 {
            (d, Seq::empty())
        } else {
            theme_shown(d, back_around(at, n))
        },
        KeyCode::Down => if n == 0 {
            (d, Seq::empty())
        } else {
            theme_shown(d, turned_by_one(at, n, true))
        },
        KeyCode::Enter => (
            back_to_main(
                d,
                "Theme: "@ + (if at < n {
                    w.themes[at as int]
                } else {
                    ""@
                }),
            ),
            seq![Deed::ShowTheme { index: at }, Deed::PersistTheme],
        ),
        KeyCode::Esc => (
            back_to_main(d, ""@),
            seq![Deed::ShowTheme { index: d.theme_original }],
        ),
        _ => (d, Seq::empty()),
    }
}

impl App {
    /// A key on the screen of the palettes.
    pub fn handle_theme_key(&mut self, code: KeyCode, w: &World) -> (r: Vec<Effect>)
        ensures
            (final(self)@, deeds(r@)) == theme_key(old(self)@, code, w@),
    {
        let n = w.themes.len();
        assert(w@.themes.len() == n);
        let at = self.theme_selected;
        match code {
            KeyCode::Up => {
                if n == 0 {
                    no_effects()
                } else {
                    self.show_theme(step_back_around(at, n))
                }
            },
            KeyCode::Down => {
                if n == 0 {
                    no_effects()
                } else {
                    self.show_theme(step(at, n, true))
                }
            },
            KeyCode::Enter => {
                let label = if at < n {
                    assert(w@.themes[at as int] == w.themes@[at as int]@);
                    w.themes[at].as_str()
                } else {
                    ""
                };
                let note = cat2("Theme: ", label);
                self.go_main(note.as_str());
                let mut out = one_effect(Effect::ShowTheme { index: at });
                push_effect(&mut out, Effect::PersistTheme);
                assert(deeds(out@) =~= seq![
                    Deed::ShowTheme { index: at as nat },
                    Deed::PersistTheme,
                ]);
                out
            },
            KeyCode::Esc => {
                let first = self.theme_original;
                self.go_main("");
                one_effect(Effect::ShowTheme { index: first })
            },
            _ => no_effects(),
        }
    }

    fn show_theme(&mut self, i: usize) -> (r: Vec<Effect>)
        ensures
            (final(self)@, deeds(r@)) == theme_shown(old(self)@, i as nat),
    {
        self.theme_selected = i;
        one_effect(Effect::ShowTheme { index: i })
    }

    /// Goes to the main screen.
    pub(crate) fn go_main(&mut self, status: &str)
        ensures
            final(self)@ == back_to_main(old(self)@, status@),
    {
        self.screen = Screen::Main;
        self.status = status.to_owned();
    }
}

// ---------------------------------------------------------------------------
// Conversations
// ---------------------------------------------------------------------------

pub open spec fn renaming_note(title: Seq<char>) -> Seq<char> {
    "Rename: "@ + title + "_  (Enter to save · Esc to cancel)"@
}

pub open spec fn renamed_note(title: Seq<char>) -> Seq<char> {
    let short = trimmed(title).take(smaller(trimmed(title).len(), 40) as int);
    if short.len() == 0 {
        "Title cleared."@
    } else {
        "Renamed to “"@ + short + "”."@
    }
}

/// A title is written, or none is, and something is said of it.
pub open spec fn title_now(d: Desk, title: Option<Seq<char>>, status: Seq<char>) -> Desk {
    Desk { picking: Picking { renaming: title, ..d.picking }, status, ..d }
}

pub open spec fn title_written(d: Desk, title: Seq<char>) -> (Desk, Seq<Deed>) {
    (title_now(d, Some(title), renaming_note(title)), Seq::empty())
}

/// The conversation that is selected.
pub open spec fn picked(d: Desk, list: Seq<(Seq<char>, Seq<char>)>) -> (Seq<char>, Seq<char>) {
    list[smaller(d.picking.selected, (list.len() - 1) as nat) as int]
}

/// A key while a title is written: it is written on, saved or given up.
pub open spec fn rename_key(
    d: Desk,
    code: KeyCode,
    list: Seq<(Seq<char>, Seq<char>)>,
    title: Seq<char>,
) -> (Desk, Seq<Deed>) {
    match code {
        KeyCode::Char(c) => title_written(d, title.push(c)),
        KeyCode::Backspace => title_written(d, title.take(room(title.len(), 1) as int)),
        KeyCode::Enter => (
            title_now(d, None, renamed_note(title)),
            seq![
                Deed::RenameSession { name: picked(d, list).0, title: trimmed(title) },
                Deed::ListSessions,
            ],
        ),
        KeyCode::Esc => (title_now(d, None, "Rename cancelled."@), Seq::empty()),
        _ => (d, Seq::empty()),
    }
}

/// Another conversation is selected, and deleting is not asked for any more.
pub open spec fn selected(d: Desk, i: nat) -> (Desk, Seq<Deed>) {
    (
        Desk { picking: Picking { selected: i, deleting: false, ..d.picking }, ..d },
        Seq::empty(),
    )
}

pub open spec fn confirm_note(title: Seq<char>) -> Seq<char> {
    "Press d again to delete \""@ + title.take(smaller(title.len(), 48) as int)
        + "\", or Esc/↑↓ to cancel."@
}

/// Deleting is asked for, or not any more.
pub open spec fn delete_asked(d: Desk, asked: bool) -> Desk {
    Desk { picking: Picking { deleting: asked, ..d.picking }, ..d }
}

/// A conversation was deleted and so many are left. What is selected is one of
/// them.
pub open spec fn after_delete(d: Desk, left: nat) -> Desk {
    if left == 0 {
        back_to_main(d, "Session deleted. No saved sessions left."@)
    } else {
        Desk {
            picking: Picking {
                selected: if d.picking.selected >= left {
                    (left - 1) as nat
                } else {
                    d.picking.selected
                },
                ..d.picking
            },
            status: "Session deleted."@,
            ..d
        }
    }
}

/// Deleting takes to ask for it twice.
pub open spec fn delete_key(d: Desk, list: Seq<(Seq<char>, Seq<char>)>) -> (Desk, Seq<Deed>) {
    let (name, title) = picked(d, list);
    let left = (list.len() - 1) as nat;
    if !d.picking.deleting {
        saying(delete_asked(d, true), confirm_note(title))
    } else {
        (
            after_delete(delete_asked(d, false), left),
            seq![Deed::DeleteSession { name }, Deed::ListSessions],
        )
    }
}

/// The list is left.
pub open spec fn list_left(d: Desk) -> Desk {
    Desk { picking: Picking { deleting: false, list: None, ..d.picking }, ..d }
}

/// A title begins to be written.
pub open spec fn rename_begun(d: Desk) -> (Desk, Seq<Deed>) {
    (
        title_now(
            delete_asked(d, false),
            Some(""@),
            "Rename: type a new title, Enter to save, Esc to cancel."@,
        ),
        Seq::empty(),
    )
}

/// The list is left for the conversation that is selected.
pub open spec fn pick_key(d: Desk, list: Seq<(Seq<char>, Seq<char>)>) -> (Desk, Seq<Deed>) {
    let (e, out) = switched(list_left(d), picked(d, list).0);
    (Desk { screen: Screen::Main, ..e }, out.push(Deed::TryResume))
}

/// A key on the list of conversations, which holds some.
pub open spec fn list_key(d: Desk, code: KeyCode, list: Seq<(Seq<char>, Seq<char>)>) -> (
    Desk,
    Seq<Deed>,
) {
    match code {
        KeyCode::Up => selected(d, turned_by_one(d.picking.selected, list.len(), false)),
        KeyCode::Down => selected(d, turned_by_one(d.picking.selected, list.len(), true)),
        KeyCode::Char(c) => if c == 'd' {
            delete_key(d, list)
        } else if c == 'r' {
            rename_begun(d)
        } else {
            (d, Seq::empty())
        },
        KeyCode::Enter => pick_key(d, list),
        KeyCode::Esc => (
            back_to_main(list_left(d), "Type a task and press Enter."@),
            Seq::empty(),
        ),
        _ => (d, Seq::empty()),
    }
}

/// The conversations as they were listed.
pub open spec fn list_kept(d: Desk, list: Seq<(Seq<char>, Seq<char>)>) -> Desk {
    Desk { picking: Picking { list: Some(list), ..d.picking }, ..d }
}

/// A key on the screen of the conversations. They are listed once, not at every
/// key.
pub open spec fn resume_key(d: Desk, code: KeyCode, w: Around) -> (Desk, Seq<Deed>) {
    let list = match d.picking.list {
        Some(l) => l,
        None => w.sessions,
    };
    let e = list_kept(d, list);
    if list.len() == 0 {
        if code == KeyCode::Esc {
            (back_to_main(e, "Type a task and press Enter."@), Seq::empty())
        } else {
            (e, Seq::empty())
        }
    } else {
        match d.picking.renaming {
            Some(title) => rename_key(e, code, list, title),
            None => list_key(e, code, list),
        }
    }
}

fn index_of_pick(selected: usize, n: usize) -> (r: usize)
    requires
        n > 0,
    ensures
        r == smaller(selected as nat, (n - 1) as nat),
        r < n,
{
    if selected <= n - 1 {
        selected
    } else {
        n - 1
    }
}

impl App {
    fn set_title(&mut self, title: Option<String>, status: &str)
        ensures
            final(self)@ == title_now(old(self)@, opt_text(title), status@),
    {
        self.picker.renaming = title;
        self.status = status.to_owned();
    }

    fn write_title(&mut self, title: String) -> (r: Vec<Effect>)
        ensures
            (final(self)@, deeds(r@)) == title_written(old(self)@, title@),
    {
        let note = cat3("Rename: ", title.as_str(), "_  (Enter to save · Esc to cancel)");
        self.set_title(Some(title), note.as_str());
        no_effects()
    }

    fn save_title(&mut self, list: &Vec<(String, String)>, title: &str) -> (r: Vec<Effect>)
        requires
            list@.len() > 0,
        ensures
            (final(self)@, deeds(r@)) == rename_key(
                old(self)@,
                KeyCode::Enter,
                pair_texts(list@),
                title@,
            ),
    {
        let i = index_of_pick(self.picker.selected, list.len());
        let name = list[i].0.clone();
        assert(pair_texts(list@)[i as int].0 == name@);
        let t = trim(title);
        let note = say_renamed(title);
        self.set_title(None, note.as_str());
        let ghost t_view = t@;
        let ghost n_view = name@;
        let mut out = one_effect(Effect::RenameSession { name, title: t });
        push_effect(&mut out, Effect::ListSessions);
        assert(deeds(out@) =~= seq![
            Deed::RenameSession { name: n_view, title: t_view },
            Deed::ListSessions,
        ]);
        out
    }

    fn handle_rename_key(
        &mut self,
        code: KeyCode,
        list: &Vec<(String, String)>,
        title: &str,
    ) -> (r: Vec<Effect>)
        requires
            list@.len() > 0,
        ensures
            (final(self)@, deeds(r@)) == rename_key(
                old(self)@,
                code,
                pair_texts(list@),
                title@,
            ),
    {
        match code {
            KeyCode::Char(c) => {
                let mut t = title.to_owned();
                t.push(c);
                self.write_title(t)
            },
            KeyCode::Backspace => {
                let n: usize = title.unicode_len();
                let t = take_chars(title, less(n, 1));
                self.write_title(t)
            },
            KeyCode::Enter => self.save_title(list, title),
            KeyCode::Esc => {
                self.set_title(None, "Rename cancelled.");
                no_effects()
            },
            _ => no_effects(),
        }
    }

    fn ask_delete(&mut self, asked: bool)
        ensures
            final(self)@ == delete_asked(old(self)@, asked),
    {
        self.picker.deleting = asked;
    }

    fn select(&mut self, i: usize) -> (r: Vec<Effect>)
        ensures
            (final(self)@, deeds(r@)) == selected(old(self)@, i as nat),
    {
        self.picker.deleting = false;
        self.picker.selected = i;
        no_effects()
    }

    fn stay_among(&mut self, left: usize)
        ensures
            final(self)@ == after_delete(old(self)@, left as nat),
    {
        if left == 0 {
            self.go_main("Session deleted. No saved sessions left.");
        } else {
            if self.picker.selected >= left {
                self.picker.selected = left - 1;
            }
            self.status = "Session deleted.".to_string();
        }
    }

    fn press_delete(&mut self, list: &Vec<(String, String)>) -> (r: Vec<Effect>)
        requires
            list@.len() > 0,
        ensures
            (final(self)@, deeds(r@)) == delete_key(old(self)@, pair_texts(list@)),
    {
        let i = index_of_pick(self.picker.selected, list.len());
        let (name, title) = &list[i];
        assert(pair_texts(list@)[i as int] == (name@, title@));
        if !self.picker.deleting {
            self.ask_delete(true);
            let short = take_chars(title.as_str(), 48);
            let note = cat3(
                "Press d again to delete \"",
                short.as_str(),
                "\", or Esc/↑↓ to cancel.",
            );
            return self.say(note.as_str());
        }
        self.ask_delete(false);
        self.stay_among(list.len() - 1);
        let mut out = one_effect(Effect::DeleteSession { name: name.clone() });
        push_effect(&mut out, Effect::ListSessions);
        assert(deeds(out@) =~= seq![Deed::DeleteSession { name: name@ }, Deed::ListSessions]);
        out
    }

    fn leave_list(&mut self)
        ensures
            final(self)@ == list_left(old(self)@),
    {
        self.picker.deleting = false;
        self.picker.list = None;
    }

    fn keep_list(&mut self, list: Vec<(String, String)>)
        ensures
            final(self)@ == list_kept(old(self)@, pair_texts(list@)),
    {
        self.picker.list = Some(list);
    }

    fn pick(&mut self, list: &Vec<(String, String)>) -> (r: Vec<Effect>)
        requires
            list@.len() > 0,
        ensures
            (final(self)@, deeds(r@)) == pick_key(old(self)@, pair_texts(list@)),
    {
        let i = index_of_pick(self.picker.selected, list.len());
        assert(pair_texts(list@)[i as int].0 == list@[i as int].0@);
        self.leave_list();
        let mut out = self.switch_conversation(list[i].0.as_str());
        push_effect(&mut out, Effect::TryResume);
        self.show(Screen::Main);
        out
    }

    fn begin_rename(&mut self) -> (r: Vec<Effect>)
        ensures
            (final(self)@, deeds(r@)) == rename_begun(old(self)@),
    {
        self.ask_delete(false);
        self.set_title(
            Some("".to_string()),
            "Rename: type a new title, Enter to save, Esc to cancel.",
        );
        no_effects()
    }

    fn handle_list_key(&mut self, code: KeyCode, list: &Vec<(String, String)>) -> (r: Vec<Effect>)
        requires
            list@.len() > 0,
        ensures
            (final(self)@, deeds(r@)) == list_key(old(self)@, code, pair_texts(list@)),
    {
        assert(pair_texts(list@).len() == list@.len());
        let at = self.picker.selected;
        match code {
            KeyCode::Up => self.select(step(at, list.len(), false)),
            KeyCode::Down => self.select(step(at, list.len(), true)),
            KeyCode::Char(c) => {
                if c == 'd' {
                    self.press_delete(list)
                } else if c == 'r' {
                    self.begin_rename()
                } else {
                    no_effects()
                }
            },
            KeyCode::Enter => self.pick(list),
            KeyCode::Esc => {
                self.leave_list();
                self.go_main("Type a task and press Enter.");
                no_effects()
            },
            _ => no_effects(),
        }
    }

    /// The conversations as they were listed, or as they are now.
    fn listed_sessions(&self, w: &World) -> (r: Vec<(String, String)>)
        ensures
            pair_texts(r@) == match self@.picking.list {
                Some(l) => l,
                None => w@.sessions,
            },
    {
        match &self.picker.list {
            Some(l) => copy_pairs(l),
            None => copy_pairs(&w.sessions),
        }
    }

    /// A key on the screen of the conversations.
    pub fn handle_resume_key(&mut self, code: KeyCode, w: &World) -> (r: Vec<Effect>)
        ensures
            (final(self)@, deeds(r@)) == resume_key(old(self)@, code, w@),
    {
        let list = self.listed_sessions(w);
        self.keep_list(copy_pairs(&list));
        assert(pair_texts(list@).len() == list@.len());
        if list.len() == 0 {
            if code == KeyCode::Esc {
                self.go_main("Type a task and press Enter.");
            }
            return no_effects();
        }
        let title = copy_opt(&self.picker.renaming);
        match title {
            Some(t) => self.handle_rename_key(code, &list, t.as_str()),
            None => self.handle_list_key(code, &list),
        }
    }

    /// The saved conversations were listed anew.
    pub fn sessions_listed(&mut self, list: Vec<(String, String)>)
        ensures
            final(self)@ == list_kept(old(self)@, pair_texts(list@)),
    {
        self.keep_list(list);
    }
}

fn say_renamed(title: &str) -> (r: String)
    ensures
        r@ == renamed_note(title@),
{
    let t = trim(title);
    let short = take_chars(t.as_str(), 40);
    if short.as_str().is_empty() {
        "Title cleared.".to_string()
    } else {
        cat3("Renamed to “", short.as_str(), "”.")
    }
}

} // verus!
