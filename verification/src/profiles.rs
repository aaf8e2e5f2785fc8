//! The profiles: which model a conversation uses, and the screen that lists them.
use crate::app::{
    App, Around, Desk, Screen, World, alive, busy, opt_setup, profiles_of, restarted, resumed_note,
    saying,
};
use crate::blocks::less;
use crate::effects::{Deed, Effect, append_effects, deeds, no_effects, one_effect, push_effect};
use crate::form::{Form, ModelConfig, Setup, entry_for, entry_for_new, turn_by_one, turned_by_one};
use crate::keys::KeyCode;
use crate::prompt::cleared;
use crate::style::room;
use crate::text::{cat3, cat5, opt_str, opt_text, same, texts};
use vstd::prelude::*;

verus! {

/// The configuration of a profile, where there is one of that name that has any.
pub open spec fn setup_named(profiles: Seq<(Seq<char>, Option<Setup>)>, name: Seq<char>) -> Option<
    Setup,
>
    decreases profiles.len(),
{
    if profiles.len() == 0 {
        None
    } else if profiles[0].0 == name {
        profiles[0].1
    } else {
        setup_named(profiles.skip(1), name)
    }
}

pub fn find_setup(profiles: &Vec<(String, Option<ModelConfig>)>, name: &str) -> (r: Option<
    ModelConfig,
>)
    ensures
        opt_setup(r) == setup_named(profiles_of(profiles@), name@),
{
    let ghost all = profiles_of(profiles@);
    assert(all.skip(0) =~= all);
    for i in 0..profiles.len()
        invariant
            all == profiles_of(profiles@),
            setup_named(all, name@) == setup_named(all.skip(i as int), name@),
    {
        let p = &profiles[i];
        proof {
            assert(all.skip(i as int)[0] == (p.0@, opt_setup(p.1)));
            assert(all.skip(i as int).skip(1) =~= all.skip(i + 1));
        }
        if same(p.0.as_str(), name) {
            return match &p.1 {
                Some(c) => Some(c.clone()),
                None => None,
            };
        }
    }
    None
}

/// The configuration that a conversation runs with: that of the profile chosen for
/// it, where there is one, and else the one in use.
pub open spec fn effective(
    in_use: Setup,
    profiles: Seq<(Seq<char>, Option<Setup>)>,
    chosen: Option<Seq<char>>,
) -> Setup {
    match chosen {
        Some(name) => match setup_named(profiles, name) {
            Some(s) => s,
            None => in_use,
        },
        None => in_use,
    }
}

/// The configuration that a conversation runs with.
pub fn effective_config(
    in_use: &ModelConfig,
    profiles: &Vec<(String, Option<ModelConfig>)>,
    chosen: Option<&str>,
) -> (r: ModelConfig)
    ensures
        r@ == effective(in_use@, profiles_of(profiles@), opt_str(chosen)),
{
    match chosen {
        Some(name) => match find_setup(profiles, name) {
            Some(c) => c,
            None => in_use.clone(),
        },
        None => in_use.clone(),
    }
}

/// The position of the first profile of that name.
pub open spec fn profile_at(names: Seq<Seq<char>>, name: Seq<char>) -> Option<nat>
    decreases names.len(),
{
    if names.len() == 0 {
        None
    } else if names[0] == name {
        Some(0)
    } else {
        match profile_at(names.skip(1), name) {
            Some(i) => Some(i + 1),
            None => None,
        }
    }
}

fn find_profile(names: &Vec<String>, name: &str) -> (r: Option<usize>)
    ensures
        profile_at(texts(names@), name@) == match r {
            Some(i) => Some(i as nat),
            None => None,
        },
{
    let ghost all = texts(names@);
    assert(all.skip(0) =~= all);
    for i in 0..names.len()
        invariant
            all == texts(names@),
            profile_at(all, name@) == match profile_at(all.skip(i as int), name@) {
                Some(k) => Some(i as nat + k),
                None => None,
            },
    {
        proof {
            assert(all.skip(i as int)[0] == names@[i as int]@);
            assert(all.skip(i as int).skip(1) =~= all.skip(i + 1));
        }
        if same(names[i].as_str(), name) {
            return Some(i);
        }
    }
    None
}

/// The screen of the profiles, with the one in use selected.
pub open spec fn profiles_opened(d: Desk, names: Seq<Seq<char>>, active: Option<Seq<char>>) -> Desk {
    let at = match active {
        Some(a) => profile_at(names, a),
        None => None,
    };
    Desk {
        profile_selected: match at {
            Some(i) => i,
            None => 0,
        },
        screen: Screen::Profiles,
        draft: cleared(d.draft),
        ..d
    }
}

/// The form for a profile, or for a new one.
pub open spec fn editor_opened(d: Desk, name: Option<Seq<char>>, w: Around) -> (Desk, Seq<Deed>) {
    let setup = match name {
        Some(n) => setup_named(w.profiles, n),
        None => None,
    };
    (
        Desk {
            entry: match setup {
                Some(s) => entry_for(s, d.entry.anthropic_models),
                None => entry_for_new(d.entry.anthropic_models),
            },
            editing: name,
            return_to_profiles: true,
            connecting: true,
            screen: Screen::Profiles,
            draft: cleared(d.draft),
            ..d
        },
        seq![Deed::KeepConfig],
    )
}

/// A profile is made the one in use, unless the agent is at work.
pub open spec fn activating(d: Desk, name: Seq<char>, w: Around) -> (Desk, Seq<Deed>) {
    if busy(d, w) {
        saying(d, "agent is working — stop it (Esc) before switching models"@)
    } else {
        (d, seq![Deed::Activate { name }])
    }
}

/// The loop takes up a profile, and something is said of it.
pub open spec fn taken_up(d: Desk, status: Seq<char>, w: Around) -> (Desk, Seq<Deed>) {
    let (e, out) = restarted(d, w);
    (Desk { screen: Screen::Main, status, ..e }, out + seq![Deed::RefreshModel])
}

/// What is said of the model that is used now.
pub open spec fn using_note(
    lead: Seq<char>,
    provider: Seq<char>,
    model: Seq<char>,
    end: Seq<char>,
) -> Seq<char> {
    lead + provider + " · "@ + model + end
}

/// A profile was made the one in use, or there was none of that name. A
/// conversation with a profile of its own keeps that, and goes on as it was.
pub open spec fn activated(
    d: Desk,
    name: Seq<char>,
    now: Option<(Seq<char>, Seq<char>)>,
    overridden: bool,
    w: Around,
) -> (Desk, Seq<Deed>) {
    match now {
        None => saying(d, "profile `"@ + name + "` not found (or already active)"@),
        Some((provider, model)) => if overridden {
            (
                Desk {
                    screen: Screen::Main,
                    status: using_note(
                        "✓ global default · "@,
                        provider,
                        model,
                        " (this chat keeps its own model)"@,
                    ),
                    ..d
                },
                seq![Deed::RefreshModel],
            )
        } else {
            taken_up(d, using_note("✓ "@, provider, model, resumed_note(d, w)), w)
        },
    }
}

/// A profile is made the one of this conversation.
pub open spec fn activated_here(d: Desk, name: Seq<char>, w: Around) -> (Desk, Seq<Deed>) {
    if busy(d, w) {
        saying(d, "agent is working — stop it (Esc) before switching models"@)
    } else {
        match setup_named(w.profiles, name) {
            None => saying(d, "profile `"@ + name + "` not found"@),
            Some(s) => {
                let (e, out) = taken_up(
                    d,
                    using_note("✓ this chat · "@, s.provider, s.model, resumed_note(d, w)),
                    w,
                );
                (e, seq![Deed::Override { name }] + out)
            },
        }
    }
}

/// The position before another in a circle of `n`.
pub open spec fn back_around(i: nat, n: nat) -> nat {
    ((i + n - 1) as nat) % n
}

/// The row before another in a circle.
pub fn step_back_around(i: usize, n: usize) -> (r: usize)
    requires
        n > 0,
    ensures
        r == back_around(i as nat, n as nat),
        r < n,
{
    let k: usize = i % n;
    proof {
        vstd::arithmetic::div_mod::lemma_add_mod_noop(i as int, n as int - 1, n as int);
        vstd::arithmetic::div_mod::lemma_small_mod((n - 1) as nat, n as nat);
    }
    if k == 0 {
        proof {
            vstd::arithmetic::div_mod::lemma_small_mod((n - 1) as nat, n as nat);
        }
        n - 1
    } else {
        proof {
            vstd::arithmetic::div_mod::lemma_mod_add_multiples_vanish(k as int - 1, n as int);
            vstd::arithmetic::div_mod::lemma_small_mod((k - 1) as nat, n as nat);
        }
        k - 1
    }
}

fn row_above(at: usize, total: usize) -> (r: usize)
    ensures
        r == back_around(at as nat, (total + 1) as nat),
        r <= total,
{
    let n: u128 = total as u128 + 1;
    let k: u128 = at as u128 % n;
    proof {
        vstd::arithmetic::div_mod::lemma_add_mod_noop(at as int, n as int - 1, n as int);
        vstd::arithmetic::div_mod::lemma_small_mod((n - 1) as nat, n as nat);
    }
    if k == 0 {
        total
    } else {
        proof {
            vstd::arithmetic::div_mod::lemma_mod_add_multiples_vanish(k as int - 1, n as int);
            vstd::arithmetic::div_mod::lemma_small_mod((k - 1) as nat, n as nat);
        }
        (k - 1) as usize
    }
}

fn row_below(at: usize, total: usize) -> (r: usize)
    ensures
        r == turned_by_one(at as nat, (total + 1) as nat, true),
        r <= total,
{
    let n: u128 = total as u128 + 1;
    ((at as u128 + 1) % n) as usize
}

/// The next row or the one before, whatever row it is counted from.
pub fn step(i: usize, n: usize, forward: bool) -> (r: usize)
    requires
        n > 0,
    ensures
        r == turned_by_one(i as nat, n as nat, forward),
        forward ==> r < n,
        i < n ==> r < n,
{
    if forward {
        let k: usize = i % n;
        proof {
            vstd::arithmetic::div_mod::lemma_add_mod_noop(i as int, 1, n as int);
            vstd::arithmetic::div_mod::lemma_add_mod_noop(k as int, 1, n as int);
            vstd::arithmetic::div_mod::lemma_small_mod(k as nat, n as nat);
        }
        turn_by_one(k, n, true)
    } else if i == 0 {
        n - 1
    } else {
        i - 1
    }
}

/// Another profile is selected.
pub open spec fn profile_chosen(d: Desk, i: nat) -> (Desk, Seq<Deed>) {
    (Desk { profile_selected: i, ..d }, Seq::empty())
}

/// A key on the screen of the profiles. One more row than there are profiles adds
/// one.
pub open spec fn profiles_key(d: Desk, code: KeyCode, w: Around) -> (Desk, Seq<Deed>) {
    let total = w.profiles.len();
    let at = d.profile_selected;
    match code {
        KeyCode::Up => profile_chosen(d, back_around(at, total + 1)),
        KeyCode::Down => profile_chosen(d, turned_by_one(at, total + 1, true)),
        KeyCode::Enter => if at >= total {
            editor_opened(d, None, w)
        } else if alive(d, w) {
            activated_here(d, w.profiles[at as int].0, w)
        } else {
            activating(d, w.profiles[at as int].0, w)
        },
        KeyCode::Char(c) => if c == 'g' {
            if at < total {
                activating(d, w.profiles[at as int].0, w)
            } else {
                (d, Seq::empty())
            }
        } else if c == 'a' {
            editor_opened(d, None, w)
        } else if c == 'e' {
            if at < total {
                editor_opened(d, Some(w.profiles[at as int].0), w)
            } else {
                (d, Seq::empty())
            }
        } else if c == 'd' {
            if total <= 1 {
                saying(d, "Can't delete the only profile."@)
            } else if at < total {
                let name = w.profiles[at as int].0;
                (
                    Desk { status: "Removed profile “"@ + name + "”"@, ..d },
                    seq![Deed::RemoveProfile { name }],
                )
            } else {
                (d, Seq::empty())
            }
        } else {
            (d, Seq::empty())
        },
        KeyCode::Esc => (Desk { screen: Screen::Main, ..d }, Seq::empty()),
        _ => (d, Seq::empty()),
    }
}

/// The selection after a profile was removed: it is among those that are left.
pub open spec fn profile_removed(d: Desk, left: nat) -> Desk {
    if d.profile_selected >= left {
        Desk { profile_selected: room(left, 1), ..d }
    } else {
        d
    }
}

fn say_using(lead: &str, provider: &str, model: &str, end: &str) -> (r: String)
    ensures
        r@ == using_note(lead@, provider@, model@, end@),
{
    cat5(lead, provider, " · ", model, end)
}

impl App {
    fn take_up(&mut self, status: String, w: &World) -> (r: Vec<Effect>)
        ensures
            (final(self)@, deeds(r@)) == taken_up(old(self)@, status@, w@),
    {
        let mut out = self.restart_loop_for_config(w);
        push_effect(&mut out, Effect::RefreshModel);
        self.screen = Screen::Main;
        self.status = status;
        proof {
            let before = restarted(old(self)@, w@).1;
            assert(before.push(Deed::RefreshModel) =~= before + seq![Deed::RefreshModel]);
        }
        out
    }

    /// Opens the screen of the profiles, with the one in use selected.
    pub fn open_profiles(&mut self, names: &Vec<String>, active: Option<&str>)
        ensures
            final(self)@ == profiles_opened(old(self)@, texts(names@), opt_str(active)),
    {
        let at = match active {
            Some(a) => find_profile(names, a),
            None => None,
        };
        self.profile_selected = match at {
            Some(i) => i,
            None => 0,
        };
        self.screen = Screen::Profiles;
        self.prompt.clear();
    }

    /// Opens the form for a profile, or for a new one.
    pub fn open_profile_editor(&mut self, name: Option<String>, w: &World) -> (r: Vec<Effect>)
        ensures
            (final(self)@, deeds(r@)) == editor_opened(old(self)@, opt_text(name), w@),
    {
        let setup = match &name {
            Some(n) => find_setup(&w.profiles, n.as_str()),
            None => None,
        };
        self.form = match &setup {
            Some(c) => Form::of(c, &self.form.anthropic_models),
            None => Form::fresh(&self.form.anthropic_models),
        };
        self.editing = name;
        self.return_to_profiles = true;
        self.connecting = true;
        self.screen = Screen::Profiles;
        self.prompt.clear();
        one_effect(Effect::KeepConfig)
    }

    /// Asks for a profile to be made the one in use.
    pub fn activate_profile(&mut self, name: &str, w: &World) -> (r: Vec<Effect>)
        ensures
            (final(self)@, deeds(r@)) == activating(old(self)@, name@, w@),
    {
        if self.agent_busy(w) {
            return self.say("agent is working — stop it (Esc) before switching models");
        }
        one_effect(Effect::Activate { name: name.to_owned() })
    }

    /// A profile was made the one in use: the provider and the model that are used
    /// now. Or there was none of that name.
    pub fn profile_activated(
        &mut self,
        name: &str,
        now: Option<(&str, &str)>,
        overridden: bool,
        w: &World,
    ) -> (r: Vec<Effect>)
        ensures
            (final(self)@, deeds(r@)) == activated(
                old(self)@,
                name@,
                match now {
                    Some(n) => Some((n.0@, n.1@)),
                    None => None,
                },
                overridden,
                w@,
            ),
    {
        match now {
            None => {
                self.say(cat3("profile `", name, "` not found (or already active)").as_str())
            },
            Some((provider, model)) => {
                if overridden {
                    self.screen = Screen::Main;
                    self.status = say_using(
                        "✓ global default · ",
                        provider,
                        model,
                        " (this chat keeps its own model)",
                    );
                    one_effect(Effect::RefreshModel)
                } else {
                    let note = self.note_resumed(w);
                    self.take_up(say_using("✓ ", provider, model, note), w)
                }
            },
        }
    }

    /// What is said of a loop that is started anew.
    pub fn note_resumed(&self, w: &World) -> (r: &'static str)
        ensures
            r@ == resumed_note(self@, w@),
    {
        if self.agent_alive(w) {
            " · resumed"
        } else {
            ""
        }
    }

    /// Makes a profile the one of this conversation.
    pub fn activate_profile_local(&mut self, name: &str, w: &World) -> (r: Vec<Effect>)
        ensures
            (final(self)@, deeds(r@)) == activated_here(old(self)@, name@, w@),
    {
        if self.agent_busy(w) {
            return self.say("agent is working — stop it (Esc) before switching models");
        }
        match find_setup(&w.profiles, name) {
            None => {
                self.say(cat3("profile `", name, "` not found").as_str())
            },
            Some(s) => {
                let note = self.note_resumed(w);
                let status = say_using(
                    "✓ this chat · ",
                    s.provider.as_str(),
                    s.model.as_str(),
                    note,
                );
                let mut out = one_effect(Effect::Override { name: name.to_owned() });
                let more = self.take_up(status, w);
                append_effects(&mut out, more);
                out
            },
        }
    }

    /// A profile was removed, and so many are left.
    pub fn profile_removed(&mut self, left: usize)
        ensures
            final(self)@ == profile_removed(old(self)@, left as nat),
    {
        if self.profile_selected >= left {
            self.profile_selected = less(left, 1);
        }
    }

    /// A key on the screen of the profiles.
    pub fn handle_profiles_key(&mut self, code: KeyCode, w: &World) -> (r: Vec<Effect>)
        ensures
            (final(self)@, deeds(r@)) == profiles_key(old(self)@, code, w@),
    {
        let total = w.profiles.len();
        let at = self.profile_selected;
        assert(w@.profiles.len() == total);
        match code {
            KeyCode::Up => self.choose_profile(row_above(at, total)),
            KeyCode::Down => self.choose_profile(row_below(at, total)),
            KeyCode::Enter => {
                if at >= total {
                    self.open_profile_editor(None, w)
                } else {
                    let name = w.profiles[at].0.as_str();
                    assert(w@.profiles[at as int].0 == name@);
                    if self.agent_alive(w) {
                        self.activate_profile_local(name, w)
                    } else {
                        self.activate_profile(name, w)
                    }
                }
            },
            KeyCode::Char(c) => self.press_on_profile(c, w),
            KeyCode::Esc => {
                self.show(Screen::Main);
                no_effects()
            },
            _ => no_effects(),
        }
    }

    fn choose_profile(&mut self, i: usize) -> (r: Vec<Effect>)
        ensures
            (final(self)@, deeds(r@)) == profile_chosen(old(self)@, i as nat),
    {
        self.profile_selected = i;
        no_effects()
    }

    fn press_on_profile(&mut self, c: char, w: &World) -> (r: Vec<Effect>)
        ensures
            (final(self)@, deeds(r@)) == profiles_key(old(self)@, KeyCode::Char(c), w@),
    {
        let total = w.profiles.len();
        let at = self.profile_selected;
        assert(w@.profiles.len() == total);
        if at < total {
            assert(w@.profiles[at as int].0 == w.profiles@[at as int].0@);
        }
        if c == 'g' {
            if at < total {
                self.activate_profile(w.profiles[at].0.as_str(), w)
            } else {
                no_effects()
            }
        } else if c == 'a' {
            self.open_profile_editor(None, w)
        } else if c == 'e' {
            if at < total {
                self.open_profile_editor(Some(w.profiles[at].0.clone()), w)
            } else {
                no_effects()
            }
        } else if c == 'd' {
            if total <= 1 {
                self.say("Can't delete the only profile.")
            } else if at < total {
                let name = w.profiles[at].0.clone();
                let note = cat3("Removed profile “", name.as_str(), "”");
                self.say(note.as_str());
                one_effect(Effect::RemoveProfile { name })
            } else {
                no_effects()
            }
        } else {
            no_effects()
        }
    }
}

} // verus!
