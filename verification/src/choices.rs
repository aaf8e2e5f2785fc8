//! What choosing comes to: conversations, palettes and profiles, and the form by
//! which a model is connected.
use crate::app::{Around, Desk, Screen, alive, busy, resumed_note};
use crate::connecting::{
    Ending, account_ready, code_given, code_note, connected, form_char, saved, sign_in_over,
    signed_out, signing,
};
use crate::effects::{Deed, Intent};
use crate::form::{
    EFFORTS, Entry, SettingsField, Setup, adjusted, candidates, effort_at, entry_for, field_at,
    field_order, field_shortened, focus_moved, models_loaded, pct_of, ranked, setup_of, text_at_in,
    turned_by_one, typed, wants_models, window_of,
};
use crate::keys::{Key, KeyCode};
use crate::lexis::{
    numbers_read_back, texts_hold_their_parts, trimming_takes_the_white_space_around,
};
use crate::models::{context_defaults, defaults, known_models};
use crate::pickers::{delete_asked, list_key, rename_key, theme_key};
use crate::profiles::{
    back_around, editor_opened, effective, profile_at, profile_removed, profiles_key,
    profiles_opened, setup_named,
};
use crate::text::{
    blank, decimal, ends, is_digit, lemma_blank_trimmed, lemma_decimal, lowered, occurs, starts,
    trimmed,
};
use vstd::prelude::*;

verus! {

/// No position is lost by turning: forth and back is where one was, and behind the
/// last comes the first.
pub proof fn turning_goes_round(i: nat, n: nat)
    requires
        i < n,
    ensures
        turned_by_one(i, n, true) < n,
        turned_by_one(i, n, false) < n,
        turned_by_one(turned_by_one(i, n, true), n, false) == i,
        turned_by_one(turned_by_one(i, n, false), n, true) == i,
        i + 1 < n ==> turned_by_one(i, n, true) == i + 1,
        i + 1 == n ==> turned_by_one(i, n, true) == 0,
        i == 0 ==> turned_by_one(i, n, false) == n - 1,
        back_around(i, n) == turned_by_one(i, n, false),
{
    if i + 1 < n {
        vstd::arithmetic::div_mod::lemma_small_mod(i + 1, n);
    } else {
        vstd::arithmetic::div_mod::lemma_mod_self_0(n as int);
    }
    if i == 0 {
        vstd::arithmetic::div_mod::lemma_small_mod((n - 1) as nat, n);
        vstd::arithmetic::div_mod::lemma_mod_self_0(n as int);
    } else {
        vstd::arithmetic::div_mod::lemma_small_mod(i, n);
        vstd::arithmetic::div_mod::lemma_mod_add_multiples_vanish(i - 1, n as int);
        vstd::arithmetic::div_mod::lemma_small_mod((i - 1) as nat, n);
        assert((i + n - 1) == n + (i - 1));
    }
}

// ---------------------------------------------------------------------------
// Conversations
// ---------------------------------------------------------------------------

/// The conversation that is selected is the one that is opened, renamed or deleted.
pub proof fn the_selected_conversation_is_meant(
    d: Desk,
    list: Seq<(Seq<char>, Seq<char>)>,
    title: Seq<char>,
)
    requires
        d.picking.selected < list.len(),
    ensures
        ({
            let name = list[d.picking.selected as int].0;
            let (opened, out) = list_key(d, KeyCode::Enter, list);
            let (renamed, renaming) = rename_key(d, KeyCode::Enter, list, title);
            let (gone, deleting) = list_key(delete_asked(d, true), KeyCode::Char('d'), list);
            &&& opened.conversation == name && opened.screen == Screen::Main
            &&& opened.picking.list is None && !opened.picking.deleting
            &&& out.last() == Deed::TryResume && out[out.len() - 2] == Deed::Open
            &&& renaming == seq![
                Deed::RenameSession { name, title: trimmed(title) },
                Deed::ListSessions,
            ]
            &&& renamed.picking.renaming is None
            &&& deleting == seq![Deed::DeleteSession { name }, Deed::ListSessions]
            &&& !gone.picking.deleting
            &&& list.len() > 1 ==> gone.picking.selected < list.len() - 1
            &&& list.len() == 1 ==> gone.screen == Screen::Main
        }),
{
}

/// The first press only asks, with the title of the conversation, and nothing is
/// deleted by it or by leaving.
pub proof fn one_press_deletes_nothing(d: Desk, list: Seq<(Seq<char>, Seq<char>)>)
    requires
        d.picking.selected < list.len(),
        !d.picking.deleting,
    ensures
        ({
            let (e, out) = list_key(d, KeyCode::Char('d'), list);
            let title = list[d.picking.selected as int].1;
            &&& out.len() == 0
            &&& e.picking.deleting
            &&& title.len() <= 48 ==> occurs(e.status, title)
        }),
        list_key(d, KeyCode::Esc, list).1.len() == 0,
        list_key(d, KeyCode::Esc, list).0.screen == Screen::Main,
        !list_key(d, KeyCode::Esc, list).0.picking.deleting,
        list_key(d, KeyCode::Esc, list).0.conversation == d.conversation,
        !list_key(delete_asked(d, true), KeyCode::Down, list).0.picking.deleting,
        !list_key(delete_asked(d, true), KeyCode::Up, list).0.picking.deleting,
{
    let title = list[d.picking.selected as int].1;
    if title.len() <= 48 {
        assert(title.take(title.len() as int) =~= title);
        texts_hold_their_parts(
            "Press d again to delete \""@,
            title,
            "\", or Esc/↑↓ to cancel."@,
        );
    }
}

/// A new title is written character by character, and giving up keeps the old one.
pub proof fn titles_are_written_by_characters(
    d: Desk,
    list: Seq<(Seq<char>, Seq<char>)>,
    title: Seq<char>,
    c: char,
)
    ensures
        rename_key(d, KeyCode::Char(c), list, title).0.picking.renaming == Some(title.push(c)),
        rename_key(d, KeyCode::Char(c), list, title).1.len() == 0,
        rename_key(d, KeyCode::Backspace, list, title.push(c)).0.picking.renaming == Some(title),
        rename_key(d, KeyCode::Esc, list, title).1.len() == 0,
        rename_key(d, KeyCode::Esc, list, title).0.picking.renaming is None,
        list_key(d, KeyCode::Char('r'), list).0.picking.renaming == Some(""@),
        occurs(rename_key(d, KeyCode::Char(c), list, title).0.status, title.push(c)),
{
    assert(title.push(c).take(title.len() as int) =~= title);
    texts_hold_their_parts("Rename: "@, title.push(c), "_  (Enter to save · Esc to cancel)"@);
}

/// A palette is shown while it is looked at, and kept when it is chosen.
pub proof fn palettes_are_shown_and_kept(d: Desk, w: Around)
    requires
        d.theme_selected < w.themes.len(),
    ensures
        theme_key(d, KeyCode::Enter, w).1 == seq![
            Deed::ShowTheme { index: d.theme_selected },
            Deed::PersistTheme,
        ],
        theme_key(d, KeyCode::Enter, w).0.screen == Screen::Main,
        ends(theme_key(d, KeyCode::Enter, w).0.status, w.themes[d.theme_selected as int]),
        theme_key(d, KeyCode::Down, w).1 == seq![
            Deed::ShowTheme { index: turned_by_one(d.theme_selected, w.themes.len(), true) },
        ],
        theme_key(d, KeyCode::Up, w).1 == seq![
            Deed::ShowTheme { index: turned_by_one(d.theme_selected, w.themes.len(), false) },
        ],
        theme_key(d, KeyCode::Down, w).0.theme_selected == turned_by_one(
            d.theme_selected,
            w.themes.len(),
            true,
        ),
        theme_key(d, KeyCode::Esc, w).1 == seq![Deed::ShowTheme { index: d.theme_original }],
{
    turning_goes_round(d.theme_selected, w.themes.len());
    texts_hold_their_parts("Theme: "@, w.themes[d.theme_selected as int], Seq::empty());
}

// ---------------------------------------------------------------------------
// Profiles
// ---------------------------------------------------------------------------

/// The profile that is selected is the one that is used, edited or removed; the entry
/// behind the last opens the form for a new one.
pub proof fn the_selected_profile_is_meant(d: Desk, w: Around)
    requires
        d.profile_selected < w.profiles.len(),
        !busy(d, w),
    ensures
        ({
            let name = w.profiles[d.profile_selected as int].0;
            &&& !alive(d, w) ==> profiles_key(d, KeyCode::Enter, w) == (
                d,
                seq![Deed::Activate { name }],
            )
            &&& alive(d, w) && setup_named(w.profiles, name) is Some ==> profiles_key(
                d,
                KeyCode::Enter,
                w,
            ).1 == seq![
                Deed::Override { name },
                Deed::Abort,
                Deed::Spawn { initial: None },
                Deed::RefreshModel,
            ]
            &&& profiles_key(d, KeyCode::Char('g'), w) == (d, seq![Deed::Activate { name }])
            &&& profiles_key(d, KeyCode::Char('e'), w).0.editing == Some(name)
            &&& profiles_key(d, KeyCode::Char('e'), w).0.connecting
            &&& profiles_key(d, KeyCode::Char('e'), w).1 == seq![Deed::KeepConfig]
            &&& w.profiles.len() > 1 ==> profiles_key(d, KeyCode::Char('d'), w).1 == seq![
                Deed::RemoveProfile { name },
            ]
            &&& w.profiles.len() == 1 ==> profiles_key(d, KeyCode::Char('d'), w).1.len() == 0
            &&& profiles_key(d, KeyCode::Char('a'), w).0.editing is None
            &&& profiles_key(d, KeyCode::Char('a'), w).0.connecting
            &&& profiles_key(d, KeyCode::Esc, w) == (
                Desk { screen: Screen::Main, ..d },
                Seq::<Deed>::empty(),
            )
        }),
        profiles_key(Desk { profile_selected: w.profiles.len(), ..d }, KeyCode::Enter, w).0.editing
            is None,
        profiles_key(
            Desk { profile_selected: w.profiles.len(), ..d },
            KeyCode::Enter,
            w,
        ).0.connecting,
{
    let name = w.profiles[d.profile_selected as int].0;
    if alive(d, w) && setup_named(w.profiles, name) is Some {
        assert(profiles_key(d, KeyCode::Enter, w).1 =~= seq![
            Deed::Override { name },
            Deed::Abort,
            Deed::Spawn { initial: None },
            Deed::RefreshModel,
        ]);
    }
}

/// A profile is found by its name, the first where there are several.
pub proof fn profiles_are_found_by_name(
    name: Seq<char>,
    setup: Option<Setup>,
    rest: Seq<(Seq<char>, Option<Setup>)>,
    other: Seq<char>,
    in_use: Setup,
)
    ensures
        setup_named(seq![(name, setup)] + rest, name) == setup,
        other != name ==> setup_named(seq![(name, setup)] + rest, other) == setup_named(
            rest,
            other,
        ),
        setup_named(Seq::empty(), other) is None,
        setup is Some ==> effective(in_use, seq![(name, setup)] + rest, Some(name)) == setup->0,
        effective(in_use, rest, None) == in_use,
        setup_named(rest, other) is None ==> effective(in_use, rest, Some(other)) == in_use,
{
    let all = seq![(name, setup)] + rest;
    assert(all[0] == (name, setup));
    assert(all.skip(1) =~= rest);
}

/// The list of profiles opens at the one in use.
pub proof fn the_profile_in_use_is_selected(
    d: Desk,
    a: Seq<Seq<char>>,
    active: Seq<char>,
    b: Seq<Seq<char>>,
)
    requires
        !a.contains(active),
    ensures
        profiles_opened(d, a + seq![active] + b, Some(active)).profile_selected == a.len(),
        profiles_opened(d, a, Some(active)).profile_selected == 0,
        profiles_opened(d, a, None).profile_selected == 0,
        profiles_opened(d, a, None).screen == Screen::Profiles,
{
    lemma_profile_at(a, active, b);
    lemma_profile_absent(a, active);
}

proof fn lemma_profile_at(a: Seq<Seq<char>>, name: Seq<char>, b: Seq<Seq<char>>)
    requires
        !a.contains(name),
    ensures
        profile_at(a + seq![name] + b, name) == Some(a.len()),
    decreases a.len(),
{
    let all = a + seq![name] + b;
    if a.len() == 0 {
        assert(all[0] == name);
    } else {
        let r = a.skip(1);
        assert(a.contains(a[0]));
        assert(all[0] == a[0]);
        assert(all.skip(1) =~= r + seq![name] + b);
        assert(!r.contains(name)) by {
            if r.contains(name) {
                let i = choose|i: int| 0 <= i < r.len() && r[i] == name;
                assert(a[i + 1] == name);
            }
        }
        lemma_profile_at(r, name, b);
    }
}

proof fn lemma_profile_absent(a: Seq<Seq<char>>, name: Seq<char>)
    requires
        !a.contains(name),
    ensures
        profile_at(a, name) is None,
    decreases a.len(),
{
    if a.len() > 0 {
        let r = a.skip(1);
        assert(a.contains(a[0]));
        assert(!r.contains(name)) by {
            if r.contains(name) {
                let i = choose|i: int| 0 <= i < r.len() && r[i] == name;
                assert(a[i + 1] == name);
            }
        }
        lemma_profile_absent(r, name);
    }
}

/// After a profile is gone the selection is on one that is left.
pub proof fn the_selection_stays_on_a_profile(d: Desk, left: nat)
    requires
        left > 0,
    ensures
        profile_removed(d, left).profile_selected < left,
        d.profile_selected < left ==> profile_removed(d, left) == d,
        d.profile_selected >= left ==> profile_removed(d, left).profile_selected == left - 1,
{
}

/// Editing shows what the profile holds.
pub proof fn the_form_shows_the_profile(d: Desk, name: Seq<char>, w: Around)
    ensures
        setup_named(w.profiles, name) matches Some(s) ==> {
            let e = editor_opened(d, Some(name), w).0.entry;
            &&& e.provider == s.provider
            &&& e.api_key == s.api_key
            &&& e.model == s.model
            &&& e.base_url == s.base_url
            &&& e.reasoning_effort == s.reasoning_effort
            &&& e.context_window == decimal(s.context_window as nat)
            &&& e.compact_at_pct == decimal(s.compact_at_pct as nat)
            &&& e.fetched is None
        },
{
}

// ---------------------------------------------------------------------------
// The form
// ---------------------------------------------------------------------------

/// What is entered and saved is what was entered: shown again, it is the same.
pub proof fn saving_and_editing_keeps_the_entries(e: Entry, window: u64, pct: u8)
    ensures
        ({
            let s = setup_of(e, window, pct);
            let again = entry_for(s, e.anthropic_models);
            &&& again.provider == e.provider
            &&& again.api_key == e.api_key
            &&& again.model == e.model
            &&& again.base_url == e.base_url
            &&& (e.reasoning_effort is Some && !blank(e.reasoning_effort->0)
                ==> again.reasoning_effort == e.reasoning_effort)
            &&& s.context_window == window
            &&& s.compact_at_pct == pct
        }),
{
}

/// A model is connected with all that was entered, where there is a key and a model.
/// What is missing is asked for, and the field for it is taken up.
pub proof fn connecting_takes_what_was_entered(d: Desk, w: Around)
    requires
        d.entry.provider != "chatgpt"@,
    ensures
        ({
            let (e, out) = connected(d, w);
            &&& blank(d.entry.api_key) ==> out.len() == 0 && e.entry.focus == SettingsField::ApiKey
            &&& !blank(d.entry.api_key) && blank(d.entry.model) ==> out.len() == 0 && e.entry.focus
                == SettingsField::Model
            &&& !blank(d.entry.api_key) && !blank(d.entry.model) ==> out.len() == 1 && match out[0] {
                Deed::SaveProfile { editing, setup, purpose } => {
                    &&& editing == d.editing
                    &&& purpose == Intent::Connect
                    &&& setup.provider == d.entry.provider
                    &&& setup.api_key == d.entry.api_key
                    &&& setup.model == d.entry.model
                    &&& setup.base_url == d.entry.base_url
                    &&& 50 <= setup.compact_at_pct <= 95
                    &&& setup.context_window >= 8_000
                },
                _ => false,
            }
        }),
{
}

/// The limits that are entered hold where they are sensible; else those that are
/// preset, or the nearest.
pub proof fn sensible_limits_hold(e: Entry, n: nat, p: nat)
    ensures
        e.context_window == decimal(n) && 8_000 <= n <= u64::MAX ==> window_of(e) == n,
        e.context_window == decimal(n) && n < 8_000 ==> window_of(e) == context_defaults(
            e.provider,
        ).0,
        e.compact_at_pct == decimal(p) && 50 <= p <= 95 ==> pct_of(e) == p,
        e.compact_at_pct == decimal(p) && p < 50 ==> pct_of(e) == 50,
        e.compact_at_pct == decimal(p) && 95 < p <= 255 ==> pct_of(e) == 95,
        blank(e.context_window) ==> window_of(e) == context_defaults(e.provider).0,
{
    numbers_read_back(n, u64::MAX as nat);
    numbers_read_back(p, 255);
    lemma_decimal_trimmed(n);
    lemma_decimal_trimmed(p);
    lemma_blank_trimmed(e.context_window);
}

proof fn lemma_decimal_trimmed(n: nat)
    ensures
        trimmed(decimal(n)) == decimal(n),
{
    lemma_decimal(n);
    let t = decimal(n);
    let none = Seq::<char>::empty();
    assert(is_digit(t[0]) && is_digit(t[t.len() - 1]));
    trimming_takes_the_white_space_around(none, t, none);
    assert(none + t + none =~= t);
}

/// What is typed goes to the field that has the focus, behind what it holds, and to
/// no other; numbers take digits only. Backspace takes the last character of that
/// field.
pub proof fn typing_fills_the_focused_field(e: Entry, c: char)
    ensures
        ({
            let t = typed(e, seq![c]);
            let b = field_shortened(t);
            &&& t == (Entry {
                api_key: t.api_key,
                base_url: t.base_url,
                model: t.model,
                context_window: t.context_window,
                compact_at_pct: t.compact_at_pct,
                ..e
            })
            &&& t.api_key == (if e.focus == SettingsField::ApiKey {
                e.api_key.push(c)
            } else {
                e.api_key
            })
            &&& t.base_url == (if e.focus == SettingsField::BaseUrl {
                e.base_url.push(c)
            } else {
                e.base_url
            })
            &&& t.model == (if e.focus == SettingsField::Model {
                e.model.push(c)
            } else {
                e.model
            })
            &&& t.context_window == (if e.focus == SettingsField::ContextWindow && '0' <= c <= '9' {
                e.context_window.push(c)
            } else {
                e.context_window
            })
            &&& t.compact_at_pct == (if e.focus == SettingsField::Compaction && '0' <= c <= '9' {
                e.compact_at_pct.push(c)
            } else {
                e.compact_at_pct
            })
            &&& e.focus == SettingsField::ApiKey || e.focus == SettingsField::BaseUrl || e.focus
                == SettingsField::Model || '0' <= c <= '9' ==> b == e
        }),
{
    reveal_with_fuel(Seq::filter, 2);
    let f = |c: char| is_digit(c);
    assert(seq![c].drop_last() =~= Seq::<char>::empty());
    assert(seq![c].last() == c);
    let digits = seq![c].filter(f);
    if is_digit(c) {
        assert(digits =~= seq![c]);
    } else {
        assert(digits =~= Seq::<char>::empty());
    }
    let t = typed(e, seq![c]);
    assert(e.api_key + seq![c] =~= e.api_key.push(c));
    assert(e.base_url + seq![c] =~= e.base_url.push(c));
    assert(e.model + seq![c] =~= e.model.push(c));
    assert(e.context_window + digits =~= if is_digit(c) {
        e.context_window.push(c)
    } else {
        e.context_window
    });
    assert(e.compact_at_pct + digits =~= if is_digit(c) {
        e.compact_at_pct.push(c)
    } else {
        e.compact_at_pct
    });
    assert(e.api_key.push(c).drop_last() =~= e.api_key);
    assert(e.base_url.push(c).drop_last() =~= e.base_url);
    assert(e.model.push(c).drop_last() =~= e.model);
    assert(e.context_window.push(c).drop_last() =~= e.context_window);
    assert(e.compact_at_pct.push(c).drop_last() =~= e.compact_at_pct);
}

/// Where the focus goes from a field.
pub open spec fn focus_from(e: Entry, forward: bool, f: SettingsField) -> SettingsField {
    focus_moved(Entry { focus: f, ..e }, forward).focus
}

/// The focus goes through the fields of the provider in order and round: an account
/// has no key, and only a compatible endpoint has an address.
pub proof fn the_focus_goes_through_the_fields(e: Entry)
    ensures
        ({
            let account = e.provider == "chatgpt"@;
            let compatible = e.provider == "openai-compatible"@ || e.provider
                == "anthropic-compatible"@;
            &&& account ==> focus_from(e, true, SettingsField::Provider) == SettingsField::Model && focus_from(e, false, SettingsField::Model,
            ) == SettingsField::Provider
            &&& !account ==> focus_from(e, true, SettingsField::Provider) == SettingsField::ApiKey && focus_from(e, false, SettingsField::ApiKey,
            ) == SettingsField::Provider
            &&& compatible ==> focus_from(e, true, SettingsField::ApiKey) == SettingsField::BaseUrl && focus_from(e, true, SettingsField::BaseUrl,
            ) == SettingsField::Model && focus_from(e, false, SettingsField::Model) == SettingsField::BaseUrl
            &&& !account && !compatible ==> focus_from(e, true, SettingsField::ApiKey) == SettingsField::Model
                && focus_from(e, false, SettingsField::Model) == SettingsField::ApiKey
            &&& focus_from(e, true, SettingsField::Model) == SettingsField::Reasoning
            &&& focus_from(e, true, SettingsField::Reasoning) == SettingsField::ContextWindow
            &&& focus_from(e, true, SettingsField::ContextWindow) == SettingsField::Compaction
            &&& focus_from(e, true, SettingsField::Compaction) == SettingsField::Provider
            &&& focus_from(e, false, SettingsField::Provider) == SettingsField::Compaction
        }),
{
    reveal_strlit("chatgpt");
    reveal_strlit("openai-compatible");
    reveal_strlit("anthropic-compatible");
    assert("chatgpt"@.len() == 7 && "openai-compatible"@.len() == 17);
    assert("anthropic-compatible"@.len() == 20);
    let order = field_order(e.provider);
    let compatible = e.provider == "openai-compatible"@ || e.provider == "anthropic-compatible"@;
    if e.provider == "chatgpt"@ {
        assert(order =~= seq![
            SettingsField::Provider,
            SettingsField::Model,
            SettingsField::Reasoning,
            SettingsField::ContextWindow,
            SettingsField::Compaction,
        ]);
    } else if compatible {
        assert(order =~= seq![
            SettingsField::Provider,
            SettingsField::ApiKey,
            SettingsField::BaseUrl,
            SettingsField::Model,
            SettingsField::Reasoning,
            SettingsField::ContextWindow,
            SettingsField::Compaction,
        ]);
        lemma_moved(e, 5);
        lemma_moved(e, 6);
    } else {
        assert(order =~= seq![
            SettingsField::Provider,
            SettingsField::ApiKey,
            SettingsField::Model,
            SettingsField::Reasoning,
            SettingsField::ContextWindow,
            SettingsField::Compaction,
        ]);
        lemma_moved(e, 5);
    }
    lemma_moved(e, 0);
    lemma_moved(e, 1);
    lemma_moved(e, 2);
    lemma_moved(e, 3);
    lemma_moved(e, 4);
}

proof fn lemma_moved(e: Entry, i: int)
    requires
        0 <= i < field_order(e.provider).len(),
        forall|a: int, b: int|
            0 <= a < b < field_order(e.provider).len() ==> field_order(e.provider)[a]
                != field_order(e.provider)[b],
    ensures
        ({
            let order = field_order(e.provider);
            let f = order[i];
            &&& focus_moved(Entry { focus: f, ..e }, true).focus == order[if i + 1 < order.len() {
                i + 1
            } else {
                0
            }]
            &&& focus_moved(Entry { focus: f, ..e }, false).focus == order[if i > 0 {
                i - 1
            } else {
                order.len() - 1
            }]
        }),
{
    let order = field_order(e.provider);
    lemma_order(order, i);
    turning_goes_round(i as nat, order.len());
}

/// Where nothing stands twice, the position of what stands at `i` is `i`.
proof fn lemma_order(order: Seq<SettingsField>, i: int)
    requires
        0 <= i < order.len(),
        forall|a: int, b: int| 0 <= a < b < order.len() ==> order[a] != order[b],
    ensures
        field_at(order, order[i]) == i,
    decreases i,
{
    assert(order.contains(order[i]));
    if i > 0 {
        assert(order[0] != order[i]);
        let rest = order.skip(1);
        assert(rest[i - 1] == order[i]);
        assert forall|a: int, b: int| 0 <= a < b < rest.len() implies rest[a] != rest[b] by {
            assert(rest[a] == order[a + 1] && rest[b] == order[b + 1]);
        }
        lemma_order(rest, i - 1);
    }
}

/// The share at which history is compacted goes up and down by five, between fifty
/// and ninety-five.
pub proof fn the_share_goes_by_five(e: Entry, n: nat)
    requires
        e.focus == SettingsField::Compaction,
        e.compact_at_pct == decimal(n),
        50 <= n <= 95,
    ensures
        adjusted(e, true).compact_at_pct == decimal(
            if n + 5 <= 95 {
                n + 5
            } else {
                95
            },
        ),
        adjusted(e, false).compact_at_pct == decimal(
            if n >= 55 {
                (n - 5) as nat
            } else {
                50
            },
        ),
        adjusted(e, true).model == e.model,
        adjusted(e, true).provider == e.provider,
{
    numbers_read_back(n, 255);
    lemma_decimal_trimmed(n);
}

/// The effort that follows one.
pub open spec fn effort_from(e: Entry, forward: bool, s: Seq<char>) -> Option<Seq<char>> {
    adjusted(Entry { reasoning_effort: Some(s), ..e }, forward).reasoning_effort
}

/// The efforts follow each other from off to the highest, and round.
pub proof fn efforts_follow_each_other(e: Entry)
    requires
        e.focus == SettingsField::Reasoning,
    ensures
        ({
            &&& effort_from(e, true, "off"@) == Some("low"@)
            &&& effort_from(e, true, "low"@) == Some("medium"@)
            &&& effort_from(e, true, "medium"@) == Some("high"@)
            &&& effort_from(e, true, "high"@) == Some("xhigh"@)
            &&& effort_from(e, true, "xhigh"@) == Some("off"@)
            &&& effort_from(e, false, "off"@) == Some("xhigh"@)
            &&& effort_from(e, false, "low"@) == Some("off"@)
            &&& effort_from(e, false, "medium"@) == Some("low"@)
            &&& effort_from(e, false, "high"@) == Some("medium"@)
            &&& effort_from(e, false, "xhigh"@) == Some("high"@)
            &&& adjusted(e, true) == (Entry {
                reasoning_effort: adjusted(e, true).reasoning_effort,
                ..e
            })
        }),
{
    assert(EFFORTS@[0]@ == "off"@);
    assert(EFFORTS@[1]@ == "low"@);
    assert(EFFORTS@[2]@ == "medium"@);
    assert(EFFORTS@[3]@ == "high"@);
    assert(EFFORTS@[4]@ == "xhigh"@);
    reveal_strlit("off");
    reveal_strlit("low");
    reveal_strlit("medium");
    reveal_strlit("high");
    reveal_strlit("xhigh");
    assert(lowered("off"@) =~= "off"@);
    assert(lowered("low"@) =~= "low"@);
    assert(lowered("medium"@) =~= "medium"@);
    assert(lowered("high"@) =~= "high"@);
    assert(lowered("xhigh"@) =~= "xhigh"@);
    turning_goes_round(0, 5);
    turning_goes_round(1, 5);
    turning_goes_round(2, 5);
    turning_goes_round(3, 5);
    turning_goes_round(4, 5);
    assert("off"@[0] == 'o' && "low"@[0] == 'l');
    assert(effort_at("off"@) == 0 && effort_at("low"@) == 1 && effort_at("medium"@) == 2);
    assert(effort_at("high"@) == 3 && effort_at("xhigh"@) == 4);
}

/// Another provider brings its own address, model and limits; the key and the effort
/// stay, and the models that were listed for the other are dropped.
pub proof fn another_provider_brings_its_presets(e: Entry, forward: bool)
    requires
        e.focus == SettingsField::Provider,
    ensures
        ({
            let t = adjusted(e, forward);
            let (base, model) = defaults(t.provider, e.anthropic_models);
            let (window, pct) = context_defaults(t.provider);
            &&& t.api_key == e.api_key
            &&& t.fetched is None
            &&& t.base_url == base
            &&& t.model == model
            &&& t.context_window == decimal(window as nat)
            &&& t.compact_at_pct == decimal(pct as nat)
            &&& e.reasoning_effort is Some ==> t.reasoning_effort == e.reasoning_effort
        }),
{
}

/// Models are turned through in the order in which they are offered.
pub proof fn models_are_turned_in_order(e: Entry, i: int)
    requires
        e.focus == SettingsField::Model,
        0 <= i < candidates(e).len(),
        e.model == candidates(e)[i],
        candidates(e).no_duplicates(),
    ensures
        ({
            let all = candidates(e);
            let next = if i + 1 < all.len() {
                i + 1
            } else {
                0
            };
            let last = if i > 0 {
                i - 1
            } else {
                all.len() - 1
            };
            &&& adjusted(e, true).model == all[next]
            &&& adjusted(e, false).model == all[last]
            &&& adjusted(e, true) == (Entry { model: all[next], ..e })
        }),
{
    let all = candidates(e);
    assert(all.contains(e.model));
    assert(text_at_in(all, e.model, i));
    let k = choose|k: int| text_at_in(all, e.model, k);
    assert(all[k] == all[i]);
    assert(k == i);
    turning_goes_round(i as nat, all.len());
}

/// The models that a provider listed take the place of the known ones; a model that
/// is there already stays.
pub proof fn listed_models_are_offered(e: Entry, list: Seq<Seq<char>>)
    ensures
        candidates(models_loaded(e, list)) == list,
        e.fetched is None ==> candidates(e) == known_models(e.provider, e.anthropic_models),
        !blank(e.model) ==> models_loaded(e, list).model == e.model,
        blank(e.model) && list.len() > 0 ==> models_loaded(e, list).model == list[0],
        occurs(models_loaded(e, list).fetch_status, decimal(list.len())),
{
    texts_hold_their_parts("Loaded "@, decimal(list.len()), " models from provider."@);
}

/// Models are asked for once, when their field is taken up and there is a key, or an
/// address that needs none.
pub proof fn models_are_asked_for_once(e: Entry)
    ensures
        wants_models(e) ==> e.focus == SettingsField::Model && e.fetched is None,
        e.focus == SettingsField::Model && e.fetched is None && !blank(e.api_key) ==> wants_models(
            e,
        ),
        blank(e.api_key) && e.provider != "openai-compatible"@ && e.provider
            != "anthropic-compatible"@ ==> !wants_models(e),
        e.focus == SettingsField::Model && e.fetched is None && e.provider == "openai-compatible"@
            && !blank(e.base_url) ==> wants_models(e),
{
}

/// A model is suggested where its name holds what is typed, in any case, and those
/// that begin with it come first.
pub proof fn fitting_models_are_suggested(
    list: Seq<Seq<char>>,
    query: Seq<char>,
    m: Seq<char>,
)
    requires
        query.len() > 0,
    ensures
        ({
            let r = ranked(list, query);
            &&& r.prefix.contains(m) <==> list.contains(m) && starts(lowered(m), query)
            &&& r.others.contains(m) <==> list.contains(m) && occurs(lowered(m), query) && !starts(
                lowered(m),
                query,
            )
        }),
    decreases list.len(),
{
    let r = ranked(list, query);
    if list.len() > 0 {
        let rest = list.drop_last();
        let x = list.last();
        fitting_models_are_suggested(rest, query, m);
        fitting_models_are_suggested(rest, query, x);
        let q = ranked(rest, query);
        texts_hold_their_parts(lowered(x), query, Seq::empty());
        assert(list.contains(m) <==> rest.contains(m) || m == x) by {
            if list.contains(m) {
                let i = choose|i: int| 0 <= i < list.len() && list[i] == m;
                if i < rest.len() {
                    assert(rest[i] == m);
                }
            }
            if rest.contains(m) {
                let i = choose|i: int| 0 <= i < rest.len() && rest[i] == m;
                assert(list[i] == m);
            }
            assert(list[list.len() - 1] == x);
        }
        lemma_contains_push(q.prefix, x, m);
        lemma_contains_push(q.others, x, m);
    }
}

proof fn lemma_contains_push(list: Seq<Seq<char>>, x: Seq<char>, m: Seq<char>)
    ensures
        list.push(x).contains(m) <==> list.contains(m) || m == x,
{
    if list.push(x).contains(m) {
        let i = choose|i: int| 0 <= i < list.push(x).len() && list.push(x)[i] == m;
        if i < list.len() {
            assert(list[i] == m);
        }
    }
    if list.contains(m) {
        let i = choose|i: int| 0 <= i < list.len() && list[i] == m;
        assert(list.push(x)[i] == m);
    }
    assert(list.push(x)[list.len() as int] == x);
}

// ---------------------------------------------------------------------------
// Signing in
// ---------------------------------------------------------------------------

/// One signs in once: not while it goes on, and not where it is done.
pub proof fn signing_in_happens_once(d: Desk, device: bool, w: Around)
    ensures
        d.signing_in ==> signing(d, device, w).1.len() == 0,
        !d.signing_in && !w.signed_in ==> signing(d, device, w).1 == seq![Deed::SignIn { device }],
        !d.signing_in && w.signed_in ==> signing(d, device, w).1.len() == 1 && signing(
            d,
            device,
            w,
        ).1[0] is SaveProfile,
        !d.signing_in && !w.signed_in && !device ==> signing(d, device, w).0.signing_in,
{
}

/// An account is saved without a key and without an address.
pub proof fn an_account_has_no_key(d: Desk, email: Option<Seq<char>>)
    ensures
        ({
            let (e, out) = account_ready(d, email);
            &&& e.device is None
            &&& e.entry.api_key.len() == 0 && e.entry.base_url.len() == 0
            &&& out.len() == 1 && match out[0] {
                Deed::SaveProfile { editing, setup, purpose } => {
                    &&& editing == d.editing
                    &&& setup.api_key.len() == 0 && setup.base_url.len() == 0
                    &&& setup.provider == d.entry.provider
                    &&& !blank(d.entry.model) ==> setup.model == d.entry.model
                    &&& purpose == (Intent::Account { email })
                },
                _ => false,
            }
        }),
{
    reveal_strlit("");
}

/// A device code is copied and shown, and its sign-in waited for.
pub proof fn a_device_code_is_copied(d: Desk, code: Seq<char>, url: Seq<char>, e: Seq<char>)
    ensures
        ({
            let (f, out) = code_given(d, Ending::Done((code, url)));
            &&& out == seq![Deed::Copy { text: code }, Deed::AwaitDevice]
            &&& f.device == Some((code, url))
            &&& f.signing_in
            &&& occurs(f.status, code) && occurs(f.status, url)
        }),
        code_given(d, Ending::Failed(e)).1.len() == 0,
        ends(code_given(d, Ending::Failed(e)).0.status, e),
        ends(code_given(d, Ending::Crashed(e)).0.status, e),
        !sign_in_over(d, Ending::Failed(e)).0.signing_in,
        !sign_in_over(d, Ending::Crashed(e)).0.signing_in,
        !sign_in_over(d, Ending::Done(None)).0.signing_in,
        sign_in_over(d, Ending::Failed(e)).1.len() == 0,
        ends(sign_in_over(d, Ending::Failed(e)).0.status, e),
{
    let tail = " and paste it. Waiting for sign-in…"@;
    let rest = " copied — open "@ + url + tail;
    texts_hold_their_parts("Code "@, code, rest);
    assert(code_note(code, url) =~= "Code "@ + code + rest);
    texts_hold_their_parts("Code "@ + code + " copied — open "@, url, tail);
    texts_hold_their_parts("device-code start failed: "@, e, Seq::empty());
    texts_hold_their_parts("device-code task crashed: "@, e, Seq::empty());
    texts_hold_their_parts("ChatGPT sign-in failed: "@, e, Seq::empty());
}

/// With a device code on the screen `c` copies the code and `u` the address.
pub proof fn the_code_and_the_address_can_be_copied(d: Desk, key: Key, w: Around)
    requires
        d.device is Some,
    ensures
        form_char(d, key, 'c', w).1 == seq![Deed::Copy { text: (d.device->0).0 }],
        form_char(d, key, 'u', w).1 == seq![Deed::Copy { text: (d.device->0).1 }],
        form_char(d, key, 'c', w).0.entry == d.entry,
{
}

/// Signing out drops the key of an account, and nobody else's.
pub proof fn signing_out_drops_the_account(d: Desk, provider: Seq<char>, e: Seq<char>)
    ensures
        provider == "chatgpt"@ ==> signed_out(d, provider, None).1 == seq![Deed::ForgetKey],
        provider != "chatgpt"@ ==> signed_out(d, provider, None).1.len() == 0,
        d.entry.provider != "chatgpt"@ ==> signed_out(d, provider, None).0.entry == d.entry,
        d.entry.provider == "chatgpt"@ ==> signed_out(d, provider, None).0.entry.api_key.len() == 0,
        signed_out(d, provider, Some(e)).1.len() == 0,
        signed_out(d, provider, Some(e)).0.entry == d.entry,
        ends(signed_out(d, provider, Some(e)).0.error->0, e),
{
    reveal_strlit("");
    texts_hold_their_parts("ChatGPT logout failed: "@, e, Seq::empty());
}

/// The form is closed when a profile is saved, and a loop that goes on takes it up; a
/// profile that could not be saved keeps the form open.
pub proof fn a_saved_profile_is_taken_up(
    d: Desk,
    key: Seq<char>,
    purpose: Intent,
    provider: Seq<char>,
    model: Seq<char>,
    e: Seq<char>,
    w: Around,
)
    ensures
        ({
            let (f, out) = saved(d, key, purpose, Ok((provider, model)), w);
            &&& !f.connecting
            &&& out[0] == Deed::ForgetConfig
            &&& alive(d, w) ==> out.last() == (Deed::Spawn { initial: None })
            &&& !alive(d, w) ==> !out.contains(Deed::Spawn { initial: None })
            &&& occurs(f.status, model)
        }),
        saved(d, key, purpose, Err(e), w).0.error == Some(e),
        saved(d, key, purpose, Err(e), w).0.connecting == d.connecting,
        saved(d, key, purpose, Err(e), w).0.editing == Some(key),
        saved(d, key, purpose, Err(e), w).1.len() == 0,
{
    let r = resumed_note(d, w);
    match purpose {
        Intent::Connect => {
            texts_hold_their_parts("✓ Connected — "@ + provider + " · "@, model, r);
        },
        Intent::Account { email } => {
            let who = match email {
                Some(x) => " as "@ + x,
                None => ""@,
            };
            texts_hold_their_parts("✓ Signed in to ChatGPT"@ + who + " — "@, model, r);
        },
    }
}

} // verus!
