//! What is kept and looked up: names and uses of secrets, saved conversations, the
//! models of a provider, and the figures at the foot of the screen.
use crate::bars::{
    Figures, approval_actions, approval_title, bar_height, figures_pieces, goal_badge, header_row,
    header_taken, in_base64, message_row, update_note,
};
use crate::events::GoalStatus;
use crate::figures::{TOP, below_home, coarse, divided, fine, in_double, nearest, si, window_label};
use crate::json::{Value, escaped, items_of, member, text_of};
use crate::lexis::{
    alphabet, digits, lemma_alphabet, separators_part_a_text, texts_hold_their_parts,
};
use crate::lists::{host, sessions_shown, shown_end, shown_first, without_protocol};
use crate::markdown::lemma_row_text_concat;
use crate::models::{Identity, compatible_url, named_texts, without_prefix};
use crate::options::{ExitInfo, Start, default_config, parting};
use crate::paths::{path_joined, same_path, stem_and_extension};
use crate::results::list_at;
use crate::sessions::{
    File, Kept, Listing, about_saved, ago, all_listed, file_of_conversation, holds_conversation,
    last_active, newest_file,
};
use crate::style::{Piece, colored, piece, raw, room};
use crate::text::{
    blank, byte_len, decimal, ends, is_digit, is_lower, is_upper, occurs, occurs_at, pieces,
    repeated, replaced, starts, trimmed,
};
use crate::theme::{accent, faint, muted};
use crate::vault::{
    covers, entry_scrubbed, form_scrubbed, forms, hidden, identifier_char, marker, name_ok, rebuilt,
    references, scrubbed, token_at, value_scrubbed,
};
use crate::wrap::row_text;
use vstd::prelude::*;

verus! {

// ---------------------------------------------------------------------------
// Secrets
// ---------------------------------------------------------------------------

/// A command uses a secret where its name stands for itself, whatever stands around
/// it that is no part of a name.
pub proof fn a_name_of_its_own_is_a_use(a: Seq<char>, name: Seq<char>, b: Seq<char>)
    requires
        name.len() > 0,
        a.len() == 0 || !identifier_char(a.last()),
        b.len() == 0 || !identifier_char(b[0]),
    ensures
        references(a + name + b, name),
{
    let s = a + name + b;
    let i = a.len() as int;
    assert(s.subrange(i, i + name.len()) =~= name);
    if a.len() > 0 {
        assert(s[i - 1] == a.last());
    }
    if b.len() > 0 {
        assert(s[i + name.len() as int] == b[0]);
    }
    assert(token_at(s, name, i));
}

/// A name within a longer one is no use of it, and what does not hold the name uses
/// nothing.
pub proof fn a_name_within_a_name_is_no_use(command: Seq<char>, name: Seq<char>)
    ensures
        command != name && (forall|i: int|
            0 <= i < command.len() ==> identifier_char(#[trigger] command[i])) ==> !references(
            command,
            name,
        ),
        !occurs(command, name) ==> !references(command, name),
        name.len() == 0 ==> !references(command, name),
{
    if references(command, name) {
        let i = choose|i: int| token_at(command, name, i);
        assert(occurs_at(command, name, i));
        if forall|k: int| 0 <= k < command.len() ==> identifier_char(#[trigger] command[k]) {
            if i > 0 {
                assert(identifier_char(command[i - 1]));
            }
            if i + name.len() < command.len() {
                assert(identifier_char(command[i + name.len() as int]));
            }
            assert(command.subrange(0, command.len() as int) =~= command);
        }
    }
}

/// Letters, digits and the underscore make up names; nothing else does.
pub proof fn what_makes_up_names(c: char)
    ensures
        identifier_char(c) <==> alphabet(true).contains(c) || alphabet(false).contains(c)
            || digits().contains(c) || c == '_',
{
    reveal_strlit("ABCDEFGHIJKLMNOPQRSTUVWXYZ");
    reveal_strlit("abcdefghijklmnopqrstuvwxyz");
    reveal_strlit("0123456789");
    if is_upper(c) {
        let k = (c as int) - ('A' as int);
        lemma_alphabet(k);
        assert(alphabet(true)[k] == c);
    }
    if is_lower(c) {
        let k = (c as int) - ('a' as int);
        lemma_alphabet(k);
        assert(alphabet(false)[k] == c);
    }
    if is_digit(c) {
        let k = (c as int) - ('0' as int);
        assert(digits()[k] == c);
    }
    if alphabet(true).contains(c) {
        let k = choose|k: int| 0 <= k < 26 && alphabet(true)[k] == c;
        lemma_alphabet(k);
    }
    if alphabet(false).contains(c) {
        let k = choose|k: int| 0 <= k < 26 && alphabet(false)[k] == c;
        lemma_alphabet(k);
    }
}

/// A secret is named like a variable of the environment: with capitals, digits and
/// underscores, and no digit in front.
pub proof fn secrets_are_named_like_variables(name: Seq<char>, c: char)
    ensures
        !name_ok(Seq::empty()),
        name_ok(seq![c]) <==> 'A' <= c <= 'Z' || c == '_',
        name.len() > 0 ==> (name_ok(name.push(c)) <==> name_ok(name) && ('A' <= c <= 'Z' || '0' <= c
            <= '9' || c == '_')),
{
    let one = seq![c];
    assert(one[0] == c);
    if name.len() > 0 {
        let n = name.push(c);
        assert(n[0] == name[0]);
        assert(n[name.len() as int] == c);
        if name_ok(n) {
            assert forall|i: int| 0 <= i < name.len() implies {
                let x = #[trigger] name[i];
                is_upper(x) || is_digit(x) || x == '_'
            } by {
                assert(n[i] == name[i]);
            }
        }
        if name_ok(name) && ('A' <= c <= 'Z' || '0' <= c <= '9' || c == '_') {
            assert forall|i: int| 0 <= i < n.len() implies {
                let x = #[trigger] n[i];
                is_upper(x) || is_digit(x) || x == '_'
            } by {
                if i < name.len() {
                    assert(n[i] == name[i]);
                }
            }
        }
    }
}

/// What stands for a secret names it.
pub proof fn markers_name_the_secret(name: Seq<char>, other: Seq<char>)
    ensures
        occurs(marker(name), name),
        starts(marker(name), "[vault:"@),
        ends(marker(name), "]"@),
        marker(name) == marker(other) ==> name == other,
{
    texts_hold_their_parts("[vault:"@, name, "]"@);
    texts_hold_their_parts(Seq::empty(), "[vault:"@, name + "]"@);
    assert(marker(name) =~= "[vault:"@ + (name + "]"@));
    texts_hold_their_parts("[vault:"@ + name, "]"@, Seq::empty());
    let n = "[vault:"@.len() as int;
    if marker(name) == marker(other) {
        assert(marker(name).subrange(n, marker(name).len() - "]"@.len()) =~= name);
        assert(marker(other).subrange(n, marker(other).len() - "]"@.len()) =~= other);
    }
}

/// Of a value only its texts are scrubbed: what is no text stays, and so do the names
/// of members and the order.
pub proof fn only_texts_are_scrubbed(v: Value, entries: Seq<(Seq<char>, Seq<char>)>, i: int)
    ensures
        v is Null || v is Bool || v is Number ==> value_scrubbed(v, entries) == v,
        v matches Value::Text(s) ==> value_scrubbed(v, entries) == Value::Text(
            scrubbed(s, entries),
        ),
        v matches Value::Array(a) ==> value_scrubbed(v, entries) is Array && value_scrubbed(
            v,
            entries,
        )->Array_0.len() == a.len() && (0 <= i < a.len() ==> value_scrubbed(
            v,
            entries,
        )->Array_0[i] == value_scrubbed(a[i], entries)),
        v matches Value::Object(m) ==> value_scrubbed(v, entries) is Object && value_scrubbed(
            v,
            entries,
        )->Object_0.len() == m.len() && (0 <= i < m.len() ==> value_scrubbed(
            v,
            entries,
        )->Object_0[i] == (m[i].0, value_scrubbed(m[i].1, entries))),
{
}

// ---------------------------------------------------------------------------
// Conversations
// ---------------------------------------------------------------------------

/// How long ago something was is told in the largest unit that it fills: minutes,
/// hours or days.
pub proof fn the_largest_unit_tells_the_time(n: nat, rest: nat)
    ensures
        n < 60 ==> ago(n) == "just now"@,
        1 <= n < 60 && rest < 60 ==> ago(60 * n + rest) == decimal(n) + "m ago"@,
        1 <= n < 24 && rest < 3600 ==> ago(3600 * n + rest) == decimal(n) + "h ago"@,
        1 <= n && rest < 86400 ==> ago(86400 * n + rest) == decimal(n) + "d ago"@,
{
    assert(rest < 60 ==> (60 * n + rest) / 60 == n);
    assert(rest < 3600 ==> (3600 * n + rest) / 3600 == n);
    assert(rest < 86400 ==> (86400 * n + rest) / 86400 == n);
}

/// What is said of a conversation is short enough for the list, and its beginning.
pub proof fn long_titles_are_cut(s: Seq<char>)
    ensures
        crate::sessions::shortened(s).len() <= 40,
        s.len() <= 40 ==> crate::sessions::shortened(s) == s,
        s.len() > 40 ==> crate::sessions::shortened(s).take(37) == s.take(37) && ends(
            crate::sessions::shortened(s),
            "..."@,
        ),
{
    reveal_strlit("...");
    if s.len() > 40 {
        assert(crate::sessions::shortened(s).take(37) =~= s.take(37));
        texts_hold_their_parts(s.take(37), "..."@, Seq::empty());
    }
}

/// A conversation is told by its title; without one by what was asked for.
pub proof fn conversations_are_told_by_their_title(f: File, k: Kept)
    requires
        f.saved == Some(k),
    ensures
        k.title matches Some(t) && !blank(t) ==> about_saved(f) == trimmed(k.title->0),
        (k.title is None || blank(k.title->0)) && k.user_request.len() > 0 ==> about_saved(f)
            == k.user_request,
        (k.title is None || blank(k.title->0)) && k.user_request.len() == 0 ==> about_saved(f)
            == "empty session"@,
{
}

/// Every file that holds a conversation is listed, in whatever order they are found,
/// and no other.
pub proof fn what_is_found_is_listed(a: Seq<File>, f: File, b: Seq<File>)
    ensures
        all_listed(a + seq![f] + b).len() == all_listed(a + b).len() + (if crate::sessions::listed(
            f,
        ) is Some {
            1nat
        } else {
            0
        }),
        all_listed(a + b) == all_listed(a) + all_listed(b),
        crate::sessions::listed(f) matches Some(e) ==> all_listed(a + seq![f] + b) == all_listed(a)
            + seq![e] + all_listed(b),
        !holds_conversation(f.path) ==> crate::sessions::listed(f) is None,
{
    lemma_listed_concat(a, b);
    lemma_listed_concat(a + seq![f], b);
    lemma_listed_concat(a, seq![f]);
    reveal_with_fuel(all_listed, 2);
    assert(seq![f].drop_last() =~= Seq::<File>::empty());
    match crate::sessions::listed(f) {
        Some(e) => {
            assert(all_listed(seq![f]) =~= seq![e]);
        },
        None => {
            assert(all_listed(seq![f]) =~= Seq::<Listing>::empty());
        },
    }
}

proof fn lemma_listed_concat(a: Seq<File>, b: Seq<File>)
    ensures
        all_listed(a + b) == all_listed(a) + all_listed(b),
    decreases b.len(),
{
    if b.len() == 0 {
        assert(a + b =~= a);
        assert(all_listed(a) + all_listed(b) =~= all_listed(a));
    } else {
        assert((a + b).drop_last() =~= a + b.drop_last());
        assert((a + b).last() == b.last());
        lemma_listed_concat(a, b.drop_last());
        assert(all_listed(a + b) =~= all_listed(a) + all_listed(b));
    }
}

/// The file that changed last is found: none that holds a conversation is newer.
pub proof fn no_file_is_newer_than_the_newest(files: Seq<File>, i: int)
    requires
        0 <= i < files.len(),
        holds_conversation(files[i].path),
        files[i].modified is Some,
    ensures
        newest_file(files).1 >= files[i].modified->0,
        files[i].modified->0 > 0 ==> newest_file(files).0 is Some,
        newest_file(files).0 matches Some(p) ==> exists|k: int|
            0 <= k < files.len() && (#[trigger] files[k]).path == p && files[k].modified is Some
                && files[k].modified->0 == newest_file(files).1 && holds_conversation(p),
    decreases files.len(),
{
    let rest = files.drop_last();
    lemma_newest_grows(rest);
    if i < rest.len() {
        assert(rest[i] == files[i]);
        no_file_is_newer_than_the_newest(rest, i);
    }
    lemma_newest_is_there(files);
}

proof fn lemma_newest_grows(files: Seq<File>)
    ensures
        newest_file(files).1 >= 0,
        newest_file(files).1 > 0 ==> newest_file(files).0 is Some,
    decreases files.len(),
{
    if files.len() > 0 {
        lemma_newest_grows(files.drop_last());
    }
}

proof fn lemma_newest_is_there(files: Seq<File>)
    ensures
        newest_file(files).0 matches Some(p) ==> exists|k: int|
            0 <= k < files.len() && (#[trigger] files[k]).path == p && files[k].modified is Some
                && files[k].modified->0 == newest_file(files).1 && holds_conversation(p),
    decreases files.len(),
{
    if files.len() > 0 {
        let rest = files.drop_last();
        lemma_newest_is_there(rest);
        if newest_file(files).0 is Some {
            let f = files.last();
            if f.modified is Some && holds_conversation(f.path) && f.modified->0 > newest_file(
                rest,
            ).1 {
                assert(files[files.len() - 1].path == f.path);
            } else {
                let p = newest_file(rest).0->0;
                let k = choose|k: int|
                    0 <= k < rest.len() && (#[trigger] rest[k]).path == p && rest[k].modified
                        is Some && rest[k].modified->0 == newest_file(rest).1
                        && holds_conversation(p);
                assert(files[k] == rest[k]);
            }
        }
    }
}

/// The conversation that was active last is the one whose file changed last, also
/// where that is the one without a name.
pub proof fn the_last_active_conversation(files: Seq<File>, d: File, m: i128, path: Seq<char>)
    requires
        d.modified == Some(m),
    ensures
        m > newest_file(files).1 ==> last_active(files, Some(d), path) == Some("default"@),
        m <= newest_file(files).1 && newest_file(files).0 is Some && !same_path(
            newest_file(files).0->0,
            path,
        ) ==> last_active(files, Some(d), path) == stem_and_extension(newest_file(files).0->0).0,
        newest_file(files).0 is None ==> last_active(files, None, path) is None,
{
}

/// A conversation is kept in a file of its name; the one without a name has a place
/// of its own.
pub proof fn conversations_are_kept_by_name(name: Seq<char>, dir: Seq<char>, path: Seq<char>)
    ensures
        name == "default"@ ==> file_of_conversation(name, dir, path) == path,
        name != "default"@ ==> file_of_conversation(name, dir, path) == path_joined(
            dir,
            name + ".json"@,
        ),
{
}

/// The program begins with the conversation that it was told to resume, else with the
/// last one where it resumes by itself, else with a fresh one.
pub proof fn the_first_conversation(o: Start, last: Option<Seq<char>>, fresh: Seq<char>, s: bool)
    ensures
        o.resume is Some ==> crate::options::started(o, last, fresh, s).0.conversation
            == o.resume->0,
        o.resume is None && o.resume_on_start && last is Some ==> crate::options::started(
            o,
            last,
            fresh,
            s,
        ).0.conversation == last->0,
        o.resume is None && !o.resume_on_start ==> crate::options::started(
            o,
            last,
            fresh,
            s,
        ).0.conversation == fresh,
        o.resume is None && o.resume_on_start && last is None ==> crate::options::started(
            o,
            last,
            fresh,
            s,
        ).0.conversation == "default"@,
        crate::options::started(o, last, fresh, s).0.manual == o.manual_approval,
        !crate::options::started(o, last, fresh, s).0.quit,
        !crate::options::started(o, last, fresh, s).0.connecting,
        crate::options::started(o, last, fresh, s).0.draft.input.len() == 0,
        blank(o.model.api_key) && !(o.model.provider == "chatgpt"@ && s)
            ==> crate::options::started(o, last, fresh, s).0.status
            == "No model connected yet — type /model to connect one."@,
{
}

/// At the end one is told how to come back, and what was used where anything was.
pub proof fn one_is_told_how_to_come_back(e: ExitInfo, home: Option<Seq<char>>)
    requires
        e.conversation@.len() > 0,
    ensures
        ({
            let lines = parting(e, home);
            &&& lines.len() == (if e.total_tokens > 0 {
                2nat
            } else {
                1
            })
            &&& starts(lines.last(), "snippet --resume "@ + e.conversation@)
            &&& !same_path(e.config_path@, default_config(home)) ==> ends(
                lines.last(),
                " --config "@ + e.config_path@,
            )
            &&& same_path(e.config_path@, default_config(home)) ==> lines.last()
                == "snippet --resume "@ + e.conversation@
        }),
{
    let lead = "snippet --resume "@ + e.conversation@;
    let rest = if same_path(e.config_path@, default_config(home)) {
        ""@
    } else {
        " --config "@ + e.config_path@
    };
    texts_hold_their_parts(Seq::empty(), lead, rest);
    texts_hold_their_parts(lead, rest, Seq::empty());
    reveal_strlit("");
    assert(lead + ""@ =~= lead);
}

// ---------------------------------------------------------------------------
// Models
// ---------------------------------------------------------------------------

/// The key is not part of the address at which models are asked for, except where
/// the provider takes it there; else it identifies the request.
pub proof fn keys_stay_out_of_addresses(
    provider: Seq<char>,
    key: Seq<char>,
    other: Seq<char>,
    base: Seq<char>,
)
    ensures
        provider != "gemini"@ && crate::models::asking(provider, key, base) is Some
            ==> crate::models::asking(provider, other, base) is Some && (crate::models::asking(
            provider,
            key,
            base,
        )->0).url == (crate::models::asking(provider, other, base)->0).url,
        crate::models::asking(provider, key, base) matches Some(a) ==> match a.identity {
            Identity::Bearer(k) => k == key,
            Identity::KeyHeader { key: k, .. } => k == key,
            Identity::Nothing => provider == "gemini"@ || blank(key),
        },
{
}

/// The address of a compatible endpoint is followed by `/models`, once and with one
/// slash.
pub proof fn endpoints_list_their_models(base: Seq<char>)
    requires
        base.len() > 0,
        base.last() != '/',
    ensures
        ends(compatible_url(base), "/models"@),
        !ends(base, "/models"@) ==> compatible_url(base) == base + "/models"@,
        compatible_url(base + "/"@) == base + "/models"@,
        compatible_url(base + "/models"@) == base + "/models"@,
{
    lemma_slash_before_models(base);
}

proof fn lemma_slash_before_models(base: Seq<char>)
    ensures
        ends(base + "/models"@, "/models"@),
        base + "/"@ + "models"@ == base + "/models"@,
        !ends(base + "/"@, "/models"@),
        (base + "/"@).len() > 0 && (base + "/"@).last() == '/',
{
    reveal_strlit("/");
    reveal_strlit("models");
    reveal_strlit("/models");
    let u = base + "/models"@;
    assert(u.subrange(u.len() - 7, u.len() as int) =~= "/models"@);
    assert(base + "/"@ + "models"@ =~= u);
    let s = base + "/"@;
    assert(s.last() == '/');
    if ends(s, "/models"@) {
        let t = s.subrange(s.len() - 7, s.len() as int);
        assert(t[6] == s[s.len() - 1]);
    }
}

/// The models of a reply are listed in its order; an item without a name is passed
/// over.
pub proof fn models_are_listed_in_order(items: Seq<Value>, x: Value, name: Seq<char>)
    ensures
        named_texts(Seq::empty(), name).len() == 0,
        text_of(member(x, name)) matches Some(s) ==> named_texts(items.push(x), name)
            == named_texts(items, name).push(s),
        text_of(member(x, name)) is None ==> named_texts(items.push(x), name) == named_texts(
            items,
            name,
        ),
{
    assert(items.push(x).drop_last() =~= items);
}

/// Where the models of a reply stand, by provider.
pub proof fn replies_are_read_by_provider(provider: Seq<char>, reply: Value)
    ensures
        provider == "openai"@ || provider == "anthropic"@ || provider == "anthropic-compatible"@
            || provider == "openrouter"@ ==> crate::models::listed(provider, reply) == named_texts(
            list_at(reply, "data"@),
            "id"@,
        ),
        provider == "openai-compatible"@ && items_of(member(reply, "data"@)) is Some
            ==> crate::models::listed(provider, reply) == named_texts(
            list_at(reply, "data"@),
            "id"@,
        ),
        provider == "gemini"@ ==> crate::models::listed(provider, reply).len() == named_texts(
            list_at(reply, "models"@),
            "name"@,
        ).len(),
{
    reveal_strlit("openai");
    reveal_strlit("anthropic");
    reveal_strlit("anthropic-compatible");
    reveal_strlit("openrouter");
    reveal_strlit("openai-compatible");
    reveal_strlit("gemini");
    assert("openai"@.len() == 6 && "anthropic"@.len() == 9 && "openrouter"@.len() == 10);
    assert("anthropic-compatible"@.len() == 20 && "openai-compatible"@.len() == 17);
    assert("gemini"@.len() == 6 && "gemini"@[0] == 'g' && "openai"@[0] == 'o');
}

/// What stands in front of a name is taken away once, and only where it stands there.
pub proof fn prefixes_are_taken_away(p: Seq<char>, s: Seq<char>)
    ensures
        without_prefix(p + s, p) == s,
        !starts(s, p) ==> without_prefix(s, p) == s,
{
    texts_hold_their_parts(s, p, s);
    assert((p + s).skip(p.len() as int) =~= s);
}

// ---------------------------------------------------------------------------
// Figures
// ---------------------------------------------------------------------------

/// A small number is written out; thousands and millions are counted, to the nearest.
pub proof fn large_numbers_are_counted_in_units(n: nat)
    ensures
        n < 1000 ==> si(n) == decimal(n),
        1000 <= n < 1_000_000 ==> si(n) == decimal(divided(n, 1000)) + "k"@,
        n >= 1_000_000 ==> si(n) == decimal(divided(n, 1_000_000)) + "M"@,
        1000 <= n < 1_000_000 ==> 4 * (1000 * divided(n, 1000) - n) <= 3000 && 4 * (n - 1000
            * divided(n, 1000)) <= 3000,
        1_000_000 <= n < 1_000_000_000_000_000 ==> 4 * (1_000_000 * divided(n, 1_000_000) - n)
            <= 3_000_000 && 4 * (n - 1_000_000 * divided(n, 1_000_000)) <= 3_000_000,
{
    if 1000 <= n < 1_000_000 {
        lemma_divided(n, 1000);
    } else if 1_000_000 <= n < 1_000_000_000_000_000 {
        lemma_divided(n, 1_000_000);
    }
}

proof fn lemma_nearest(a: nat, b: nat)
    requires
        b > 0,
    ensures
        2 * (b * nearest(a, b) - a) <= b,
        2 * (a - b * nearest(a, b)) <= b,
{
    let q = a / b;
    let r = a % b;
    vstd::arithmetic::div_mod::lemma_fundamental_div_mod(a as int, b as int);
    vstd::arithmetic::div_mod::lemma_mod_bound(a as int, b as int);
    assert(b * (q + 1) == b * q + b) by (nonlinear_arith);
}

proof fn lemma_fine(a: nat, b: nat, f: nat)
    requires
        f >= 1,
    ensures
        fine(a, b, f) >= f,
        a > 0 && 2 * f * a < TOP * b ==> fine(a, b, f) >= 2 * f,
    decreases TOP * b - f * a,
{
    if a > 0 && 2 * f * a < TOP * b {
        assert(f * a < 2 * f * a) by (nonlinear_arith)
            requires
                a > 0,
                f >= 1,
        ;
        lemma_fine(a, b, 2 * f);
    }
}

proof fn lemma_divided(n: nat, d: nat)
    requires
        0 < n < TOP,
        d >= 2,
    ensures
        4 * (d * divided(n, d) - n) <= 3 * d,
        4 * (n - d * divided(n, d)) <= 3 * d,
{
    assert(coarse(n) == 1);
    assert(nearest(n, 1) == n) by {
        lemma_nearest(n, 1);
    }
    let a = in_double(n);
    assert(a == n);
    let f = fine(a, d, 1);
    assert(2 * 1 * a < TOP * d) by (nonlinear_arith)
        requires
            a < TOP,
            d >= 2,
    ;
    lemma_fine(a, d, 1);
    let x = nearest(a * f, d);
    let q = nearest(x, f);
    lemma_nearest(a * f, d);
    lemma_nearest(x, f);
    assert(4 * (d * q - n) <= 3 * d && 4 * (n - d * q) <= 3 * d) by (nonlinear_arith)
        requires
            f >= 2,
            d >= 2,
            a == n,
            2 * (d * x - a * f) <= d,
            2 * (a * f - d * x) <= d,
            2 * (f * q - x) <= f,
            2 * (x - f * q) <= f,
    {
        // d f q lies within d f / 2 of d x, and d x within d / 2 of a f
        assert(2 * (d * (f * q) - d * x) <= d * f);
        assert(2 * (d * x - d * (f * q)) <= d * f);
        assert(d * (f * q) == f * (d * q));
        assert(2 * (f * (d * q) - a * f) <= d * f + d);
        assert(2 * (a * f - f * (d * q)) <= d * f + d);
        assert(2 * d <= d * f);
        assert(4 * (f * (d * q) - a * f) <= 3 * d * f);
        assert(4 * (a * f - f * (d * q)) <= 3 * d * f);
        assert(f * (4 * (d * q - n)) <= f * (3 * d));
        assert(f * (4 * (n - d * q)) <= f * (3 * d));
    }
}

/// A limit is told by the window that it is about, give or take a twentieth; else by
/// its hours.
pub proof fn windows_are_told_by_name(minutes: int)
    ensures
        285 <= minutes <= 315 ==> window_label(minutes) == "5h"@,
        1368 <= minutes <= 1512 ==> window_label(minutes) == "daily"@,
        9576 <= minutes <= 10584 ==> window_label(minutes) == "wk"@,
        41040 <= minutes <= 45360 ==> window_label(minutes) == "mo"@,
        minutes <= 0 ==> window_label(minutes) == "limit"@,
        0 < minutes < 60 ==> window_label(minutes) == decimal(1) + "h"@,
        60 <= minutes < 285 || 315 < minutes < 1368 || 1512 < minutes < 9576 || 10584 < minutes
            < 41040 || minutes > 45360 ==> window_label(minutes) == decimal((minutes / 60) as nat)
            + "h"@,
{
}

/// A place below the home directory is shown from there.
pub proof fn places_are_shown_from_home(home: Seq<char>, rest: Seq<char>, path: Seq<char>)
    requires
        home.len() > 0,
    ensures
        below_home(home + rest, Some(home)) == "~"@ + rest,
        !starts(path, home) ==> below_home(path, Some(home)) == path,
        below_home(path, None) == path,
{
    texts_hold_their_parts(path, home, rest);
    assert((home + rest).skip(home.len() as int) =~= rest);
}

/// What goes on beside the conversation is shown where there is any of it.
pub proof fn figures_are_shown_where_there_are_any(f: Figures)
    ensures
        ({
            let row = figures_pieces(f);
            &&& row[0].text == "↑"@ + si(f.prompt)
            &&& row[2].text == "↓"@ + si(f.completion)
            &&& row.last().text == "ctx "@ + si(f.context) + " "@
            &&& row.len() == 5 + (if f.lanes > 0 {
                1nat
            } else {
                0
            }) + (if f.watching > 0 {
                1nat
            } else {
                0
            }) + (if f.cache > 0 {
                1nat
            } else {
                0
            })
            &&& f.lanes > 0 ==> row[3].text == "  ◆"@ + decimal(f.lanes)
            &&& f.watching > 0 ==> row[if f.lanes > 0 {
                4int
            } else {
                3
            }].text == "  ◉"@ + decimal(f.watching)
        }),
{
}

/// The rule of the header fills it up to the last column.
pub proof fn the_header_fills_the_width(
    model: Seq<char>,
    goal: Option<GoalStatus>,
    update: Option<Seq<char>>,
    width: nat,
)
    requires
        header_taken(model, goal, update) < width,
    ensures
        row_text(header_row(model, goal, update, width)).len() + 1 == width,
{
    reveal_strlit(" snipett");
    reveal_strlit(" · ");
    reveal_strlit(" ");
    reveal_strlit("· ");
    let rule = room(width, header_taken(model, goal, update));
    let head = seq![
        piece(" snipett"@, colored(accent()).bolded()),
        piece(" · "@, colored(muted())),
        piece(model, colored(muted())),
        raw(" "@),
    ];
    let badge = match goal_badge(goal) {
        Some(l) => seq![
            piece("· "@, colored(muted())),
            piece(l + " "@, colored(accent()).bolded()),
        ],
        None => Seq::empty(),
    };
    let line = seq![piece(repeated('─', rule), colored(faint()))];
    let end = match update {
        Some(v) => seq![raw(" "@), piece(update_note(v), colored(accent()))],
        None => Seq::empty(),
    };
    lemma_row_text_concat(head + badge + line, end);
    lemma_row_text_concat(head + badge, line);
    lemma_row_text_concat(head, badge);
    lemma_four(head);
    lemma_up_to_two(badge);
    lemma_up_to_two(line);
    lemma_up_to_two(end);
}

proof fn lemma_up_to_two(row: Seq<Piece>)
    requires
        row.len() <= 2,
    ensures
        row_text(row).len() == (if row.len() > 0 {
            row[0].text.len()
        } else {
            0
        }) + (if row.len() > 1 {
            row[1].text.len()
        } else {
            0
        }),
{
    reveal_with_fuel(row_text, 3);
}

proof fn lemma_four(row: Seq<Piece>)
    requires
        row.len() == 4,
    ensures
        row_text(row).len() == row[0].text.len() + row[1].text.len() + row[2].text.len()
            + row[3].text.len(),
{
    reveal_with_fuel(row_text, 5);
}

/// The bars of the animation stay within their eight heights and rise and fall by one
/// step at a time.
pub proof fn bars_rise_and_fall_by_a_step(frame: nat, i: nat)
    ensures
        bar_height(frame, i) <= 7,
        bar_height(frame + 2, i) <= bar_height(frame, i) + 1,
        bar_height(frame, i) <= bar_height(frame + 2, i) + 1,
        bar_height(frame + 28, i) == bar_height(frame, i),
        bar_height(0, 0) == 0,
{
    let p = frame / 2 + i * 2;
    assert((frame + 2) / 2 + i * 2 == p + 1);
    assert((frame + 28) / 2 + i * 2 == p + 14);
    assert((p + 14) % 14 == p % 14);
    assert(p % 14 < 13 ==> (p + 1) % 14 == p % 14 + 1);
    assert(p % 14 == 13 ==> (p + 1) % 14 == 0);
}

/// Bytes are written in groups of three, four characters for each.
pub proof fn bytes_are_written_in_groups(a: Seq<u8>, b: Seq<u8>)
    requires
        a.len() % 3 == 0,
    ensures
        in_base64(a + b) == in_base64(a) + in_base64(b),
        in_base64(a).len() == 4 * (a.len() / 3),
    decreases a.len(),
{
    if a.len() == 0 {
        assert(a + b =~= b);
        assert(in_base64(a) + in_base64(b) =~= in_base64(b));
    } else {
        let r = a.skip(3);
        assert(a.len() >= 3);
        bytes_are_written_in_groups(r, b);
        assert((a + b).skip(3) =~= r + b);
        assert(r.len() == a.len() - 3);
        if a.len() == 3 {
            assert(r =~= Seq::<u8>::empty());
            assert(in_base64(r) =~= Seq::<char>::empty());
            assert(r + b =~= b);
        }
        if (a + b).len() == 3 {
            assert(b =~= Seq::<u8>::empty());
        }
        assert(in_base64(a + b) =~= in_base64(a) + in_base64(b));
    }
}

/// What a call needs approval for is shown with its place among several, and the
/// choice of all only where there are several.
pub proof fn approval_shows_its_place(tool: Seq<char>, index: nat, total: nat)
    ensures
        occurs(approval_title(tool, index, total), tool),
        total > 1 ==> occurs(approval_title(tool, index, total), decimal(index) + "/"@ + decimal(total)),
        total > 1 ==> approval_actions(total).len() == 8 && approval_actions(total)[2].text
            == "⏩ a "@,
        total <= 1 ==> approval_actions(total).len() == 6 && approval_actions(total)[2].text
            == "✗ n "@,
        approval_actions(total)[0].text == "  ✓ y "@,
{
    if total > 1 {
        let place = decimal(index) + "/"@ + decimal(total);
        let rest = "   "@ + decimal(index) + "/"@ + decimal(total) + " "@;
        texts_hold_their_parts(" approve · "@, tool, rest);
        assert(approval_title(tool, index, total) =~= " approve · "@ + tool + rest);
        texts_hold_their_parts(" approve · "@ + tool + "   "@, place, " "@);
        assert(approval_title(tool, index, total) =~= " approve · "@ + tool + "   "@ + place
            + " "@);
    } else {
        texts_hold_their_parts(" approve · "@, tool, " "@);
    }
}

/// An error is shown before anything else that is said.
pub proof fn errors_are_shown_first(status: Seq<char>, e: Seq<char>)
    ensures
        message_row(status, Some(e)).last().text == e,
        message_row(status, Some(e))[0].text == "error: "@,
        message_row(status, None).len() == 1 && message_row(status, None)[0].text == status,
{
}

/// Of a long list so much is shown as there is room for, with the selected entry in
/// it, and how many are left out above and below.
pub proof fn the_selected_conversation_is_shown(
    list: Seq<(Seq<char>, Seq<char>)>,
    selected: nat,
    height: nat,
)
    requires
        selected < list.len(),
        height >= 5,
    ensures
        ({
            let rows = sessions_shown(list, selected, height);
            let visible = (height - 4) as nat;
            let from = shown_first(selected, visible);
            let to = shown_end(selected, visible, list.len());
            &&& from <= selected < to
            &&& to - from <= visible
            &&& rows.len() == (to - from) + (if from > 0 {
                1int
            } else {
                0
            }) + (if to < list.len() {
                1int
            } else {
                0
            })
            &&& rows[(selected - from) + (if from > 0 {
                1int
            } else {
                0
            })][0].text == "▍ "@
            &&& list.len() <= visible ==> from == 0 && to == list.len()
        }),
{
}

/// What an address is about is its host.
pub proof fn addresses_are_told_by_their_host(host_name: Seq<char>, rest: Seq<char>)
    requires
        host_name.len() > 0,
        !host_name.contains('/'),
        !host_name.contains(':'),
    ensures
        host("https://"@ + host_name + seq!['/'] + rest) == host_name,
        host("http://"@ + host_name + seq!['/'] + rest) == host_name,
        host(host_name + seq!['/'] + rest) == host_name,
{
    reveal_strlit("https://");
    reveal_strlit("http://");
    reveal_with_fuel(without_protocol, 2);
    let plain_address = host_name + seq!['/'] + rest;
    lemma_no_protocol(host_name, rest);
    separators_part_a_text(host_name, rest, '/');
    assert(pieces(plain_address, '/')[0] == host_name);
    let a = "https://"@ + host_name + seq!['/'] + rest;
    let b = "http://"@ + host_name + seq!['/'] + rest;
    assert(a =~= "https://"@ + plain_address);
    assert(b =~= "http://"@ + plain_address);
    texts_hold_their_parts(a, "https://"@, plain_address);
    texts_hold_their_parts(b, "http://"@, plain_address);
    assert(a.skip(8) =~= plain_address);
    assert(b.skip(7) =~= plain_address);
    assert(!starts(b, "https://"@)) by {
        if starts(b, "https://"@) {
            assert(b.subrange(0, 8)[4] == b[4]);
            assert(b[4] == ':');
        }
    }
}

proof fn lemma_no_protocol(host_name: Seq<char>, rest: Seq<char>)
    requires
        host_name.len() > 0,
        !host_name.contains('/'),
        !host_name.contains(':'),
    ensures
        !starts(host_name + seq!['/'] + rest, "https://"@),
        !starts(host_name + seq!['/'] + rest, "http://"@),
{
    reveal_strlit("https://");
    reveal_strlit("http://");
    let s = host_name + seq!['/'] + rest;
    let n = host_name.len() as int;
    assert(s[n] == '/');
    assert forall|i: int| 0 <= i < n implies #[trigger] s[i] != ':' && s[i] != '/' by {
        assert(s[i] == host_name[i]);
        assert(host_name.contains(host_name[i]));
    }
    if starts(s, "https://"@) {
        let t = s.subrange(0, 8);
        assert(t[5] == s[5] && t[0] == s[0] && t[1] == s[1] && t[2] == s[2] && t[3] == s[3] && t[4]
            == s[4]);
    }
    if starts(s, "http://"@) {
        let t = s.subrange(0, 7);
        assert(t[4] == s[4] && t[0] == s[0] && t[1] == s[1] && t[2] == s[2] && t[3] == s[3]);
    }
}

// ---------------------------------------------------------------------------
// Scrubbing
// ---------------------------------------------------------------------------

/// A value of four bytes or more is scrubbed, a shorter one is not; below eight bytes
/// only whole occurrences give way.
pub proof fn four_bytes_are_scrubbed(text: Seq<char>, form: Seq<char>, mark: Seq<char>)
    ensures
        byte_len(form) < 4 ==> form_scrubbed(text, form, mark) == text,
        4 <= byte_len(form) < 8 ==> form_scrubbed(text, form, mark) == replaced(text, form, mark),
        byte_len(form) < 4 ==> entry_scrubbed(text, (mark, form)) == text,
{
}

/// A value is scrubbed as it is and as it stands in a file.
pub proof fn both_forms_are_scrubbed(value: Seq<char>)
    ensures
        forms(value).contains(value),
        forms(value).contains(escaped(value)),
        forms(value).len() <= 2,
{
    assert(forms(value)[0] == value);
    if escaped(value) != value {
        assert(forms(value)[1] == escaped(value));
    }
}

/// Eight bytes that a text shares with a value are hidden, and no byte is hidden that
/// is not among eight that it shares.
pub proof fn eight_shared_bytes_are_hidden(t: Seq<u8>, v: Seq<u8>, s: int, j: int, p: int)
    ensures
        0 <= s <= t.len() - 8 && 0 <= j <= v.len() - 8 && t.subrange(s, s + 8) == v.subrange(
            j,
            j + 8,
        ) && s <= p < s + 8 ==> hidden(t, v)[p],
        0 <= p < t.len() && hidden(t, v)[p] ==> exists|a: int, b: int|
            0 <= a <= p < a + 8 <= t.len() && 0 <= b <= v.len() - 8 && #[trigger] t.subrange(
                a,
                a + 8,
            ) == #[trigger] v.subrange(b, b + 8),
{
    if 0 <= s <= t.len() - 8 && 0 <= j <= v.len() - 8 && t.subrange(s, s + 8) == v.subrange(
        j,
        j + 8,
    ) && s <= p < s + 8 {
        assert(covers(t, v, s, j, p));
    }
    if 0 <= p < t.len() && hidden(t, v)[p] {
        let (a, b) = choose|a: int, b: int| #[trigger] covers(t, v, a, b, p);
        assert(t.subrange(a, a + 8) == v.subrange(b, b + 8));
    }
}

/// A stretch that is hidden gives way to one marker, and what stands around it stays.
pub proof fn a_hidden_stretch_gives_way_to_a_marker(
    a: Seq<u8>,
    x: Seq<u8>,
    b: Seq<u8>,
    h: Seq<bool>,
    mark: Seq<u8>,
)
    requires
        x.len() > 0,
        h.len() == (a + x + b).len(),
        forall|i: int| 0 <= i < a.len() ==> !(#[trigger] h[i]),
        forall|i: int| a.len() <= i < (a + x).len() ==> #[trigger] h[i],
        forall|i: int| (a + x).len() <= i < h.len() ==> !(#[trigger] h[i]),
    ensures
        rebuilt(a + x + b, h, mark, (a + x + b).len() as int) == a + mark + b,
{
    let t = a + x + b;
    lemma_rebuilt_kept(t, h, mark, 0, a.len() as int);
    assert(t.subrange(0, a.len() as int) =~= a);
    assert(Seq::<u8>::empty() + a =~= a);
    let p = a.len() as int;
    let q = (a + x).len() as int;
    lemma_rebuilt_hidden(t, h, mark, p, q);
    lemma_rebuilt_kept(t, h, mark, q, t.len() as int);
    assert(t.subrange(q, t.len() as int) =~= b);
}

proof fn lemma_rebuilt_kept(t: Seq<u8>, h: Seq<bool>, mark: Seq<u8>, p: int, q: int)
    requires
        0 <= p <= q <= t.len(),
        h.len() == t.len(),
        forall|i: int| p <= i < q ==> !(#[trigger] h[i]),
    ensures
        rebuilt(t, h, mark, q) == rebuilt(t, h, mark, p) + t.subrange(p, q),
    decreases q - p,
{
    if p < q {
        assert(!h[q - 1]);
        lemma_rebuilt_kept(t, h, mark, p, q - 1);
        assert(t.subrange(p, q) =~= t.subrange(p, q - 1).push(t[q - 1]));
        assert((rebuilt(t, h, mark, p) + t.subrange(p, q - 1)).push(t[q - 1]) =~= rebuilt(
            t,
            h,
            mark,
            p,
        ) + t.subrange(p, q));
    } else {
        assert(t.subrange(p, q) =~= Seq::<u8>::empty());
        assert(rebuilt(t, h, mark, p) + Seq::<u8>::empty() =~= rebuilt(t, h, mark, p));
    }
}

proof fn lemma_rebuilt_hidden(t: Seq<u8>, h: Seq<bool>, mark: Seq<u8>, p: int, q: int)
    requires
        0 <= p < q <= t.len(),
        h.len() == t.len(),
        forall|i: int| p <= i < q ==> #[trigger] h[i],
        p == 0 || !h[p - 1],
    ensures
        rebuilt(t, h, mark, q) == rebuilt(t, h, mark, p) + mark,
    decreases q - p,
{
    assert(h[q - 1]);
    if q - 1 > p {
        assert(h[q - 2]);
        lemma_rebuilt_hidden(t, h, mark, p, q - 1);
    }
}

} // verus!
