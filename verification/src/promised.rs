//! What a caller gets of the executable functions themselves.
use crate::app::{App, World};
use crate::effects::{Deed, Effect, Message, Receipt, deeds};
use crate::json::{Json, text_or_empty};
use crate::keys::{Key, KeyCode};
use crate::keystrokes::{approval_keys_answer_the_call, asked_to_approve};
use crate::lexis::{digits_stand_in_order, separators_part_a_text, texts_hold_their_parts};
use crate::outcomes::{amount, both_streams_are_counted, full_count};
use crate::pages::{code_shown, fence, fenced_lines_are_code, texts_are_shown_by_their_lines};
use crate::prose::prose_from;
use crate::releases::{dotted, versions_are_three_numbers};
use crate::results::exit_label;
use crate::style::{Line, Piece, Span, colored, piece, pieces_of, raw, room, rows};
use crate::tailing::{
    a_new_watch_begins_at_the_end, removing_takes_one_watch, three_reasons_to_refuse,
    wake_ups_tell_the_end,
};
use crate::talk::lemma_grouped;
use crate::text::{before, byte_len, ends, occurs, opt_str, pieces, starts, texts, trimmed};
use crate::theme::code;
use crate::transcript::Look;
use crate::update::{executable, extracted};
use crate::vault::{Vault, name_ok, pair_texts, read_lossily, references, used_entries};
use crate::watches::{
    Next, Phase, Tail, WatchEvent, WatchManager, WatchRecord, found, named, objection_to, resolved,
};
use crate::wrap::{code_wrapped, code_wrapping_keeps_the_text};
use vstd::prelude::*;

verus! {

// ---------------------------------------------------------------------------
// Secrets
// ---------------------------------------------------------------------------

/// A secret is taken where its name is one of a variable and its value has at least
/// four bytes, white space around it aside. It is then there under its name, and
/// every other secret is as it was. What is refused changes nothing.
pub proof fn a_secret_that_was_set_is_there(
    vault: &mut Vault,
    name: &str,
    value: &str,
    r: Result<(), String>,
    other: Seq<char>,
)
    requires
        call_ensures(Vault::set, (vault, name, value), r),
    ensures
        r is Ok <==> name_ok(name@) && byte_len(trimmed(value@)) >= 4,
        r is Ok ==> final(vault)@.contains_pair(name@, trimmed(value@)),
        r is Ok && other != name@ ==> (final(vault)@.dom().contains(other) <==> old(vault)@.dom().contains(other)) && (old(vault)@.dom().contains(other) ==> final(vault)@[other]
            == old(vault)@[other]),
        r is Err ==> final(vault)@ == old(vault)@,
        r matches Err(m) && !name_ok(name@) ==> occurs(r->Err_0@, name@),
{
    if !name_ok(name@) {
        texts_hold_their_parts(
            "invalid name `"@,
            name@,
            "` — use an env-var style name (A-Z, 0-9, _; e.g. STRIPE_KEY)"@,
        );
    }
}

/// A secret that was removed is gone, and every other is as it was. Whether it was
/// there is told.
pub proof fn a_secret_that_was_removed_is_gone(
    vault: &mut Vault,
    name: &str,
    r: Result<bool, String>,
    other: Seq<char>,
)
    requires
        call_ensures(Vault::remove, (vault, name), r),
    ensures
        r == Ok::<bool, String>(old(vault)@.dom().contains(name@)),
        !final(vault)@.dom().contains(name@),
        other != name@ ==> (final(vault)@.dom().contains(other) <==> old(vault)@.dom().contains(
            other,
        )) && (old(vault)@.dom().contains(other) ==> final(vault)@[other] == old(vault)@[other]),
{
}

/// What is written to the file of a vault is read back from it.
pub proof fn a_vault_is_read_back(vault: &Vault, text: String, contents: &str, again: Vault)
    requires
        call_ensures(Vault::file_text, (vault,), text),
        contents@ == text@,
        call_ensures(Vault::load, (Some(contents),), again),
    ensures
        again@ == vault@,
{
}

/// A vault whose file is missing is empty.
pub proof fn a_missing_vault_is_empty(vault: Vault, name: Seq<char>)
    requires
        call_ensures(Vault::load, (None::<&str>,), vault),
    ensures
        !vault@.dom().contains(name),
{
}

/// A command gets the secrets that it names, with their values, and no others; and
/// those are the ones that it is said to use.
pub proof fn a_command_gets_what_it_names(
    vault: &Vault,
    command: &str,
    env: Vec<(String, String)>,
    names: Vec<String>,
    entry: (Seq<char>, Seq<char>),
)
    requires
        call_ensures(Vault::env_for_command, (vault, command), env),
        call_ensures(Vault::referenced_names, (vault, command), names),
    ensures
        pair_texts(env@).contains(entry) <==> vault.entries().contains(entry) && references(
            command@,
            entry.0,
        ),
        texts(names@) == pair_texts(env@).map_values(|e: (Seq<char>, Seq<char>)| e.0),
{
    used_entries(vault.entries(), command@, entry);
}

/// The names of a vault are those of its secrets, each once and in dictionary order.
pub proof fn names_are_told_in_order(vault: &Vault, names: Vec<String>, name: Seq<char>, i: int, j: int)
    requires
        call_ensures(Vault::names, (vault,), names),
    ensures
        texts(names@).contains(name) <==> vault@.dom().contains(name),
        0 <= i < j < names@.len() ==> before(names@[i]@, names@[j]@),
{
}

/// A vault is empty where it holds no secret.
pub proof fn an_empty_vault_holds_nothing(vault: &Vault, empty: bool, name: Seq<char>)
    requires
        call_ensures(Vault::is_empty, (vault,), empty),
    ensures
        empty ==> !vault@.dom().contains(name),
        vault@.dom().contains(name) ==> !empty,
{
}

// ---------------------------------------------------------------------------
// Watches
// ---------------------------------------------------------------------------

/// A look at a file that has another size than what was read of it begins to settle,
/// and the next look at which it still has that size asks for all that is new.
pub proof fn two_looks_find_what_is_new(
    tail: &Tail,
    size: u64,
    first: (Tail, Next),
    settling: &Tail,
    elapsed_ms: u64,
    second: (Tail, Next),
)
    requires
        tail.phase == Phase::Watching,
        size != tail.offset,
        size > 0,
        call_ensures(crate::watches::look, (tail, Some(size), 0), first),
        *settling == first.0,
        call_ensures(crate::watches::look, (settling, Some(size), elapsed_ms), second),
    ensures
        first.0.phase == (Phase::Settling { size }),
        first.1 is Look,
        second.1 == (Next::Read {
            from: if size < tail.offset {
                0
            } else {
                tail.offset
            },
            to: size,
        }),
{
}

/// A look that finds nothing new leaves everything as it is.
pub proof fn a_look_without_news_changes_nothing(tail: &Tail, elapsed_ms: u64, next: (Tail, Next))
    requires
        tail.phase == Phase::Watching,
        call_ensures(crate::watches::look, (tail, Some(tail.offset), elapsed_ms), next)
            || call_ensures(crate::watches::look, (tail, None, elapsed_ms), next),
    ensures
        next.0 == *tail,
        next.1 is Look,
{
}

/// What was read is not read again: the watch goes on behind it, also where its
/// filter passed it over. What could not be read is tried again.
pub proof fn what_was_read_is_behind(
    record: &WatchRecord,
    tail: &Tail,
    size: u64,
    bytes: Option<Vec<u8>>,
    r: (Tail, Next, Option<WatchEvent>),
)
    requires
        call_ensures(crate::watches::read, (record, tail, size, bytes), r),
    ensures
        r.0.phase == Phase::Watching,
        r.1 is Look,
        bytes is Some ==> r.0.offset == size,
        bytes is None ==> r.0.offset == tail.offset && r.2 is None,
        bytes is Some && record.filter is None ==> r.2 is Some,
        r.2 matches Some(event) ==> event.new_offset == size && event.id@ == record.id@
            && event.path@ == record.path@ && byte_len(event.appended@) <= 8192,
{
    if let Some(event) = r.2 {
        wake_ups_tell_the_end(*record, read_lossily(bytes->0@), size, event);
    }
}

/// A wake-up is held back only by a filter that does not match.
pub proof fn only_a_filter_holds_a_wake_up_back(
    record: &WatchRecord,
    delta: &str,
    verdict: Option<bool>,
    offset: u64,
    r: Option<WatchEvent>,
)
    requires
        call_ensures(crate::watches::wake, (record, delta, verdict, offset), r),
    ensures
        r is None <==> verdict == Some(false),
        r matches Some(event) ==> ends(delta@, event.appended@) && event.skipped + byte_len(
            event.appended@,
        ) == byte_len(delta@),
{
    if let Some(event) = r {
        wake_ups_tell_the_end(*record, delta@, offset, event);
    }
}

/// A watch that was added is there, from the present end of its file on.
pub proof fn a_watch_that_was_added_is_there(
    manager: &mut WatchManager,
    path: &str,
    label: &str,
    size: u64,
    now: &str,
    r: Option<Result<WatchRecord, String>>,
)
    requires
        call_ensures(
            WatchManager::try_add,
            (manager, path, label, None::<&str>, size, now),
            r,
        ),
        old(manager)@.records.len() < 8,
        old(manager)@.counter < usize::MAX,
        forall|i: int|
            0 <= i < old(manager)@.records.len() ==> (#[trigger] old(manager)@.records[i]).path
                != resolved(old(manager)@.workspace, path@),
    ensures
        r matches Some(Ok(record)) && record.offset == size && record.label@ == label@
            && record.path@ == resolved(old(manager)@.workspace, path@) && final(manager)@.records.last() == record@ && final(manager)@.records.drop_last() == old(manager)@.records,
{
    let m = old(manager)@;
    three_reasons_to_refuse(m, path@, None);
    a_new_watch_begins_at_the_end(m, path@, label@, None, size, now@);
}

/// A watch that is refused changes nothing.
pub proof fn a_refused_watch_changes_nothing(
    manager: &mut WatchManager,
    path: &str,
    label: &str,
    filter: Option<&str>,
    size: u64,
    now: &str,
    r: Option<Result<WatchRecord, String>>,
)
    requires
        call_ensures(WatchManager::try_add, (manager, path, label, filter, size, now), r),
    ensures
        old(manager)@.records.len() >= 8 || (exists|i: int|
            0 <= i < old(manager)@.records.len() && (#[trigger] old(manager)@.records[i]).path
                == resolved(old(manager)@.workspace, path@)) ==> r matches Some(Err(_)),
        !(r matches Some(Ok(_))) ==> final(manager)@ == old(manager)@,
{
    let m = old(manager)@;
    three_reasons_to_refuse(m, path@, objection_to(opt_str(filter)));
}

/// Removing ends one watch that the key names, and tells its label; where there is
/// none, nothing changes.
pub proof fn removing_ends_one_watch(
    manager: &mut WatchManager,
    key: &str,
    r: Result<String, String>,
    i: int,
)
    requires
        call_ensures(WatchManager::remove, (manager, key), r),
        0 <= i < old(manager)@.records.len(),
        forall|j: int|
            0 <= j < i ==> (#[trigger] old(manager)@.records[j]).id != key@ && old(manager)@.records[j].label != key@ && old(manager)@.records[j].path != key@ && old(manager)@.records[j].path != resolved(old(manager)@.workspace, key@),
        key@ == old(manager)@.records[i].id || key@ == old(manager)@.records[i].label,
    ensures
        r matches Ok(label) && label@ == old(manager)@.records[i].label,
        final(manager)@.records == old(manager)@.records.take(i) + old(manager)@.records.skip(
            i + 1,
        ),
{
    let m = old(manager)@;
    removing_takes_one_watch(m, key@, i);
    let k = choose|k: int|
        #[trigger] found(m, key@, k) && (r->Ok_0)@ == m.records[k].label && final(manager)@
            == crate::watches::ended(m, k);
    assert(found(m, key@, i));
    if k < i {
        assert(named(m.records[k], m.workspace, key@));
    } else if i < k {
        assert(!named(m.records[i], m.workspace, key@));
    }
    assert(m.records.remove(i) =~= m.records.take(i) + m.records.skip(i + 1));
}

// ---------------------------------------------------------------------------
// Releases
// ---------------------------------------------------------------------------

/// A download is accepted where it is large enough and begins like an executable.
pub proof fn only_executables_are_accepted(bin: &Vec<u8>, r: Result<(), String>)
    requires
        call_ensures(crate::update::check_binary, (bin,), r),
    ensures
        bin@.len() < 1_000_000 ==> r is Err,
        !executable(bin@) ==> r is Err,
        bin@.len() >= 1_000_000 && executable(bin@) ==> r is Ok,
{
}

/// A release is installed where it is newer than this build and updating is not
/// turned off, and then it is that release.
pub proof fn only_newer_releases_are_wanted(
    disabled: bool,
    latest: Option<String>,
    r: Option<String>,
    major: nat,
    minor: nat,
    patch: nat,
)
    requires
        call_ensures(crate::update::wanted_version, (disabled, latest), r),
    ensures
        disabled ==> r is None,
        latest is None ==> r is None,
        r matches Some(v) ==> latest is Some && v@ == latest->0@,
        major <= u64::MAX && minor <= u64::MAX && patch <= u64::MAX && latest is Some
            && latest->0@ == dotted(major, minor, patch) && !disabled ==> (r is Some <==> major > 0
            || minor > 1 || (minor == 1 && patch > 0)),
{
    if major <= u64::MAX && minor <= u64::MAX && patch <= u64::MAX {
        versions_are_three_numbers(major, minor, patch, Seq::empty());
        versions_are_three_numbers(0, 1, 0, Seq::empty());
        reveal_strlit("0.1.0");
        reveal_strlit("0123456789");
        digits_stand_in_order(0, 0);
        digits_stand_in_order(0, 1);
        assert(dotted(0, 1, 0) =~= "0.1.0"@);
    }
}

/// What is installed is the executable of the archive, and only where it is one.
pub proof fn what_is_installed_is_in_the_archive(gz: &[u8], r: Result<Vec<u8>, String>)
    requires
        call_ensures(crate::update::accepted_binary, (gz,), r),
    ensures
        r matches Ok(b) ==> b@.len() >= 1_000_000 && executable(b@) && extracted(gz@) == Ok::<
            Seq<u8>,
            Seq<char>,
        >(b@),
        extracted(gz@) is Err ==> r is Err,
        extracted(gz@) matches Ok(bin) && bin.len() >= 1_000_000 && executable(bin) ==> r is Ok,
{
}

/// A download is fetched from the release that is wanted, by the name of its asset.
pub proof fn downloads_are_named_by_release(version: &str, asset: &str, r: String)
    requires
        call_ensures(crate::update::download_url, (version, asset), r),
    ensures
        starts(r@, "https://github.com/"@),
        ends(r@, "/releases/download/v"@ + version@ + "/"@ + asset@),
{
    let rest = "/releases/download/v"@ + version@ + "/"@ + asset@;
    let repo = crate::update::REPO@;
    texts_hold_their_parts(Seq::empty(), "https://github.com/"@, repo + rest);
    texts_hold_their_parts("https://github.com/"@ + repo, rest, Seq::empty());
    let lead = "/releases/download/v"@;
    lemma_grouped("https://github.com/"@, repo, rest);
    lemma_grouped("https://github.com/"@ + repo, lead + version@ + "/"@, asset@);
    lemma_grouped("https://github.com/"@ + repo, lead + version@, "/"@);
    lemma_grouped("https://github.com/"@ + repo, lead, version@);
}

// ---------------------------------------------------------------------------
// The screen
// ---------------------------------------------------------------------------

/// While a call waits, however many there are, `y` sends one approval and `n` one
/// denial.
pub proof fn answers_to_a_call_are_sent(app: &mut App, key: Key, w: &World, out: Vec<Effect>)
    requires
        call_ensures(App::handle_key, (app, key, w), out),
        asked_to_approve(old(app)@),
        old(app)@.linked,
    ensures
        key.code == KeyCode::Char('y') ==> deeds(out@) == seq![
            Deed::Send { input: Message::Approve, receipt: Receipt::Ignored },
        ],
        key.code == KeyCode::Char('n') ==> deeds(out@) == seq![
            Deed::Send { input: Message::Deny, receipt: Receipt::Ignored },
        ],
        key.code != KeyCode::Char('a') && key.code != KeyCode::Char('A') ==> !deeds(out@).contains(
            Deed::Send { input: Message::ApproveAll, receipt: Receipt::Ignored },
        ),
        final(app)@.draft == old(app)@.draft,
        !final(app)@.quit || old(app)@.quit,
{
    approval_keys_answer_the_call(old(app)@, key, w@);
}

/// What a command printed is counted on both of its streams.
pub proof fn outcomes_count_both_streams(data: &Json, r: Vec<Span>)
    requires
        call_ensures(crate::results::bash_result_items, (data,), r),
    ensures
        r@.len() == 1,
        ends(
            r@[0]@.text,
            amount(
                full_count(text_or_empty(data@, "stdout"@)) + full_count(
                    text_or_empty(data@, "stderr"@),
                ),
            ),
        ),
{
    let out = text_or_empty(data@, "stdout"@);
    let err = text_or_empty(data@, "stderr"@);
    both_streams_are_counted(data@, out, err);
    assert(pieces_of(r@).len() == r@.len());
    assert(pieces_of(r@)[0] == r@[0]@);
    let n = amount(full_count(out) + full_count(err));
    texts_hold_their_parts("ran · "@, n, Seq::empty());
    texts_hold_their_parts("exited "@ + exit_label(data@) + " · "@, n, Seq::empty());
}

/// A fenced block, whatever language it names, is shown as code.
pub proof fn fenced_blocks_are_shown_as_code(
    text: &str,
    width: usize,
    r: Vec<Line>,
    language: Seq<char>,
    body: Seq<char>,
)
    requires
        call_ensures(crate::prose::render_prose, (text, width), r),
        !language.contains('\n'),
        body.len() > 0,
        !body.contains('\n'),
        !fence(body),
        text@ == "```"@ + language + seq!['\n'] + body + seq!['\n'] + "```"@,
    ensures
        rows(r@) == code_wrapped(body, room(width as nat, 2)).map_values(
            |s: Seq<char>| seq![raw("  "@), piece(s, colored(code()))],
        ),
{
    reveal_strlit("```");
    let w = width as nat;
    let open = "```"@ + language;
    let close = "```"@;
    let none = Seq::<char>::empty();
    assert(open =~= none + "```"@ + language);
    assert(close =~= none + "```"@ + none);
    assert(fence(open) && fence(close));
    assert(!open.contains('\n')) by {
        if open.contains('\n') {
            let i = choose|i: int| 0 <= i < open.len() && open[i] == '\n';
            if i >= 3 {
                assert(language[i - 3] == '\n');
            }
        }
    }
    assert(!close.contains('\n'));
    separators_part_a_text(open, body + seq!['\n'] + close, '\n');
    separators_part_a_text(body, close, '\n');
    separators_part_a_text(close, none, '\n');
    assert(text@ =~= open + seq!['\n'] + (body + seq!['\n'] + close));
    let lines = seq![open] + seq![body] + seq![close] + Seq::<Seq<char>>::empty();
    assert(pieces(text@, '\n') =~= lines);
    fenced_lines_are_code(open, seq![body], close, Seq::empty(), w);
    reveal_with_fuel(code_shown, 2);
    assert(seq![body].skip(1) =~= Seq::<Seq<char>>::empty());
    let shown_rows = code_wrapped(body, room(w, 2)).map_values(
        |s: Seq<char>| seq![raw("  "@), piece(s, colored(code()))],
    );
    assert(code_shown(seq![body], w) =~= shown_rows);
    assert(prose_from(Seq::empty(), 0, false, w) =~= Seq::<Seq<Piece>>::empty());
    assert(shown_rows + Seq::<Seq<Piece>>::empty() =~= shown_rows);
    code_wrapping_keeps_the_text(body, room(w, 2));
    texts_are_shown_by_their_lines(text@, w);
}

/// The models of a reply are listed once each as often as they stand there, in
/// dictionary order, and a reply without any is an error.
pub proof fn models_are_sorted(
    provider: &str,
    reply: &Json,
    r: Result<Vec<String>, String>,
    i: int,
    j: int,
)
    requires
        call_ensures(crate::models::models_in_reply, (provider, reply), r),
    ensures
        r is Ok <==> crate::models::listed(provider@, reply@).len() > 0,
        r matches Ok(list) ==> texts(list@).to_multiset() == crate::models::listed(
            provider@,
            reply@,
        ).to_multiset(),
        r matches Ok(list) && 0 <= i < j < list@.len() ==> !before(
            (r->Ok_0)@[j]@,
            (r->Ok_0)@[i]@,
        ),
{
    if r is Ok && 0 <= i < j < (r->Ok_0)@.len() {
        let list = texts((r->Ok_0)@);
        assert(list[i] == (r->Ok_0)@[i]@ && list[j] == (r->Ok_0)@[j]@);
    }
}

} // verus!
