//! What watching a file comes to over several looks at it, and what the calls of a
//! manager do to its watches.
use crate::lexis::{numbers_read_back, texts_hold_their_parts};
use crate::text::{byte_len, decimal, ends, joined, lemma_encode_concat, occurs, starts};
use crate::transcript::Look;
use crate::watches::{
    Manager, Next, Phase, Tail, Watch, WatchCall, WatchEvent, WatchRecord, any_named, called,
    capping_is_unique, drops, found, has_id, id_number, id_of, ids, ids_ok, is_wake, known_watches,
    lemma_restore_ids, lemma_restored_known, named, new_watch, no_match_message, polled, refusal,
    resolved, restored,
};
use vstd::prelude::*;
use vstd::utf8::encode_utf8;

verus! {

// ---------------------------------------------------------------------------
// Looking at a file
// ---------------------------------------------------------------------------

/// Where the next read of a file begins that has `size` bytes now: where the last
/// one ended, or at the beginning where the file has become shorter.
pub open spec fn resume(offset: u64, size: u64) -> u64 {
    if size < offset {
        0
    } else {
        offset
    }
}

/// A look at which the file has any size but the one up to which it was read, be it
/// one byte more, begins to settle at that size.
pub proof fn any_change_begins_to_settle(offset: u64, size: u64)
    requires
        size != offset,
        size > 0,
    ensures
        polled(offset, Some(size)).0.phase == (Phase::Settling { size }),
        polled(offset, Some(size)).0.offset == resume(offset, size),
        polled(offset, Some(size)).1 == (Next::Look { after_ms: 700 }),
{
}

/// A file that changed and then stays as it is is read at the second look, from
/// where the last read ended up to its end, or from its beginning where it has
/// become shorter.
pub proof fn a_quiet_change_is_read_at_the_second_look(offset: u64, size: u64, elapsed_ms: u64)
    requires
        size != offset,
        size > 0,
    ensures
        ({
            let first = polled(offset, Some(size));
            let second = crate::watches::settled(first.0.offset, first.0.phase->Settling_size, Some(size), elapsed_ms);
            &&& first.1 is Look
            &&& second.1 == (Next::Read { from: resume(offset, size), to: size })
            &&& second.0 == (Tail {
                offset: resume(offset, size),
                phase: Phase::Reading { size },
            })
        }),
{
}

/// As long as nothing changes, and while the file is missing, the position stays. A
/// file that was emptied is read from its beginning as soon as it grows.
pub proof fn without_a_change_nothing_is_read(offset: u64)
    ensures
        polled(offset, Some(offset)) == (
            Tail { offset, phase: Phase::Watching },
            Next::Look { after_ms: 300 },
        ),
        polled(offset, None) == (
            Tail { offset, phase: Phase::Watching },
            Next::Look { after_ms: 300 },
        ),
        polled(offset, Some(0)) == (
            Tail { offset: 0, phase: Phase::Watching },
            Next::Look { after_ms: 300 },
        ),
{
}

/// While a file goes on changing, reading waits; but not for longer than five
/// seconds, and then it goes at least as far as the file reached.
pub proof fn a_busy_file_waits_for_five_seconds(offset: u64, size: u64, now: u64, elapsed_ms: u64)
    requires
        offset <= size,
        now != size,
    ensures
        elapsed_ms < 5_000 ==> crate::watches::settled(offset, size, Some(now), elapsed_ms) == (
            Tail { offset, phase: Phase::Settling { size: now } },
            Next::Look { after_ms: 700 },
        ),
        elapsed_ms >= 5_000 ==> crate::watches::settled(offset, size, Some(now), elapsed_ms) == (
            Tail {
                offset,
                phase: Phase::Reading {
                    size: if now > size {
                        now
                    } else {
                        size
                    },
                },
            },
            Next::Read {
                from: offset,
                to: if now > size {
                    now
                } else {
                    size
                },
            },
        ),
{
}

/// A file that vanishes while it settles counts as quiet.
pub proof fn a_vanished_file_counts_as_quiet(offset: u64, size: u64, elapsed_ms: u64)
    ensures
        crate::watches::settled(offset, size, None, elapsed_ms) == crate::watches::settled(offset, size, Some(size), elapsed_ms),
        offset <= size ==> crate::watches::settled(offset, size, None, elapsed_ms).1 == (Next::Read {
            from: offset,
            to: size,
        }),
        size < offset ==> crate::watches::settled(offset, size, None, elapsed_ms).0 == (Tail {
            offset: 0,
            phase: Phase::Watching,
        }),
{
}

/// What is delivered is the end of what was appended: all of it where it takes no
/// more than the limit, else so much that less than four bytes more would fit.
pub proof fn the_end_is_delivered(s: Seq<char>, max: nat, k: int)
    requires
        drops(s, max, k),
    ensures
        byte_len(s) <= max ==> k == 0,
        byte_len(s) > max ==> k > 0,
        byte_len(s.take(k)) + byte_len(s.skip(k)) == byte_len(s),
        k > 0 ==> byte_len(s.skip(k)) + 4 > max,
{
    lemma_encode_concat(s.take(k), s.skip(k));
    assert(s.take(k) + s.skip(k) =~= s);
    assert(s.skip(0) =~= s);
    if byte_len(s) <= max {
        capping_is_unique(s, max, 0, k);
    }
    if k > 0 {
        let one = seq![s[k - 1]];
        assert(s.skip(k - 1) =~= one + s.skip(k));
        lemma_encode_concat(one, s.skip(k));
        lemma_one_char(s[k - 1]);
    }
}

proof fn lemma_one_char(c: char)
    ensures
        byte_len(seq![c]) <= 4,
{
    assert(seq![c].drop_first() =~= Seq::<char>::empty());
    reveal_with_fuel(encode_utf8, 2);
}

/// A wake-up is about its watch, gives the end of what was appended, at most eight
/// kibibytes of it, and says how many bytes it leaves out.
pub proof fn wake_ups_tell_the_end(
    record: WatchRecord,
    delta: Seq<char>,
    offset: u64,
    event: WatchEvent,
)
    requires
        is_wake(record, delta, offset, event),
    ensures
        event.id@ == record.id@ && event.label@ == record.label@ && event.path@ == record.path@,
        event.new_offset == offset,
        ends(delta, event.appended@),
        byte_len(event.appended@) <= 8192,
        event.skipped + byte_len(event.appended@) == byte_len(delta),
        byte_len(delta) <= 8192 ==> event.appended@ == delta && event.skipped == 0,
{
    let k = choose|k: int|
        #[trigger] drops(delta, 8192, k) && event.appended@ == delta.skip(k) && event.skipped
            == byte_len(delta.take(k));
    the_end_is_delivered(delta, 8192, k);
    assert(delta.subrange(k, delta.len() as int) =~= delta.skip(k));
    if k == 0 {
        assert(delta.skip(0) =~= delta);
        assert(delta.take(0) =~= Seq::<char>::empty());
    }
}

// ---------------------------------------------------------------------------
// Adding and removing
// ---------------------------------------------------------------------------

/// A path from the root is taken as it is, any other below the workspace.
pub proof fn relative_paths_are_below_the_workspace(workspace: Seq<char>, path: Seq<char>)
    ensures
        path.len() > 0 && path[0] == '/' ==> resolved(workspace, path) == path,
        (path.len() == 0 || path[0] != '/') && workspace.len() > 0 && workspace.last() != '/'
            ==> resolved(workspace, path) == workspace + "/"@ + path,
{
    reveal_strlit("/");
}

/// A watch is refused for three reasons only: there are eight already, its filter is
/// no pattern, or its file is watched. It is the file that counts, however its path
/// is written.
pub proof fn three_reasons_to_refuse(m: Manager, path: Seq<char>, objection: Option<Seq<char>>)
    ensures
        refusal(m, path, objection) is None <==> m.records.len() < 8 && objection is None && (
        forall|i: int|
            0 <= i < m.records.len() ==> (#[trigger] m.records[i]).path != resolved(
                m.workspace,
                path,
            )),
        m.records.len() >= 8 ==> starts(
            refusal(m, path, objection)->0,
            "8 watches are already active"@,
        ),
        m.records.len() < 8 && objection is Some ==> ends(
            refusal(m, path, objection)->0,
            objection->0,
        ),
        m.records.len() < 8 && objection is None && refusal(m, path, objection) is Some ==> occurs(
            refusal(m, path, objection)->0,
            "`"@ + path + "`"@,
        ),
{
    let r = refusal(m, path, objection);
    if m.records.len() >= 8 {
        reveal_strlit("8 watches are already active");
        reveal_strlit(
            "8 watches are already active — remove one (action:\"remove\") before adding more.",
        );
        assert(r->0.subrange(0, 28) =~= "8 watches are already active"@);
    } else if objection is Some {
        texts_hold_their_parts("filter is not a valid regex: "@, objection->0, Seq::empty());
    } else if r is Some {
        reveal_strlit("`");
        reveal_strlit("` is already being watched — remove it first to change the filter.");
        let tail = "` is already being watched — remove it first to change the filter."@;
        let p = "`"@ + path + "`"@;
        texts_hold_their_parts(Seq::empty(), p, tail.skip(1));
        assert("`"@ + path + tail =~= Seq::<char>::empty() + p + tail.skip(1));
    }
}

/// A new watch stands behind those that were there, on the file that its path
/// names, from the present end of the file on, under the next number.
pub proof fn a_new_watch_begins_at_the_end(
    m: Manager,
    path: Seq<char>,
    label: Seq<char>,
    filter: Option<Seq<char>>,
    size: u64,
    now: Seq<char>,
)
    requires
        refusal(m, path, None) is None,
    ensures
        ({
            let call = WatchCall::Add { path, label, filter, objection: None, size, now };
            let after = called(m, call);
            let w = after.records.last();
            &&& after.records.drop_last() == m.records
            &&& after.tailed == m.tailed.push(w.id)
            &&& after.workspace == m.workspace
            &&& after.counter == m.counter + 1
            &&& w.id == "watch-"@ + decimal(m.counter + 1)
            &&& w.label == label
            &&& w.path == resolved(m.workspace, path)
            &&& w.filter == filter
            &&& w.offset == size
            &&& w.created_at == now
        }),
{
    let w = new_watch(m, path, label, filter, size, now);
    assert(m.records.push(w).drop_last() =~= m.records);
}

/// The file of a watch that is there is not watched a second time.
pub proof fn a_file_is_watched_once(m: Manager, i: int, path: Seq<char>)
    requires
        0 <= i < m.records.len(),
        resolved(m.workspace, path) == m.records[i].path,
    ensures
        refusal(m, path, None) is Some,
{
    assert(m.records[i].path == resolved(m.workspace, path));
}

/// A watch is found by its identifier, its label or its file. The first that is
/// named ends, and all others stay in their order.
pub proof fn removing_takes_one_watch(m: Manager, key: Seq<char>, i: int)
    requires
        0 <= i < m.records.len(),
        forall|j: int|
            0 <= j < i ==> (#[trigger] m.records[j]).id != key && m.records[j].label != key
                && m.records[j].path != key && m.records[j].path != resolved(m.workspace, key),
    ensures
        key == m.records[i].id || key == m.records[i].label || resolved(m.workspace, key)
            == m.records[i].path || key == m.records[i].path ==> {
            let after = called(m, WatchCall::Remove(key));
            &&& found(m, key, i)
            &&& any_named(m, key)
            &&& after.records == m.records.take(i) + m.records.skip(i + 1)
            &&& after.counter == m.counter
            &&& after.workspace == m.workspace
        },
{
    let w = m.records[i];
    if key == w.id || key == w.label || resolved(m.workspace, key) == w.path || key == w.path {
        assert(named(w, m.workspace, key));
        assert(found(m, key, i));
        let k = choose|k: int| found(m, key, k);
        assert(found(m, key, k));
        if k < i {
            assert(named(m.records[k], m.workspace, key));
        } else if i < k {
            assert(!named(m.records[i], m.workspace, key));
        }
        assert(m.records.remove(i) =~= m.records.take(i) + m.records.skip(i + 1));
    }
}

/// What names no watch removes none.
pub proof fn what_names_no_watch_removes_none(m: Manager, key: Seq<char>)
    requires
        forall|j: int|
            0 <= j < m.records.len() ==> (#[trigger] m.records[j]).id != key && m.records[j].label
                != key && m.records[j].path != key && m.records[j].path != resolved(
                m.workspace,
                key,
            ),
    ensures
        !any_named(m, key),
        called(m, WatchCall::Remove(key)) == m,
        occurs(no_match_message(m, key), "`"@ + key + "`"@),
{
    reveal_strlit("no watch matches `");
    reveal_strlit("`");
    reveal_strlit("`. Active: [");
    let lead = "no watch matches `"@;
    let rest = "`. Active: ["@;
    let list = joined(known_watches(m.records), ", "@);
    texts_hold_their_parts(lead.take(17), "`"@ + key + "`"@, rest.skip(1) + list + "]."@);
    assert(no_match_message(m, key) =~= lead.take(17) + ("`"@ + key + "`"@) + (rest.skip(1) + list
        + "]."@));
}

/// Advancing moves the position of the watch with that identifier and touches
/// nothing else.
pub proof fn advancing_moves_one_position(m: Manager, i: int, offset: u64)
    requires
        0 <= i < m.records.len(),
        forall|a: int, b: int|
            0 <= a < b < m.records.len() ==> (#[trigger] m.records[a]).id != (
            #[trigger] m.records[b]).id,
    ensures
        ({
            let after = called(m, WatchCall::Advance(m.records[i].id, offset));
            &&& after.records.len() == m.records.len()
            &&& after.records[i] == (Watch { offset, ..m.records[i] })
            &&& forall|j: int|
                0 <= j < m.records.len() && j != i ==> #[trigger] after.records[j] == m.records[j]
            &&& after.tailed == m.tailed
            &&& after.counter == m.counter
            &&& after.workspace == m.workspace
        }),
{
    let id = m.records[i].id;
    assert(has_id(m.records, id));
    let k = choose|k: int| 0 <= k < m.records.len() && (#[trigger] m.records[k]).id == id;
    assert(k == i) by {
        if k < i {
            assert(m.records[k].id != m.records[i].id);
        } else if i < k {
            assert(m.records[i].id != m.records[k].id);
        }
    }
}

/// An unknown identifier advances nothing.
pub proof fn an_unknown_identifier_advances_nothing(m: Manager, id: Seq<char>, offset: u64)
    requires
        forall|i: int| 0 <= i < m.records.len() ==> (#[trigger] m.records[i]).id != id,
    ensures
        called(m, WatchCall::Advance(id, offset)) == m,
{
}

/// Ending the tails keeps the watches.
pub proof fn ending_the_tails_keeps_the_watches(m: Manager)
    ensures
        called(m, WatchCall::AbortAll).records == m.records,
        called(m, WatchCall::AbortAll).counter == m.counter,
        called(m, WatchCall::AbortAll).tailed.len() == 0,
{
}

// ---------------------------------------------------------------------------
// Restoring
// ---------------------------------------------------------------------------

/// Restored watches stand behind those that were there, as they were kept: with
/// their identifiers, filters and positions, and in their order.
pub proof fn restoring_takes_over_every_watch(m: Manager, list: Seq<Watch>)
    requires
        forall|i: int, j: int|
            0 <= i < m.records.len() && 0 <= j < list.len() ==> (#[trigger] m.records[i]).id != (
            #[trigger] list[j]).id,
        forall|i: int, j: int|
            0 <= i < j < list.len() ==> (#[trigger] list[i]).id != (#[trigger] list[j]).id,
    ensures
        called(m, WatchCall::Restore(list)).records == m.records + list,
        called(m, WatchCall::Restore(list)).tailed == m.tailed + ids(list),
        called(m, WatchCall::Restore(list)).workspace == m.workspace,
    decreases list.len(),
{
    if list.len() == 0 {
        assert(m.records + list =~= m.records);
        assert(m.tailed + ids(list) =~= m.tailed);
    } else {
        let rest = list.drop_last();
        let w = list.last();
        assert forall|i: int, j: int|
            0 <= i < m.records.len() && 0 <= j < rest.len() implies (#[trigger] m.records[i]).id
            != (#[trigger] rest[j]).id by {
            assert(rest[j] == list[j]);
        }
        restoring_takes_over_every_watch(m, rest);
        let before = restored(m, rest);
        if has_id(before.records, w.id) {
            let k = choose|k: int|
                0 <= k < before.records.len() && (#[trigger] before.records[k]).id == w.id;
            if k < m.records.len() {
                assert(before.records[k] == m.records[k]);
                assert(m.records[k].id != list[list.len() - 1].id);
            } else {
                assert(before.records[k] == rest[k - m.records.len()]);
                assert(list[k - m.records.len()].id != list[list.len() - 1].id);
            }
        }
        assert((m.records + rest).push(w) =~= m.records + list);
        assert((m.tailed + ids(rest)).push(w.id) =~= m.tailed + ids(list));
    }
}

/// What is restored never takes the place of a watch that is there, and nothing
/// that is there is lost.
pub proof fn restoring_keeps_what_is_there(m: Manager, list: Seq<Watch>)
    ensures
        m.records.len() <= restored(m, list).records.len(),
        restored(m, list).records.take(m.records.len() as int) == m.records,
        forall|i: int|
            0 <= i < list.len() ==> has_id(restored(m, list).records, (#[trigger] list[i]).id),
    decreases list.len(),
{
    lemma_restored_known(m, list);
    if list.len() > 0 {
        restoring_keeps_what_is_there(m, list.drop_last());
        let before = restored(m, list.drop_last()).records;
        assert(before.push(list.last()).take(m.records.len() as int) =~= before.take(
            m.records.len() as int,
        ));
    } else {
        assert(m.records.take(m.records.len() as int) =~= m.records);
    }
}

/// The next number is above that of every watch that was restored.
pub proof fn numbers_go_on_behind_restored_ones(m: Manager, list: Seq<Watch>, n: nat)
    requires
        n <= usize::MAX,
        ids_ok(m.records, m.counter),
        exists|i: int| 0 <= i < list.len() && (#[trigger] list[i]).id == "watch-"@ + decimal(n),
    ensures
        called(m, WatchCall::Restore(list)).counter >= n,
{
    let i = choose|i: int| 0 <= i < list.len() && (#[trigger] list[i]).id == "watch-"@ + decimal(n);
    lemma_restored_known(m, list);
    lemma_restore_ids(m, list);
    let after = restored(m, list);
    assert(has_id(after.records, list[i].id));
    let k = choose|k: int| 0 <= k < after.records.len() && (#[trigger] after.records[k]).id
        == list[i].id;
    identifiers_hold_their_number(n);
    assert(id_number(after.records[k].id) == Some(n));
}

/// An identifier tells its number.
pub proof fn identifiers_hold_their_number(n: nat)
    ensures
        n <= usize::MAX ==> id_number("watch-"@ + decimal(n)) == Some(n),
        id_of(n) == "watch-"@ + decimal(n),
{
    let id = "watch-"@ + decimal(n);
    texts_hold_their_parts(id, "watch-"@, decimal(n));
    assert(id.skip("watch-"@.len() as int) =~= decimal(n));
    numbers_read_back(n, usize::MAX as nat);
}

} // verus!
