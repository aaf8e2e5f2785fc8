//! File watches: a path is registered, and the text appended to that file wakes
//! the conversation, optionally only where it matches a filter.
//!
//! A watch tails a byte offset. Appends are held until the file goes quiet, then
//! read, filtered, capped and delivered. Sleeping, looking at the file and
//! reading it are left to the caller; what to do next is decided here.
use crate::paths::{join_path, path_joined};
use crate::text::{
    byte_len, cat2, cat3, cat5, char_bytes, chars_of, copy_texts, decimal, decimal_string, join,
    joined, lemma_decimal, lemma_encode_concat, opt_str, opt_text, parse_unsigned, parsed, same,
    starts, starts_with_char, string_of, strip_prefix, texts,
};
use crate::vault::{from_utf8_lossy, read_lossily};
use vstd::prelude::*;
use vstd::utf8::*;

verus! {

/// How many watches may be active at a time.
pub const MAX_WATCHES: usize = 8;

/// How long to wait between two looks at a file.
pub const POLL_MS: u64 = 300;

/// A burst of appends must be quiet for this long before it is delivered.
pub const DEBOUNCE_MS: u64 = 700;

/// A file that is written without pause is delivered after this long.
pub const DEBOUNCE_MAX_MS: u64 = 5_000;

/// How much is delivered at most; the oldest part of more is dropped.
pub const MAX_DELIVER_BYTES: usize = 8 * 1024;

// ---------------------------------------------------------------------------
// Capping
// ---------------------------------------------------------------------------

/// `k` characters must go from the front so that the rest takes no more than
/// `max` bytes, and no fewer will do.
pub open spec fn drops(s: Seq<char>, max: nat, k: int) -> bool {
    &&& 0 <= k <= s.len()
    &&& byte_len(s.skip(k)) <= max
    &&& k > 0 ==> byte_len(s.skip(k - 1)) > max
}

/// Keeps the tail of a text that is too long, in whole characters, and says how
/// many bytes were dropped from the front.
pub fn cap_tail(delta: &str, max: usize) -> (r: (String, u64))
    ensures
        exists|k: int|
            #[trigger] drops(delta@, max as nat, k) && r.0@ == delta@.skip(k) && r.1 == byte_len(
                delta@.take(k),
            ),
{
    let v = chars_of(delta);
    let total: usize = delta.as_bytes().len();
    let mut rest: usize = total;
    let mut k: usize = 0;
    assert(v@.skip(0) =~= delta@);
    assert(v@.take(0) =~= Seq::<char>::empty());
    while rest > max
        invariant
            v@ == delta@,
            k <= v.len(),
            rest == byte_len(v@.skip(k as int)),
            total == byte_len(v@.take(k as int)) + rest,
            k > 0 ==> byte_len(v@.skip(k - 1)) > max,
        decreases v.len() - k,
    {
        proof {
            if k == v.len() {
                assert(v@.skip(k as int) =~= Seq::<char>::empty());
            }
        }
        let w = char_bytes(v[k]);
        proof {
            let one = seq![v@[k as int]];
            lemma_encode_concat(one, v@.skip(k + 1));
            assert(one + v@.skip(k + 1) =~= v@.skip(k as int));
            lemma_encode_concat(v@.take(k as int), one);
            assert(v@.take(k as int) + one =~= v@.take(k + 1));
        }
        rest -= w;
        k += 1;
    }
    assert(drops(delta@, max as nat, k as int));
    (string_of(&v, k, v.len()), (total - rest) as u64)
}

/// There is one way to cap a text.
pub proof fn capping_is_unique(s: Seq<char>, max: nat, j: int, k: int)
    requires
        drops(s, max, j),
        drops(s, max, k),
    ensures
        j == k,
{
    if j < k {
        lemma_skip_shrinks(s, j, k - 1);
    } else if k < j {
        lemma_skip_shrinks(s, k, j - 1);
    }
}

proof fn lemma_skip_shrinks(s: Seq<char>, j: int, k: int)
    requires
        0 <= j <= k <= s.len(),
    ensures
        byte_len(s.skip(k)) <= byte_len(s.skip(j)),
{
    lemma_encode_concat(s.subrange(j, k), s.skip(k));
    assert(s.subrange(j, k) + s.skip(k) =~= s.skip(j));
}

// ---------------------------------------------------------------------------
// Filters
// ---------------------------------------------------------------------------

/// What `regex::Regex::new` objects to in a pattern.
pub uninterp spec fn pattern_error(pattern: Seq<char>) -> Option<Seq<char>>;

/// `regex::Regex::new`: the message of its error, where the pattern does not
/// compile. Whether it does, and what the message says, follow from the pattern.
#[verifier::external_body]
pub(crate) fn compile(pattern: &str) -> (r: Option<String>)
    ensures
        pattern_error(pattern@) == match r {
            Some(message) => Some(message@),
            None => None,
        },
{
    match regex::Regex::new(pattern) {
        Ok(_) => None,
        Err(e) => Some(e.to_string()),
    }
}

/// What `regex::Regex::is_match` says of a text, for a pattern that compiles.
pub uninterp spec fn pattern_matches(pattern: Seq<char>, text: Seq<char>) -> bool;

/// `regex::Regex::is_match`: whether the pattern matches anywhere in the text.
/// `None` where the pattern does not compile.
#[verifier::external_body]
pub(crate) fn is_match(pattern: &str, text: &str) -> (r: Option<bool>)
    ensures
        r is None <==> pattern_error(pattern@) is Some,
        r matches Some(b) ==> b == pattern_matches(pattern@, text@),
{
    regex::Regex::new(pattern).ok().map(|re| re.is_match(text))
}

// ---------------------------------------------------------------------------
// Records
// ---------------------------------------------------------------------------

/// The snapshot of a watch that is kept with the conversation.
pub struct WatchRecord {
    pub id: String,
    /// The subject, as it is shown and spoken of.
    pub label: String,
    pub path: String,
    /// A pattern: only an appended text that matches it wakes the conversation.
    pub filter: Option<String>,
    /// Everything before this byte has been seen.
    pub offset: u64,
    pub created_at: String,
}

/// One wake-up: text appended to a watched file.
pub struct WatchEvent {
    pub id: String,
    pub label: String,
    pub path: String,
    pub appended: String,
    /// How many bytes were dropped from the front.
    pub skipped: u64,
    /// The tail position after this delivery.
    pub new_offset: u64,
}

pub ghost struct Watch {
    pub id: Seq<char>,
    pub label: Seq<char>,
    pub path: Seq<char>,
    pub filter: Option<Seq<char>>,
    pub offset: u64,
    pub created_at: Seq<char>,
}

impl View for WatchRecord {
    type V = Watch;

    open spec fn view(&self) -> Watch {
        Watch {
            id: self.id@,
            label: self.label@,
            path: self.path@,
            filter: opt_text(self.filter),
            offset: self.offset,
            created_at: self.created_at@,
        }
    }
}

impl Clone for WatchRecord {
    fn clone(&self) -> (r: WatchRecord)
        ensures
            r@ == self@,
    {
        WatchRecord {
            id: self.id.clone(),
            label: self.label.clone(),
            path: self.path.clone(),
            filter: match &self.filter {
                Some(f) => Some(f.clone()),
                None => None,
            },
            offset: self.offset,
            created_at: self.created_at.clone(),
        }
    }
}

pub open spec fn watches(list: Seq<WatchRecord>) -> Seq<Watch> {
    list.map_values(|r: WatchRecord| r@)
}

/// The number in an identifier such as `watch-3`.
pub open spec fn id_number(id: Seq<char>) -> Option<nat> {
    if starts(id, "watch-"@) {
        parsed(id.skip("watch-"@.len() as int), usize::MAX as nat)
    } else {
        None
    }
}

pub open spec fn id_of(n: nat) -> Seq<char> {
    "watch-"@ + decimal(n)
}

/// No two watches have one identifier, and the counter is not behind any of
/// them.
pub open spec fn ids_ok(list: Seq<Watch>, counter: nat) -> bool {
    &&& forall|i: int, j: int|
        0 <= i < j < list.len() ==> (#[trigger] list[i]).id != (#[trigger] list[j]).id
    &&& forall|i: int|
        0 <= i < list.len() ==> match id_number((#[trigger] list[i]).id) {
            Some(n) => n <= counter,
            None => true,
        }
}

pub open spec fn has_id(list: Seq<Watch>, id: Seq<char>) -> bool {
    exists|i: int| 0 <= i < list.len() && (#[trigger] list[i]).id == id
}

pub open spec fn has_path(list: Seq<Watch>, path: Seq<char>) -> bool {
    exists|i: int| 0 <= i < list.len() && (#[trigger] list[i]).path == path
}

/// The identifier after the counter is new.
proof fn lemma_next_id(list: Seq<Watch>, counter: nat)
    requires
        ids_ok(list, counter),
        counter < usize::MAX,
    ensures
        !has_id(list, id_of(counter + 1)),
        id_number(id_of(counter + 1)) == Some(counter + 1),
{
    let id = id_of(counter + 1);
    let d = decimal(counter + 1);
    lemma_decimal(counter + 1);
    assert(id.subrange(0, "watch-"@.len() as int) =~= "watch-"@);
    assert(id.skip("watch-"@.len() as int) =~= d);
    if has_id(list, id) {
        let i = choose|i: int| 0 <= i < list.len() && (#[trigger] list[i]).id == id;
        assert(id_number(list[i].id) == Some(counter + 1));
    }
}

// ---------------------------------------------------------------------------
// The manager
// ---------------------------------------------------------------------------

/// The active watches, which of them are being tailed, and the numbering.
pub struct WatchManager {
    records: Vec<WatchRecord>,
    tailed: Vec<String>,
    counter: usize,
    workspace: String,
}

pub ghost struct Manager {
    pub records: Seq<Watch>,
    /// The identifiers of the watches that are being tailed.
    pub tailed: Seq<Seq<char>>,
    pub counter: nat,
    pub workspace: Seq<char>,
}

/// An absolute path as it is, any other below the workspace.
pub open spec fn resolved(workspace: Seq<char>, path: Seq<char>) -> Seq<char> {
    if path.len() > 0 && path[0] == '/' {
        path
    } else {
        path_joined(workspace, path)
    }
}

pub open spec fn too_many_message() -> Seq<char> {
    "8 watches are already active — remove one (action:\"remove\") before adding more."@
}

pub open spec fn bad_filter_message(error: Seq<char>) -> Seq<char> {
    "filter is not a valid regex: "@ + error
}

pub open spec fn already_watched_message(path: Seq<char>) -> Seq<char> {
    "`"@ + path + "` is already being watched — remove it first to change the filter."@
}

/// Why a watch is refused.
pub open spec fn refusal(
    m: Manager,
    path: Seq<char>,
    objection: Option<Seq<char>>,
) -> Option<Seq<char>> {
    if m.records.len() >= MAX_WATCHES {
        Some(too_many_message())
    } else if objection is Some {
        Some(bad_filter_message(objection->0))
    } else if has_path(m.records, resolved(m.workspace, path)) {
        Some(already_watched_message(path))
    } else {
        None
    }
}

/// What is held against a filter, where there is one.
pub open spec fn objection_to(filter: Option<Seq<char>>) -> Option<Seq<char>> {
    match filter {
        Some(f) => pattern_error(f),
        None => None,
    }
}

/// The record of a new watch.
pub open spec fn new_watch(
    m: Manager,
    path: Seq<char>,
    label: Seq<char>,
    filter: Option<Seq<char>>,
    size: u64,
    now: Seq<char>,
) -> Watch {
    Watch {
        id: id_of(m.counter + 1),
        label,
        path: resolved(m.workspace, path),
        filter,
        offset: size,
        created_at: now,
    }
}

pub open spec fn started(m: Manager, w: Watch) -> Manager {
    Manager { records: m.records.push(w), tailed: m.tailed.push(w.id), ..m }
}

/// The counter after a record with the given identifier was taken over.
pub open spec fn counted(counter: nat, id: Seq<char>) -> nat {
    match id_number(id) {
        Some(n) => if n > counter {
            n
        } else {
            counter
        },
        None => counter,
    }
}

/// The state after taking over persisted watches, one after the other.
pub open spec fn restored(m: Manager, list: Seq<Watch>) -> Manager
    decreases list.len(),
{
    if list.len() == 0 {
        m
    } else {
        let before = restored(m, list.drop_last());
        let w = list.last();
        if has_id(before.records, w.id) {
            before
        } else {
            Manager { counter: counted(before.counter, w.id), ..started(before, w) }
        }
    }
}

/// The watch that a key names, by identifier, label or path.
pub open spec fn named(w: Watch, workspace: Seq<char>, key: Seq<char>) -> bool {
    w.id == key || w.label == key || w.path == key || w.path == resolved(workspace, key)
}

/// The first watch that a key names.
pub open spec fn found(m: Manager, key: Seq<char>, i: int) -> bool {
    &&& 0 <= i < m.records.len()
    &&& named(m.records[i], m.workspace, key)
    &&& forall|j: int| 0 <= j < i ==> !named(#[trigger] m.records[j], m.workspace, key)
}

pub open spec fn any_named(m: Manager, key: Seq<char>) -> bool {
    exists|i: int| 0 <= i < m.records.len() && named(#[trigger] m.records[i], m.workspace, key)
}

pub open spec fn known_watches(list: Seq<Watch>) -> Seq<Seq<char>> {
    list.map_values(|w: Watch| "\""@ + w.label + "\" ("@ + w.id + ")"@)
}

pub open spec fn no_match_message(m: Manager, key: Seq<char>) -> Seq<char> {
    "no watch matches `"@ + key + "`. Active: ["@ + joined(known_watches(m.records), ", "@) + "]."@
}

/// The list without the first occurrence of a text.
pub open spec fn without_first(list: Seq<Seq<char>>, s: Seq<char>) -> Seq<Seq<char>>
    decreases list.len(),
{
    if list.len() == 0 {
        list
    } else if list[0] == s {
        list.skip(1)
    } else {
        seq![list[0]] + without_first(list.skip(1), s)
    }
}

impl WatchManager {
    #[verifier::type_invariant]
    spec fn numbered(self) -> bool {
        ids_ok(watches(self.records@), self.counter as nat)
    }

    pub closed spec fn state(&self) -> Manager {
        Manager {
            records: watches(self.records@),
            tailed: texts(self.tailed@),
            counter: self.counter as nat,
            workspace: self.workspace@,
        }
    }
}

impl View for WatchManager {
    type V = Manager;

    open spec fn view(&self) -> Manager {
        self.state()
    }
}

fn copy_records(list: &Vec<WatchRecord>) -> (r: Vec<WatchRecord>)
    ensures
        watches(r@) == watches(list@),
{
    let mut out: Vec<WatchRecord> = Vec::new();
    for i in 0..list.len()
        invariant
            out@.len() == i,
            forall|k: int| 0 <= k < i ==> (#[trigger] out@[k])@ == list@[k]@,
    {
        out.push(list[i].clone());
    }
    assert(watches(out@) =~= watches(list@));
    out
}

/// The list without the first occurrence of a text.
fn drop_first_text(list: &Vec<String>, s: &str) -> (r: Vec<String>)
    ensures
        texts(r@) == without_first(texts(list@), s@),
{
    let ghost all = texts(list@);
    let mut out: Vec<String> = Vec::new();
    let mut i: usize = 0;
    assert(texts(out@) + without_first(all.skip(0), s@) =~= without_first(all, s@)) by {
        assert(all.skip(0) =~= all);
    }
    while i < list.len() && !same(list[i].as_str(), s)
        invariant
            all == texts(list@),
            i <= list.len(),
            texts(out@) + without_first(all.skip(i as int), s@) == without_first(all, s@),
        decreases list.len() - i,
    {
        let ghost before = texts(out@);
        out.push(list[i].clone());
        proof {
            assert(texts(out@) =~= before.push(all[i as int]));
            assert(all.skip(i as int).skip(1) =~= all.skip(i + 1));
            assert(all.skip(i as int)[0] == all[i as int]);
            assert(before + (seq![all[i as int]] + without_first(all.skip(i + 1), s@)) =~= texts(
                out@,
            ) + without_first(all.skip(i + 1), s@));
        }
        i += 1;
    }
    if i < list.len() {
        let ghost head = texts(out@);
        i += 1;
        for k in i..list.len()
            invariant
                i <= k <= list.len(),
                all == texts(list@),
                texts(out@) == head + all.subrange(i as int, k as int),
        {
            let ghost before = texts(out@);
            out.push(list[k].clone());
            assert(texts(out@) =~= before.push(all[k as int]));
            assert(all.subrange(i as int, k + 1) =~= all.subrange(i as int, k as int).push(
                all[k as int],
            ));
        }
        proof {
            let rest = all.skip(i - 1);
            assert(rest[0] == all[i - 1]);
            assert(all[i - 1] == list@[i - 1]@);
            assert(rest.skip(1) =~= all.subrange(i as int, all.len() as int));
        }
    } else {
        assert(all.skip(i as int) =~= Seq::empty());
        assert(texts(out@) + Seq::empty() =~= texts(out@));
    }
    out
}

impl WatchManager {
    /// No watches yet. Relative paths are below the workspace.
    pub fn new(workspace: String) -> (r: WatchManager)
        ensures
            r@ == (Manager {
                records: Seq::empty(),
                tailed: Seq::empty(),
                counter: 0,
                workspace: workspace@,
            }),
    {
        let records: Vec<WatchRecord> = Vec::new();
        let tailed: Vec<String> = Vec::new();
        assert(watches(records@) =~= Seq::empty());
        assert(texts(tailed@) =~= Seq::empty());
        WatchManager { records, tailed, counter: 0, workspace }
    }

    pub fn records(&self) -> (r: &Vec<WatchRecord>)
        ensures
            watches(r@) == self@.records,
            ids_ok(watches(r@), self@.counter),
    {
        proof {
            use_type_invariant(&*self);
        }
        &self.records
    }

    /// The number of the last watch that was numbered.
    pub fn counter(&self) -> (r: usize)
        ensures
            r == self@.counter,
    {
        self.counter
    }

    pub fn resolve(&self, path: &str) -> (r: String)
        ensures
            r@ == resolved(self@.workspace, path@),
    {
        if starts_with_char(path, '/') {
            path.to_owned()
        } else {
            join_path(self.workspace.as_str(), path)
        }
    }

    fn knows_id(&self, id: &str) -> (r: bool)
        ensures
            r == has_id(self@.records, id@),
    {
        for i in 0..self.records.len()
            invariant
                forall|k: int| 0 <= k < i ==> (#[trigger] self.records@[k])@.id != id@,
        {
            if same(self.records[i].id.as_str(), id) {
                assert(self@.records[i as int].id == id@);
                return true;
            }
        }
        proof {
            assert forall|k: int| 0 <= k < self@.records.len() implies (#[trigger] self@.records[k]).id
                != id@ by {
                assert(self@.records[k] == self.records@[k]@);
            }
        }
        false
    }

    fn knows_path(&self, path: &str) -> (r: bool)
        ensures
            r == has_path(self@.records, path@),
    {
        for i in 0..self.records.len()
            invariant
                forall|k: int| 0 <= k < i ==> (#[trigger] self.records@[k])@.path != path@,
        {
            if same(self.records[i].path.as_str(), path) {
                assert(self@.records[i as int].path == path@);
                return true;
            }
        }
        proof {
            assert forall|k: int|
                0 <= k < self@.records.len() implies (#[trigger] self@.records[k]).path != path@ by {
                assert(self@.records[k] == self.records@[k]@);
            }
        }
        false
    }

    /// Adds a record that is tailed from now on.
    fn start(&mut self, record: WatchRecord, counter: usize)
        requires
            !has_id(old(self)@.records, record@.id),
            old(self)@.counter <= counter,
            id_number(record@.id) matches Some(n) ==> n <= counter,
        ensures
            final(self)@ == (Manager {
                counter: counter as nat,
                ..started(old(self)@, record@)
            }),
    {
        let ghost before = self@;
        let ghost w = record@;
        let mut records = copy_records(&self.records);
        let mut tailed = copy_texts(&self.tailed);
        tailed.push(record.id.clone());
        records.push(record);
        proof {
            use_type_invariant(&*self);
            assert(watches(records@) =~= before.records.push(w));
            assert(texts(tailed@) =~= before.tailed.push(w.id));
            assert(ids_ok(before.records, counter as nat));
            assert(ids_ok(watches(records@), counter as nat)) by {
                let new = watches(records@);
                assert forall|i: int, j: int| 0 <= i < j < new.len() implies (
                #[trigger] new[i]).id != (#[trigger] new[j]).id by {
                    assert(new[i] == before.records[i]);
                    if j < before.records.len() {
                        assert(new[j] == before.records[j]);
                    }
                }
                assert forall|i: int| 0 <= i < new.len() implies match id_number(
                    (#[trigger] new[i]).id,
                ) {
                    Some(n) => n <= counter,
                    None => true,
                } by {
                    if i < before.records.len() {
                        assert(new[i] == before.records[i]);
                    }
                }
            }
        }
        self.counter = counter;
        self.records = records;
        self.tailed = tailed;
    }

    /// Takes over persisted watches, except those whose identifiers are known
    /// already. The counter stays ahead of their numbers.
    pub fn restore(&mut self, list: &Vec<WatchRecord>)
        ensures
            final(self)@ == restored(old(self)@, watches(list@)),
    {
        let ghost first = self@;
        let ghost all = watches(list@);
        assert(restored(first, all.take(0)) == first);
        for i in 0..list.len()
            invariant
                all == watches(list@),
                self@ == restored(first, all.take(i as int)),
        {
            proof {
                assert(all.take(i + 1).drop_last() =~= all.take(i as int));
                assert(all.take(i + 1).last() == list@[i as int]@);
            }
            if !self.knows_id(list[i].id.as_str()) {
                let number = match strip_prefix(list[i].id.as_str(), "watch-") {
                    Some(rest) => parse_unsigned(rest.as_str(), usize::MAX as u64),
                    None => None,
                };
                let counter: usize = match number {
                    Some(n) => if n as usize > self.counter {
                        n as usize
                    } else {
                        self.counter
                    },
                    None => self.counter,
                };
                self.start(list[i].clone(), counter);
            }
        }
        assert(all.take(all.len() as int) =~= all);
    }

    /// Registers a watch, given what was found out of the filter and the file:
    /// the objection to the filter, where there is one, and the present size.
    /// The tail starts at the end of the file: what was there before is not
    /// delivered.
    pub fn add_checked(
        &mut self,
        path: &str,
        label: &str,
        filter: Option<&str>,
        objection: Option<String>,
        size: u64,
        now: &str,
    ) -> (r: Result<WatchRecord, String>)
        requires
            old(self)@.counter < usize::MAX || refusal(
                old(self)@,
                path@,
                opt_text(objection),
            ) is Some,
        ensures
            match refusal(old(self)@, path@, opt_text(objection)) {
                Some(message) => {
                    &&& r matches Err(m) && m@ == message
                    &&& final(self)@ == old(self)@
                },
                None => {
                    let w = new_watch(old(self)@, path@, label@, opt_str(filter), size, now@);
                    &&& r matches Ok(record) && record@ == w
                    &&& final(self)@ == (Manager {
                        counter: old(self)@.counter + 1,
                        ..started(old(self)@, w)
                    })
                },
            },
    {
        if self.records.len() >= MAX_WATCHES {
            return Err(
                "8 watches are already active — remove one (action:\"remove\") before adding more.".to_string(),
            );
        }
        let target = self.resolve(path);
        if let Some(e) = objection {
            return Err(cat2("filter is not a valid regex: ", e.as_str()));
        }
        if self.knows_path(target.as_str()) {
            return Err(
                cat3(
                    "`",
                    path,
                    "` is already being watched — remove it first to change the filter.",
                ),
            );
        }
        let counter: usize = self.counter + 1;
        let number = decimal_string(counter as u64);
        let record = WatchRecord {
            id: cat2("watch-", number.as_str()),
            label: label.to_owned(),
            path: target,
            filter: match filter {
                Some(f) => Some(f.to_owned()),
                None => None,
            },
            offset: size,
            created_at: now.to_owned(),
        };
        proof {
            use_type_invariant(&*self);
            lemma_next_id(self@.records, self@.counter);
        }
        self.start(record.clone(), counter);
        Ok(record)
    }

    /// Registers a watch on a file that has `size` bytes now.
    pub fn add(
        &mut self,
        path: &str,
        label: &str,
        filter: Option<&str>,
        size: u64,
        now: &str,
    ) -> (r: Result<WatchRecord, String>)
        requires
            old(self)@.counter < usize::MAX || refusal(
                old(self)@,
                path@,
                objection_to(opt_str(filter)),
            ) is Some,
        ensures
            match refusal(old(self)@, path@, objection_to(opt_str(filter))) {
                Some(message) => {
                    &&& r matches Err(m) && m@ == message
                    &&& final(self)@ == old(self)@
                },
                None => {
                    let w = new_watch(old(self)@, path@, label@, opt_str(filter), size, now@);
                    &&& r matches Ok(record) && record@ == w
                    &&& final(self)@ == (Manager {
                        counter: old(self)@.counter + 1,
                        ..started(old(self)@, w)
                    })
                },
            },
    {
        let objection = match filter {
            Some(f) => compile(f),
            None => None,
        };
        self.add_checked(path, label, filter, objection, size, now)
    }

    /// Registers a watch, where the numbers for new watches have not run out or the
    /// watch is refused anyway.
    pub fn try_add(
        &mut self,
        path: &str,
        label: &str,
        filter: Option<&str>,
        size: u64,
        now: &str,
    ) -> (r: Option<Result<WatchRecord, String>>)
        ensures
            match refusal(old(self)@, path@, objection_to(opt_str(filter))) {
                Some(message) => {
                    &&& r matches Some(Err(m)) && m@ == message
                    &&& final(self)@ == old(self)@
                },
                None => if old(self)@.counter < usize::MAX {
                    let w = new_watch(old(self)@, path@, label@, opt_str(filter), size, now@);
                    &&& r matches Some(Ok(record)) && record@ == w
                    &&& final(self)@ == (Manager {
                        counter: old(self)@.counter + 1,
                        ..started(old(self)@, w)
                    })
                } else {
                    r is None && final(self)@ == old(self)@
                },
            },
    {
        if self.counter == usize::MAX {
            let objection = match filter {
                Some(f) => compile(f),
                None => None,
            };
            let target = self.resolve(path);
            if self.records.len() < MAX_WATCHES && objection.is_none() && !self.knows_path(
                target.as_str(),
            ) {
                return None;
            }
        }
        Some(self.add(path, label, filter, size, now))
    }

    /// The first watch that a key names, by identifier, label or path.
    pub fn find(&self, key: &str) -> (r: Option<usize>)
        ensures
            r is Some <==> any_named(self@, key@),
            r matches Some(i) ==> found(self@, key@, i as int),
    {
        let target = self.resolve(key);
        for i in 0..self.records.len()
            invariant
                target@ == resolved(self@.workspace, key@),
                forall|k: int|
                    0 <= k < i ==> !named(#[trigger] self@.records[k], self@.workspace, key@),
        {
            let rec = &self.records[i];
            assert(self@.records[i as int] == rec@);
            if same(rec.id.as_str(), key) || same(rec.label.as_str(), key) || same(
                rec.path.as_str(),
                key,
            ) || same(rec.path.as_str(), target.as_str()) {
                assert(named(self@.records[i as int], self@.workspace, key@));
                return Some(i);
            }
        }
        None
    }

    /// Ends the first watch that a key names, and gives its label.
    pub fn remove(&mut self, key: &str) -> (r: Result<String, String>)
        ensures
            r is Ok <==> any_named(old(self)@, key@),
            r matches Err(m) ==> m@ == no_match_message(old(self)@, key@) && final(self)@ == old(
                self,
            )@,
            r matches Ok(label) ==> exists|i: int|
                {
                    &&& #[trigger] found(old(self)@, key@, i)
                    &&& label@ == old(self)@.records[i].label
                    &&& final(self)@ == ended(old(self)@, i)
                },
    {
        let ghost before = self@;
        match self.find(key) {
            Some(i) => {
                let mut records = copy_records(&self.records);
                assert(watches(records@)[i as int] == records@[i as int]@);
                let record = records.remove(i);
                let tailed = drop_first_text(&self.tailed, record.id.as_str());
                proof {
                    use_type_invariant(&*self);
                    assert(watches(records@) =~= before.records.remove(i as int));
                    let new = watches(records@);
                    assert forall|a: int, b: int| 0 <= a < b < new.len() implies (
                    #[trigger] new[a]).id != (#[trigger] new[b]).id by {
                        let x = if a < i {
                            a
                        } else {
                            a + 1
                        };
                        let y = if b < i {
                            b
                        } else {
                            b + 1
                        };
                        assert(new[a] == before.records[x] && new[b] == before.records[y]);
                    }
                    assert forall|a: int| 0 <= a < new.len() implies match id_number(
                        (#[trigger] new[a]).id,
                    ) {
                        Some(n) => n <= before.counter,
                        None => true,
                    } by {
                        let x = if a < i {
                            a
                        } else {
                            a + 1
                        };
                        assert(new[a] == before.records[x]);
                    }
                    assert(found(before, key@, i as int));
                }
                self.records = records;
                self.tailed = tailed;
                Ok(record.label)
            },
            None => {
                let mut known: Vec<String> = Vec::new();
                for k in 0..self.records.len()
                    invariant
                        known@.len() == k,
                        self@ == before,
                        forall|j: int|
                            0 <= j < k ==> (#[trigger] known@[j])@ == known_watches(
                                before.records,
                            )[j],
                {
                    let rec = &self.records[k];
                    assert(before.records[k as int] == rec@);
                    known.push(cat5("\"", rec.label.as_str(), "\" (", rec.id.as_str(), ")"));
                }
                assert(texts(known@) =~= known_watches(before.records));
                let list = join(&known, ", ");
                Err(cat5("no watch matches `", key, "`. Active: [", list.as_str(), "]."))
            },
        }
    }

    /// Notes the tail position that was delivered.
    pub fn advance_offset(&mut self, id: &str, offset: u64)
        ensures
            final(self)@ == advanced(old(self)@, id@, offset),
    {
        let ghost before = self@;
        let mut records = copy_records(&self.records);
        let mut i: usize = 0;
        while i < records.len() && !same(records[i].id.as_str(), id)
            invariant
                i <= records.len(),
                watches(records@) == before.records,
                forall|k: int| 0 <= k < i ==> (#[trigger] before.records[k]).id != id@,
            decreases records.len() - i,
        {
            assert(before.records[i as int] == records@[i as int]@);
            i += 1;
        }
        if i < records.len() {
            assert(before.records[i as int] == records@[i as int]@);
            let old_record = records[i].clone();
            let record = WatchRecord { offset, ..old_record };
            records.set(i, record);
            proof {
                use_type_invariant(&*self);
                let w = Watch { offset, ..before.records[i as int] };
                assert(watches(records@) =~= before.records.update(i as int, w));
                lemma_first_with_id(before.records, id@, i as int);
                assert(ids_ok(watches(records@), before.counter)) by {
                    let new = watches(records@);
                    assert forall|a: int, b: int| 0 <= a < b < new.len() implies (
                    #[trigger] new[a]).id != (#[trigger] new[b]).id by {
                        assert(before.records[a].id != before.records[b].id);
                    }
                    assert forall|a: int| 0 <= a < new.len() implies match id_number(
                        (#[trigger] new[a]).id,
                    ) {
                        Some(n) => n <= before.counter,
                        None => true,
                    } by {
                        assert(new[a].id == before.records[a].id);
                    }
                }
            }
            self.records = records;
        } else {
            proof {
                assert(!has_id(before.records, id@));
            }
        }
    }

    /// Ends every tail. The records stay.
    pub fn abort_all(&mut self) -> (r: Vec<String>)
        ensures
            texts(r@) == old(self)@.tailed,
            final(self)@ == (Manager { tailed: Seq::empty(), ..old(self)@ }),
    {
        let ended = copy_texts(&self.tailed);
        let none: Vec<String> = Vec::new();
        proof {
            use_type_invariant(&*self);
            assert(texts(none@) =~= Seq::empty());
        }
        self.tailed = none;
        ended
    }
}

/// The state after the watch at position `i` ended.
pub open spec fn ended(m: Manager, i: int) -> Manager {
    Manager {
        records: m.records.remove(i),
        tailed: without_first(m.tailed, m.records[i].id),
        ..m
    }
}

/// The state after the watch with the given identifier moved on.
pub open spec fn advanced(m: Manager, id: Seq<char>, offset: u64) -> Manager {
    if has_id(m.records, id) {
        let i = choose|i: int| 0 <= i < m.records.len() && (#[trigger] m.records[i]).id == id;
        Manager {
            records: m.records.update(i, Watch { offset, ..m.records[i] }),
            ..m
        }
    } else {
        m
    }
}

proof fn lemma_first_with_id(list: Seq<Watch>, id: Seq<char>, i: int)
    requires
        0 <= i < list.len(),
        list[i].id == id,
        forall|a: int, b: int|
            0 <= a < b < list.len() ==> (#[trigger] list[a]).id != (#[trigger] list[b]).id,
    ensures
        has_id(list, id),
        i == choose|k: int| 0 <= k < list.len() && (#[trigger] list[k]).id == id,
{
    let k = choose|k: int| 0 <= k < list.len() && (#[trigger] list[k]).id == id;
    if k < i {
        assert(list[k].id != list[i].id);
    } else if i < k {
        assert(list[i].id != list[k].id);
    }
}

// ---------------------------------------------------------------------------
// What the operations keep
// ---------------------------------------------------------------------------

pub open spec fn ids(list: Seq<Watch>) -> Seq<Seq<char>> {
    list.map_values(|w: Watch| w.id)
}

/// Exactly the active watches are tailed, and their identifiers are in order.
pub open spec fn in_step(m: Manager) -> bool {
    m.tailed == ids(m.records) && ids_ok(m.records, m.counter)
}

/// Starting a watch with a new identifier keeps tails and records in step.
pub proof fn start_keeps_in_step(m: Manager, w: Watch, counter: nat)
    requires
        in_step(m),
        !has_id(m.records, w.id),
        m.counter <= counter,
        id_number(w.id) matches Some(n) ==> n <= counter,
    ensures
        in_step(Manager { counter, ..started(m, w) }),
{
    let new = started(m, w).records;
    assert(ids(new) =~= ids(m.records).push(w.id));
    assert forall|i: int, j: int| 0 <= i < j < new.len() implies (#[trigger] new[i]).id != (
    #[trigger] new[j]).id by {
        assert(new[i] == m.records[i]);
        if j < m.records.len() {
            assert(new[j] == m.records[j]);
        }
    }
    assert forall|i: int| 0 <= i < new.len() implies match id_number((#[trigger] new[i]).id) {
        Some(n) => n <= counter,
        None => true,
    } by {
        if i < m.records.len() {
            assert(new[i] == m.records[i]);
        }
    }
}

/// Registering a watch keeps tails and records in step.
pub proof fn add_keeps_in_step(
    m: Manager,
    path: Seq<char>,
    label: Seq<char>,
    filter: Option<Seq<char>>,
    size: u64,
    now: Seq<char>,
)
    requires
        in_step(m),
        m.counter < usize::MAX,
    ensures
        ({
            let w = new_watch(m, path, label, filter, size, now);
            in_step(Manager { counter: m.counter + 1, ..started(m, w) })
        }),
{
    lemma_next_id(m.records, m.counter);
    start_keeps_in_step(m, new_watch(m, path, label, filter, size, now), m.counter + 1);
}

/// Taking over persisted watches keeps tails and records in step.
pub proof fn restore_keeps_in_step(m: Manager, list: Seq<Watch>)
    requires
        in_step(m),
    ensures
        in_step(restored(m, list)),
        restored(m, list).counter >= m.counter,
    decreases list.len(),
{
    if list.len() > 0 {
        restore_keeps_in_step(m, list.drop_last());
        let before = restored(m, list.drop_last());
        let w = list.last();
        if !has_id(before.records, w.id) {
            start_keeps_in_step(before, w, counted(before.counter, w.id));
        }
    }
}

proof fn lemma_without_first(list: Seq<Seq<char>>, i: int)
    requires
        0 <= i < list.len(),
        forall|j: int| 0 <= j < i ==> #[trigger] list[j] != list[i],
    ensures
        without_first(list, list[i]) == list.remove(i),
    decreases list.len(),
{
    if i == 0 {
        assert(list.skip(1) =~= list.remove(0));
    } else {
        let rest = list.skip(1);
        assert forall|j: int| 0 <= j < i - 1 implies #[trigger] rest[j] != rest[i - 1] by {
            assert(rest[j] == list[j + 1]);
        }
        lemma_without_first(rest, i - 1);
        assert(list[0] != list[i]);
        assert(seq![list[0]] + rest.remove(i - 1) =~= list.remove(i));
    }
}

/// Ending a watch keeps tails and records in step.
pub proof fn remove_keeps_in_step(m: Manager, i: int)
    requires
        in_step(m),
        0 <= i < m.records.len(),
    ensures
        in_step(ended(m, i)),
{
    let all = ids(m.records);
    assert forall|j: int| 0 <= j < i implies #[trigger] all[j] != all[i] by {
        assert(m.records[j].id != m.records[i].id);
    }
    lemma_without_first(all, i);
    let new = ended(m, i).records;
    assert(ids(new) =~= all.remove(i));
    assert forall|a: int, b: int| 0 <= a < b < new.len() implies (#[trigger] new[a]).id != (
    #[trigger] new[b]).id by {
        let x = if a < i {
            a
        } else {
            a + 1
        };
        let y = if b < i {
            b
        } else {
            b + 1
        };
        assert(new[a] == m.records[x] && new[b] == m.records[y]);
    }
    assert forall|a: int| 0 <= a < new.len() implies match id_number((#[trigger] new[a]).id) {
        Some(n) => n <= m.counter,
        None => true,
    } by {
        let x = if a < i {
            a
        } else {
            a + 1
        };
        assert(new[a] == m.records[x]);
    }
}

/// Taking over the same watches again changes nothing.
pub proof fn restoring_twice_adds_nothing(m: Manager, list: Seq<Watch>)
    ensures
        restored(restored(m, list), list) == restored(m, list),
{
    lemma_restored_known(m, list);
    lemma_restore_known(restored(m, list), list);
}

pub proof fn lemma_restored_known(m: Manager, list: Seq<Watch>)
    ensures
        forall|i: int|
            0 <= i < m.records.len() ==> has_id(
                restored(m, list).records,
                (#[trigger] m.records[i]).id,
            ),
        forall|i: int|
            0 <= i < list.len() ==> has_id(restored(m, list).records, (#[trigger] list[i]).id),
    decreases list.len(),
{
    let after = restored(m, list).records;
    if list.len() > 0 {
        lemma_restored_known(m, list.drop_last());
        let before = restored(m, list.drop_last()).records;
        let w = list.last();
        assert forall|id: Seq<char>| has_id(before, id) implies #[trigger] has_id(after, id) by {
            let k = choose|k: int| 0 <= k < before.len() && (#[trigger] before[k]).id == id;
            assert(after[k] == before[k]);
        }
        assert(has_id(after, w.id)) by {
            if !has_id(before, w.id) {
                assert(after[before.len() as int] == w);
            }
        }
        assert forall|i: int| 0 <= i < list.len() implies has_id(after, (#[trigger] list[i]).id) by {
            if i < list.len() - 1 {
                assert(list.drop_last()[i] == list[i]);
            }
        }
    } else {
        assert forall|i: int| 0 <= i < m.records.len() implies has_id(
            after,
            (#[trigger] m.records[i]).id,
        ) by {
            assert(after[i] == m.records[i]);
        }
    }
}

proof fn lemma_restore_known(m: Manager, list: Seq<Watch>)
    requires
        forall|i: int| 0 <= i < list.len() ==> has_id(m.records, (#[trigger] list[i]).id),
    ensures
        restored(m, list) == m,
    decreases list.len(),
{
    if list.len() > 0 {
        assert forall|i: int| 0 <= i < list.drop_last().len() implies has_id(
            m.records,
            (#[trigger] list.drop_last()[i]).id,
        ) by {
            assert(list.drop_last()[i] == list[i]);
        }
        lemma_restore_known(m, list.drop_last());
        assert(has_id(m.records, list[list.len() - 1].id));
    }
}

// ---------------------------------------------------------------------------
// The tail of one file
// ---------------------------------------------------------------------------

/// Where a tail stands.
#[derive(Clone, Copy, PartialEq, Eq, Structural, Debug)]
pub enum Phase {
    /// Waiting for the file to grow.
    Watching,
    /// Waiting for a burst of appends to end; the file had `size` bytes.
    Settling { size: u64 },
    /// Waiting for the bytes up to `size`.
    Reading { size: u64 },
}

#[derive(Clone, Copy, PartialEq, Eq, Structural, Debug)]
pub struct Tail {
    /// Everything before this byte has been seen.
    pub offset: u64,
    pub phase: Phase,
}

/// What the caller does next: wait and look at the file, or read from it.
#[derive(Clone, Copy, PartialEq, Eq, Structural, Debug)]
pub enum Next {
    Look { after_ms: u64 },
    Read { from: u64, to: u64 },
}

/// The tail of a watch when it starts.
pub fn tail_of(record: &WatchRecord) -> (r: (Tail, Next))
    ensures
        r.0 == (Tail { offset: record.offset, phase: Phase::Watching }),
        r.1 == (Next::Look { after_ms: POLL_MS }),
{
    (Tail { offset: record.offset, phase: Phase::Watching }, Next::Look { after_ms: POLL_MS })
}

pub open spec fn watching(offset: u64) -> (Tail, Next) {
    (Tail { offset, phase: Phase::Watching }, Next::Look { after_ms: POLL_MS })
}

/// A look at the file while nothing is going on. A file that is missing may
/// come; one that shrank is tailed from its beginning.
pub open spec fn polled(offset: u64, size: Option<u64>) -> (Tail, Next) {
    match size {
        None => watching(offset),
        Some(size) => {
            let from = if size < offset {
                0
            } else {
                offset
            };
            if size == from {
                watching(from)
            } else {
                (
                    Tail { offset: from, phase: Phase::Settling { size } },
                    Next::Look { after_ms: DEBOUNCE_MS },
                )
            }
        },
    }
}

/// A look at the file during a burst of appends, `elapsed_ms` after it began.
pub open spec fn settled(offset: u64, size: u64, now: Option<u64>, elapsed_ms: u64) -> (
    Tail,
    Next,
) {
    let now = match now {
        Some(n) => n,
        None => size,
    };
    if now == size || elapsed_ms >= DEBOUNCE_MAX_MS {
        let size = if now > size {
            now
        } else {
            size
        };
        if size < offset {
            watching(0)
        } else {
            (Tail { offset, phase: Phase::Reading { size } }, Next::Read { from: offset, to: size })
        }
    } else {
        (
            Tail { offset, phase: Phase::Settling { size: now } },
            Next::Look { after_ms: DEBOUNCE_MS },
        )
    }
}

/// What follows a look at the file, `elapsed_ms` after the burst began.
pub fn look(tail: &Tail, size: Option<u64>, elapsed_ms: u64) -> (r: (Tail, Next))
    ensures
        match tail.phase {
            Phase::Watching => r == polled(tail.offset, size),
            Phase::Settling { size: before } => r == settled(
                tail.offset,
                before,
                size,
                elapsed_ms,
            ),
            Phase::Reading { size: to } => r == (*tail, Next::Read { from: tail.offset, to }),
        },
{
    match tail.phase {
        Phase::Watching => {
            let size: u64 = match size {
                Some(n) => n,
                None => {
                    return (
                        Tail { offset: tail.offset, phase: Phase::Watching },
                        Next::Look { after_ms: POLL_MS },
                    );
                },
            };
            let from: u64 = if size < tail.offset {
                0
            } else {
                tail.offset
            };
            if size == from {
                (
                    Tail { offset: from, phase: Phase::Watching },
                    Next::Look { after_ms: POLL_MS },
                )
            } else {
                (
                    Tail { offset: from, phase: Phase::Settling { size } },
                    Next::Look { after_ms: DEBOUNCE_MS },
                )
            }
        },
        Phase::Settling { size: before } => {
            let now: u64 = match size {
                Some(n) => n,
                None => before,
            };
            if now == before || elapsed_ms >= DEBOUNCE_MAX_MS {
                let size: u64 = if now > before {
                    now
                } else {
                    before
                };
                if size < tail.offset {
                    (
                        Tail { offset: 0, phase: Phase::Watching },
                        Next::Look { after_ms: POLL_MS },
                    )
                } else {
                    (
                        Tail { offset: tail.offset, phase: Phase::Reading { size } },
                        Next::Read { from: tail.offset, to: size },
                    )
                }
            } else {
                (
                    Tail { offset: tail.offset, phase: Phase::Settling { size: now } },
                    Next::Look { after_ms: DEBOUNCE_MS },
                )
            }
        },
        Phase::Reading { size: to } => (*tail, Next::Read { from: tail.offset, to }),
    }
}

/// The wake-up for an appended text.
pub open spec fn is_wake(
    record: WatchRecord,
    delta: Seq<char>,
    offset: u64,
    event: WatchEvent,
) -> bool {
    &&& event.id@ == record.id@
    &&& event.label@ == record.label@
    &&& event.path@ == record.path@
    &&& event.new_offset == offset
    &&& exists|k: int|
        #[trigger] drops(delta, MAX_DELIVER_BYTES as nat, k) && event.appended@ == delta.skip(k)
            && event.skipped == byte_len(delta.take(k))
}

/// The wake-up for an appended text that is wanted, given what the filter said:
/// one that does not match is passed over in silence. A filter that says nothing
/// lets everything through.
pub fn wake(record: &WatchRecord, delta: &str, verdict: Option<bool>, offset: u64) -> (r: Option<
    WatchEvent,
>)
    ensures
        r is None <==> verdict == Some(false),
        r matches Some(event) ==> is_wake(*record, delta@, offset, event),
{
    match verdict {
        Some(false) => None,
        _ => {
            let (appended, skipped) = cap_tail(delta, MAX_DELIVER_BYTES);
            Some(
                WatchEvent {
                    id: record.id.clone(),
                    label: record.label.clone(),
                    path: record.path.clone(),
                    appended,
                    skipped,
                    new_offset: offset,
                },
            )
        },
    }
}

/// What the filter of a watch says of a text.
pub open spec fn verdict_of(filter: Option<Seq<char>>, text: Seq<char>) -> Option<bool> {
    match filter {
        Some(pattern) => if pattern_error(pattern) is None {
            Some(pattern_matches(pattern, text))
        } else {
            None
        },
        None => None,
    }
}

/// What follows the attempt to read the bytes up to `size`. Where it failed the
/// next look tries again. Otherwise all of it has been seen, also what the
/// filter passes over.
pub fn read(record: &WatchRecord, tail: &Tail, size: u64, bytes: Option<Vec<u8>>) -> (r: (
    Tail,
    Next,
    Option<WatchEvent>,
))
    ensures
        match bytes {
            None => (r.0, r.1) == watching(tail.offset) && r.2 is None,
            Some(b) => {
                let delta = read_lossily(b@);
                let verdict = verdict_of(opt_text(record.filter), delta);
                &&& (r.0, r.1) == watching(size)
                &&& r.2 is None <==> verdict == Some(false)
                &&& r.2 matches Some(event) ==> is_wake(*record, delta, size, event)
            },
        },
{
    match bytes {
        None => (
            Tail { offset: tail.offset, phase: Phase::Watching },
            Next::Look { after_ms: POLL_MS },
            None,
        ),
        Some(b) => {
            let delta = from_utf8_lossy(&b);
            let verdict = match &record.filter {
                Some(pattern) => is_match(pattern.as_str(), delta.as_str()),
                None => None,
            };
            (
                Tail { offset: size, phase: Phase::Watching },
                Next::Look { after_ms: POLL_MS },
                wake(record, delta.as_str(), verdict, size),
            )
        },
    }
}

/// A read never goes backwards, and starts where the last one ended or, after
/// the file shrank, at the beginning.
pub proof fn reads_follow_the_offset(offset: u64, size: u64, now: Option<u64>, elapsed_ms: u64)
    ensures
        match settled(offset, size, now, elapsed_ms) {
            (tail, Next::Read { from, to }) => {
                &&& from == offset <= to
                &&& tail == (Tail { offset, phase: Phase::Reading { size: to } })
                &&& to >= size
            },
            (tail, Next::Look { .. }) => tail.offset == offset || tail.offset == 0,
        },
        match polled(offset, now) {
            (tail, _) => {
                &&& tail.offset == offset || tail.offset == 0
                &&& tail.offset != offset ==> now is Some && now->0 < offset
            },
        },
{
}

// ---------------------------------------------------------------------------
// A manager over time
// ---------------------------------------------------------------------------

/// A call that may change the watches.
pub ghost enum WatchCall {
    Restore(Seq<Watch>),
    Add {
        path: Seq<char>,
        label: Seq<char>,
        filter: Option<Seq<char>>,
        objection: Option<Seq<char>>,
        size: u64,
        now: Seq<char>,
    },
    Remove(Seq<char>),
    Advance(Seq<char>, u64),
    AbortAll,
}

/// The state after a call.
pub open spec fn called(m: Manager, call: WatchCall) -> Manager {
    match call {
        WatchCall::Restore(list) => restored(m, list),
        WatchCall::Add { path, label, filter, objection, size, now } => if refusal(
            m,
            path,
            objection,
        ) is Some {
            m
        } else {
            Manager {
                counter: m.counter + 1,
                ..started(m, new_watch(m, path, label, filter, size, now))
            }
        },
        WatchCall::Remove(key) => if any_named(m, key) {
            ended(m, choose|i: int| found(m, key, i))
        } else {
            m
        },
        WatchCall::Advance(id, offset) => advanced(m, id, offset),
        WatchCall::AbortAll => Manager { tailed: Seq::empty(), ..m },
    }
}

/// The state after several calls, one after the other.
pub open spec fn called_all(m: Manager, calls: Seq<WatchCall>) -> Manager
    decreases calls.len(),
{
    if calls.len() == 0 {
        m
    } else {
        called(called_all(m, calls.drop_last()), calls.last())
    }
}

/// A watch with this identifier was there at some time, before the calls or after
/// one of them.
pub open spec fn ever_held(m: Manager, calls: Seq<WatchCall>, id: Seq<char>) -> bool
    decreases calls.len(),
{
    has_id(called_all(m, calls).records, id) || (calls.len() > 0 && ever_held(
        m,
        calls.drop_last(),
        id,
    ))
}

proof fn lemma_start_ids(m: Manager, w: Watch, counter: nat)
    requires
        ids_ok(m.records, m.counter),
        !has_id(m.records, w.id),
        m.counter <= counter,
        id_number(w.id) matches Some(n) ==> n <= counter,
    ensures
        ids_ok(started(m, w).records, counter),
{
    start_keeps_in_step(Manager { tailed: ids(m.records), ..m }, w, counter);
}

pub proof fn lemma_restore_ids(m: Manager, list: Seq<Watch>)
    requires
        ids_ok(m.records, m.counter),
    ensures
        ids_ok(restored(m, list).records, restored(m, list).counter),
        restored(m, list).counter >= m.counter,
    decreases list.len(),
{
    if list.len() > 0 {
        lemma_restore_ids(m, list.drop_last());
        let before = restored(m, list.drop_last());
        let w = list.last();
        if !has_id(before.records, w.id) {
            lemma_start_ids(before, w, counted(before.counter, w.id));
        }
    }
}

/// The first of the watches that a key names.
proof fn lemma_found(m: Manager, key: Seq<char>, i: int) -> (k: int)
    requires
        0 <= i < m.records.len(),
        named(m.records[i], m.workspace, key),
    ensures
        found(m, key, k),
    decreases i,
{
    if found(m, key, i) {
        i
    } else {
        let j = choose|j: int|
            0 <= j < i && named(#[trigger] m.records[j], m.workspace, key);
        lemma_found(m, key, j)
    }
}

/// A call keeps identifiers apart, and the counter ahead of them; the counter never
/// falls.
proof fn lemma_called(m: Manager, call: WatchCall)
    requires
        ids_ok(m.records, m.counter),
        called(m, call).counter <= usize::MAX,
    ensures
        ids_ok(called(m, call).records, called(m, call).counter),
        m.counter <= called(m, call).counter,
{
    let new = called(m, call).records;
    match call {
        WatchCall::Restore(list) => {
            lemma_restore_ids(m, list);
        },
        WatchCall::Add { path, label, filter, objection, size, now } => {
            if refusal(m, path, objection) is None {
                lemma_next_id(m.records, m.counter);
                lemma_start_ids(m, new_watch(m, path, label, filter, size, now), m.counter + 1);
            }
        },
        WatchCall::Remove(key) => {
            if any_named(m, key) {
                let first = choose|i: int|
                    0 <= i < m.records.len() && named(#[trigger] m.records[i], m.workspace, key);
                let k = lemma_found(m, key, first);
                let i = choose|i: int| found(m, key, i);
                assert(found(m, key, i));
                assert forall|a: int| 0 <= a < new.len() implies #[trigger] new[a] == m.records[if a
                    < i {
                    a
                } else {
                    a + 1
                }] by {}
                assert forall|a: int, b: int| 0 <= a < b < new.len() implies (#[trigger] new[a]).id
                    != (#[trigger] new[b]).id by {}
                assert forall|a: int| 0 <= a < new.len() implies match id_number(
                    (#[trigger] new[a]).id,
                ) {
                    Some(n) => n <= m.counter,
                    None => true,
                } by {}
            }
        },
        WatchCall::Advance(id, offset) => {
            if has_id(m.records, id) {
                assert forall|a: int| 0 <= a < new.len() implies (#[trigger] new[a]).id
                    == m.records[a].id by {}
                assert forall|a: int, b: int| 0 <= a < b < new.len() implies (#[trigger] new[a]).id
                    != (#[trigger] new[b]).id by {
                    assert(m.records[a].id != m.records[b].id);
                }
                assert forall|a: int| 0 <= a < new.len() implies match id_number(
                    (#[trigger] new[a]).id,
                ) {
                    Some(n) => n <= m.counter,
                    None => true,
                } by {
                    assert(new[a].id == m.records[a].id);
                }
            }
        },
        WatchCall::AbortAll => {},
    }
}

/// Whatever calls are made of a manager, no two of its watches have one identifier,
/// and the counter never falls.
pub proof fn identifiers_stay_apart(m: Manager, calls: Seq<WatchCall>)
    requires
        ids_ok(m.records, m.counter),
        called_all(m, calls).counter <= usize::MAX,
    ensures
        ids_ok(called_all(m, calls).records, called_all(m, calls).counter),
        m.counter <= called_all(m, calls).counter,
    decreases calls.len(),
{
    if calls.len() > 0 {
        let before = called_all(m, calls.drop_last());
        lemma_counter_rises(m, calls);
        identifiers_stay_apart(m, calls.drop_last());
        lemma_called(before, calls.last());
    }
}

/// The last call lets the counter stand or rise.
proof fn lemma_counter_rises(m: Manager, calls: Seq<WatchCall>)
    requires
        calls.len() > 0,
    ensures
        called_all(m, calls.drop_last()).counter <= called_all(m, calls).counter,
{
    let before = called_all(m, calls.drop_last());
    if let WatchCall::Restore(list) = calls.last() {
        lemma_restored_counter(before, list);
    }
}

proof fn lemma_restored_counter(m: Manager, list: Seq<Watch>)
    ensures
        m.counter <= restored(m, list).counter,
    decreases list.len(),
{
    if list.len() > 0 {
        lemma_restored_counter(m, list.drop_last());
    }
}

/// The identifier of a new watch is its number behind `watch-`, and differs from
/// that of every watch that was ever there: added, restored, or removed since.
pub proof fn a_new_identifier_was_never_held(
    m: Manager,
    calls: Seq<WatchCall>,
    path: Seq<char>,
    label: Seq<char>,
    filter: Option<Seq<char>>,
    size: u64,
    now: Seq<char>,
)
    requires
        ids_ok(m.records, m.counter),
        called_all(m, calls).counter < usize::MAX,
    ensures
        ({
            let last = called_all(m, calls);
            let w = new_watch(last, path, label, filter, size, now);
            &&& w.id == id_of(last.counter + 1)
            &&& !ever_held(m, calls, w.id)
        }),
{
    let last = called_all(m, calls);
    identifiers_stay_apart(m, calls);
    lemma_next_id(last.records, last.counter);
    lemma_never_held(m, calls, id_of(last.counter + 1), last.counter + 1);
}

/// A number above the counter was never held.
proof fn lemma_never_held(m: Manager, calls: Seq<WatchCall>, id: Seq<char>, n: nat)
    requires
        ids_ok(m.records, m.counter),
        called_all(m, calls).counter < n <= usize::MAX,
        id_number(id) == Some(n),
    ensures
        !ever_held(m, calls, id),
    decreases calls.len(),
{
    let last = called_all(m, calls);
    identifiers_stay_apart(m, calls);
    if has_id(last.records, id) {
        let i = choose|i: int| 0 <= i < last.records.len() && (#[trigger] last.records[i]).id == id;
        assert(id_number(last.records[i].id) == Some(n));
    }
    if calls.len() > 0 {
        lemma_counter_rises(m, calls);
        lemma_never_held(m, calls.drop_last(), id, n);
    }
}

} // verus!
