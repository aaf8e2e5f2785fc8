//! The saved conversations: which files hold one, how they are listed, and which
//! was active last.
use crate::paths::{
    is_same_path, join_path, joined_name_is_file_name, last_at, path_joined, same_path,
    split_extension, stem_and_extension,
};
use crate::text::{
    blank, cat2, cat4, decimal, decimal_wide, ends, ends_with, is_blank, opt_str, opt_text, same,
    take_chars, trim, trimmed,
};
use crate::vault::pair_texts;
use vstd::prelude::*;

verus! {

/// A file name of a conversation: it ends in `.json`, and what is before that
/// does not end in `.meta`, which is how the file beside a conversation is named.
pub open spec fn holds_conversation(path: Seq<char>) -> bool {
    let (stem, extension) = stem_and_extension(path);
    extension == Some("json"@) && match stem {
        Some(s) => !ends(s, ".meta"@),
        None => false,
    }
}

pub fn is_conversation_json(path: &str) -> (r: bool)
    ensures
        r == holds_conversation(path@),
{
    let (stem, extension) = split_extension(path);
    let json = match &extension {
        Some(e) => same(e.as_str(), "json"),
        None => false,
    };
    json && match &stem {
        Some(s) => !ends_with(s.as_str(), ".meta"),
        None => false,
    }
}

/// What a saved state says of itself.
pub struct Saved {
    pub title: Option<String>,
    pub user_request: String,
    pub has_events: bool,
}

/// A file that may hold a conversation.
pub struct Found {
    pub path: String,
    /// When it changed last, in nanoseconds from the epoch, where that is known.
    pub modified: Option<i128>,
    /// What it holds, where that can be read.
    pub saved: Option<Saved>,
}

pub ghost struct Kept {
    pub title: Option<Seq<char>>,
    pub user_request: Seq<char>,
    pub has_events: bool,
}

pub ghost struct File {
    pub path: Seq<char>,
    pub modified: Option<i128>,
    pub saved: Option<Kept>,
}

impl View for Saved {
    type V = Kept;

    open spec fn view(&self) -> Kept {
        Kept {
            title: opt_text(self.title),
            user_request: self.user_request@,
            has_events: self.has_events,
        }
    }
}

impl View for Found {
    type V = File;

    open spec fn view(&self) -> File {
        File {
            path: self.path@,
            modified: self.modified,
            saved: match self.saved {
                Some(s) => Some(s@),
                None => None,
            },
        }
    }
}

pub open spec fn files_of(list: Seq<Found>) -> Seq<File> {
    list.map_values(|f: Found| f@)
}

pub open spec fn file_of(f: Option<&Found>) -> Option<File> {
    match f {
        Some(x) => Some(x@),
        None => None,
    }
}

// ---------------------------------------------------------------------------
// The list
// ---------------------------------------------------------------------------

/// How long ago something was, in words.
pub open spec fn ago(seconds: nat) -> Seq<char> {
    if seconds < 60 {
        "just now"@
    } else if seconds < 3600 {
        decimal(seconds / 60) + "m ago"@
    } else if seconds < 86400 {
        decimal(seconds / 3600) + "h ago"@
    } else {
        decimal(seconds / 86400) + "d ago"@
    }
}

/// The whole seconds from one time to another, none where it is not before.
pub open spec fn seconds_between(from: int, to: int) -> nat {
    if to > from {
        ((to - from) / 1_000_000_000) as nat
    } else {
        0
    }
}

/// When a file changed last, the epoch where that is not known.
pub open spec fn time_of(f: File) -> int {
    match f.modified {
        Some(m) => m as int,
        None => 0,
    }
}

/// What a saved conversation is about: its title, or else what was asked for.
pub open spec fn about_saved(f: File) -> Seq<char> {
    match f.saved {
        Some(s) => match s.title {
            Some(t) => if !blank(t) {
                trimmed(t)
            } else if s.user_request.len() > 0 {
                s.user_request
            } else {
                "empty session"@
            },
            None => if s.user_request.len() > 0 {
                s.user_request
            } else {
                "empty session"@
            },
        },
        None => "empty session"@,
    }
}

/// A conversation in the list.
pub ghost struct Listing {
    pub name: Seq<char>,
    pub about: Seq<char>,
    pub time: int,
}

/// The conversation in a file, where the file holds one that has a name of its
/// own.
pub open spec fn listed(f: File) -> Option<Listing> {
    let (stem, _) = stem_and_extension(f.path);
    if !holds_conversation(f.path) {
        None
    } else {
        match stem {
            Some(name) => if name.len() == 0 || name == "default"@ {
                None
            } else {
                Some(Listing { name, about: about_saved(f), time: time_of(f) })
            },
            None => None,
        }
    }
}

/// The default conversation, where it has any content.
pub open spec fn listed_default(f: File) -> Option<Listing> {
    match f.saved {
        Some(s) => if s.user_request.len() > 0 {
            Some(Listing { name: "default"@, about: s.user_request, time: time_of(f) })
        } else if s.has_events {
            Some(Listing { name: "default"@, about: "default session"@, time: time_of(f) })
        } else {
            None
        },
        None => None,
    }
}

pub open spec fn all_listed(files: Seq<File>) -> Seq<Listing>
    decreases files.len(),
{
    if files.len() == 0 {
        Seq::empty()
    } else {
        let before = all_listed(files.drop_last());
        match listed(files.last()) {
            Some(e) => before.push(e),
            None => before,
        }
    }
}

/// Every conversation, the default one last.
pub open spec fn gathered(files: Seq<File>, default: Option<File>) -> Seq<Listing> {
    match default {
        Some(f) => match listed_default(f) {
            Some(e) => all_listed(files).push(e),
            None => all_listed(files),
        },
        None => all_listed(files),
    }
}

/// How many of a list, from its beginning, are no older than the given time.
pub open spec fn not_older(list: Seq<Listing>, time: int) -> nat
    decreases list.len(),
{
    if list.len() == 0 || list[0].time < time {
        0
    } else {
        1 + not_older(list.skip(1), time)
    }
}

/// The newest first, and what is of one time in the order it was found.
pub open spec fn newest_first(list: Seq<Listing>) -> Seq<Listing>
    decreases list.len(),
{
    if list.len() == 0 {
        Seq::empty()
    } else {
        let before = newest_first(list.drop_last());
        before.insert(not_older(before, list.last().time) as int, list.last())
    }
}

/// At most forty characters of what a conversation is about.
pub open spec fn shortened(s: Seq<char>) -> Seq<char> {
    if s.len() > 40 {
        s.take(37) + "..."@
    } else {
        s
    }
}

/// How a conversation is shown in the list.
pub open spec fn shown(e: Listing, now: int) -> (Seq<char>, Seq<char>) {
    (e.name, "("@ + ago(seconds_between(e.time, now)) + ") — "@ + shortened(e.about))
}

/// The list of conversations.
pub open spec fn conversations(files: Seq<File>, default: Option<File>, now: int) -> Seq<
    (Seq<char>, Seq<char>),
> {
    newest_first(gathered(files, default)).map_values(|e: Listing| shown(e, now))
}

/// Each is no older than those after it.
pub open spec fn descending(list: Seq<Listing>) -> bool {
    forall|i: int, j: int|
        0 <= i <= j < list.len() ==> (#[trigger] list[i]).time >= (#[trigger] list[j]).time
}

proof fn lemma_not_older(list: Seq<Listing>, time: int)
    requires
        descending(list),
    ensures
        not_older(list, time) <= list.len(),
        forall|i: int| 0 <= i < not_older(list, time) ==> (#[trigger] list[i]).time >= time,
        forall|i: int| not_older(list, time) <= i < list.len() ==> (#[trigger] list[i]).time < time,
    decreases list.len(),
{
    if list.len() > 0 && list[0].time >= time {
        let rest = list.skip(1);
        assert forall|i: int, j: int| 0 <= i <= j < rest.len() implies (#[trigger] rest[i]).time
            >= (#[trigger] rest[j]).time by {
            assert(rest[i] == list[i + 1]);
            assert(rest[j] == list[j + 1]);
        }
        lemma_not_older(rest, time);
        assert forall|i: int| 0 <= i < not_older(list, time) implies (#[trigger] list[i]).time
            >= time by {
            if i > 0 {
                assert(list[i] == rest[i - 1]);
            }
        }
        assert forall|i: int| not_older(list, time) <= i < list.len() implies (
        #[trigger] list[i]).time < time by {
            assert(list[i] == rest[i - 1]);
        }
    } else if list.len() > 0 {
        assert forall|i: int| 0 <= i < list.len() implies (#[trigger] list[i]).time < time by {
            assert(list[0].time >= list[i].time);
        }
    }
}

/// The conversations that changed last at a given time.
pub open spec fn at_time(list: Seq<Listing>, time: int) -> Seq<Listing> {
    list.filter(|e: Listing| e.time == time)
}

/// The list is ordered, the newest conversation first, and of those that changed
/// at one time none is lost, added or moved before another.
pub proof fn listing_is_a_stable_sort(list: Seq<Listing>)
    ensures
        descending(newest_first(list)),
        newest_first(list).len() == list.len(),
        forall|t: int| #[trigger] at_time(newest_first(list), t) == at_time(list, t),
    decreases list.len(),
{
    if list.len() == 0 {
        assert forall|t: int| #[trigger] at_time(newest_first(list), t) == at_time(list, t) by {
            assert(newest_first(list) =~= list);
        }
    } else {
        let front = list.drop_last();
        let e = list.last();
        let before = newest_first(front);
        listing_is_a_stable_sort(front);
        lemma_not_older(before, e.time);
        let k = not_older(before, e.time) as int;
        let all = before.insert(k, e);
        assert(newest_first(list) == all);
        assert forall|i: int, j: int| 0 <= i <= j < all.len() implies (#[trigger] all[i]).time
            >= (#[trigger] all[j]).time by {
            if i < k {
                assert(all[i] == before[i]);
            } else if i > k {
                assert(all[i] == before[i - 1]);
            }
            if j < k {
                assert(all[j] == before[j]);
            } else if j > k {
                assert(all[j] == before[j - 1]);
            }
        }
        assert forall|t: int| #[trigger] at_time(all, t) == at_time(list, t) by {
            let p = |x: Listing| x.time == t;
            let head = before.take(k);
            let tail = before.skip(k);
            assert(all =~= head.push(e) + tail);
            assert(before =~= head + tail);
            Seq::filter_distributes_over_add(head.push(e), tail, p);
            Seq::filter_distributes_over_add(head, tail, p);
            head.lemma_filter_push(e, p);
            front.lemma_filter_push(e, p);
            assert(list =~= front.push(e));
            assert(at_time(before, t) == at_time(front, t));
            if t == e.time {
                lemma_none_at(tail, t);
                assert(tail.filter(p) =~= Seq::empty());
            }
            assert(all.filter(p) =~= list.filter(p));
        }
    }
}

proof fn lemma_none_at(list: Seq<Listing>, t: int)
    requires
        forall|i: int| 0 <= i < list.len() ==> (#[trigger] list[i]).time != t,
    ensures
        list.filter(|x: Listing| x.time == t).len() == 0,
    decreases list.len(),
{
    let p = |x: Listing| x.time == t;
    reveal(Seq::filter);
    if list.len() > 0 {
        lemma_none_at(list.drop_last(), t);
        assert(!p(list.last()));
    }
}

struct Item {
    name: String,
    about: String,
    time: i128,
}

impl View for Item {
    type V = Listing;

    closed spec fn view(&self) -> Listing {
        Listing { name: self.name@, about: self.about@, time: self.time as int }
    }
}

spec fn entries_of(list: Seq<Item>) -> Seq<Listing> {
    list.map_values(|i: Item| i@)
}

fn time_of_file(f: &Found) -> (r: i128)
    ensures
        r == time_of(f@),
{
    match f.modified {
        Some(m) => m,
        None => 0,
    }
}

fn say_ago(seconds: u128) -> (r: String)
    ensures
        r@ == ago(seconds as nat),
{
    if seconds < 60 {
        return "just now".to_string();
    }
    if seconds < 3600 {
        let d = decimal_wide(seconds / 60);
        return cat2(d.as_str(), "m ago");
    }
    if seconds < 86400 {
        let d = decimal_wide(seconds / 3600);
        return cat2(d.as_str(), "h ago");
    }
    let d = decimal_wide(seconds / 86400);
    cat2(d.as_str(), "d ago")
}

fn list_file(f: &Found) -> (r: Option<Item>)
    ensures
        listed(f@) == match r {
            Some(i) => Some(i@),
            None => None,
        },
{
    if !is_conversation_json(f.path.as_str()) {
        return None;
    }
    let (stem, _) = split_extension(f.path.as_str());
    match stem {
        Some(name) => {
            if name.as_str().is_empty() || same(name.as_str(), "default") {
                return None;
            }
            let about = match &f.saved {
                Some(s) => {
                    let title = match &s.title {
                        Some(t) => !is_blank(t.as_str()),
                        None => false,
                    };
                    if title {
                        match &s.title {
                            Some(t) => trim(t.as_str()),
                            None => s.user_request.clone(),
                        }
                    } else if !s.user_request.as_str().is_empty() {
                        s.user_request.clone()
                    } else {
                        "empty session".to_string()
                    }
                },
                None => "empty session".to_string(),
            };
            Some(Item { name, about, time: time_of_file(f) })
        },
        None => None,
    }
}

fn list_default(f: &Found) -> (r: Option<Item>)
    ensures
        listed_default(f@) == match r {
            Some(i) => Some(i@),
            None => None,
        },
{
    match &f.saved {
        Some(s) => {
            let about = if !s.user_request.as_str().is_empty() {
                s.user_request.clone()
            } else if s.has_events {
                "default session".to_string()
            } else {
                return None;
            };
            Some(Item { name: "default".to_string(), about, time: time_of_file(f) })
        },
        None => None,
    }
}

fn insert_by_age(list: &mut Vec<Item>, item: Item)
    ensures
        entries_of(final(list)@) == entries_of(old(list)@).insert(
            not_older(entries_of(old(list)@), item.time as int) as int,
            item@,
        ),
{
    let ghost all = entries_of(list@);
    let mut k: usize = 0;
    assert(all.skip(0) =~= all);
    while k < list.len() && list[k].time >= item.time
        invariant
            k <= list.len(),
            all == entries_of(list@),
            not_older(all, item.time as int) == k + not_older(all.skip(k as int), item.time as int),
        decreases list.len() - k,
    {
        proof {
            assert(all.skip(k as int)[0] == list@[k as int]@);
            assert(all.skip(k as int).skip(1) =~= all.skip(k + 1));
        }
        k += 1;
    }
    proof {
        if k < list.len() {
            assert(all.skip(k as int)[0] == list@[k as int]@);
        }
    }
    let ghost it = item@;
    list.insert(k, item);
    assert(entries_of(list@) =~= all.insert(k as int, it));
}

fn seconds_since(time: i128, now: i128) -> (r: u128)
    ensures
        r == seconds_between(time as int, now as int),
{
    if now <= time {
        return 0;
    }
    let d: u128 = if time >= 0 || now < 0 {
        (now - time) as u128
    } else {
        now as u128 + (-(time + 1)) as u128 + 1
    };
    d / 1_000_000_000
}

fn shorten(s: &str) -> (r: String)
    ensures
        r@ == shortened(s@),
{
    if s.unicode_len() > 40 {
        let head = take_chars(s, 37);
        cat2(head.as_str(), "...")
    } else {
        s.to_owned()
    }
}

/// The list of conversations: the files in the directory of conversations, and
/// the file of the default one where it is there.
pub fn list_conversations(files: &Vec<Found>, default: Option<&Found>, now: i128) -> (r: Vec<
    (String, String),
>)
    ensures
        pair_texts(r@) == conversations(files_of(files@), file_of(default), now as int),
{
    let ghost all = files_of(files@);
    let ghost mut found: Seq<Listing> = Seq::empty();
    let mut items: Vec<Item> = Vec::new();
    assert(entries_of(items@) =~= newest_first(found));
    for i in 0..files.len()
        invariant
            all == files_of(files@),
            found == all_listed(all.take(i as int)),
            entries_of(items@) == newest_first(found),
    {
        proof {
            assert(all.take(i + 1).drop_last() =~= all.take(i as int));
            assert(all.take(i + 1).last() == files@[i as int]@);
        }
        match list_file(&files[i]) {
            Some(item) => {
                proof {
                    assert(found.push(item@).drop_last() =~= found);
                    found = found.push(item@);
                }
                insert_by_age(&mut items, item);
            },
            None => {},
        }
    }
    assert(all.take(all.len() as int) =~= all);
    match default {
        Some(f) => match list_default(f) {
            Some(item) => {
                proof {
                    assert(found.push(item@).drop_last() =~= found);
                    found = found.push(item@);
                }
                insert_by_age(&mut items, item);
            },
            None => {},
        },
        None => {},
    }
    assert(found == gathered(all, file_of(default)));
    let ghost goal = conversations(all, file_of(default), now as int);
    let mut out: Vec<(String, String)> = Vec::new();
    for i in 0..items.len()
        invariant
            goal == entries_of(items@).map_values(|e: Listing| shown(e, now as int)),
            pair_texts(out@) == goal.take(i as int),
    {
        let item = &items[i];
        let when = say_ago(seconds_since(item.time, now));
        let about = shorten(item.about.as_str());
        let line = cat4("(", when.as_str(), ") — ", about.as_str());
        let ghost done = pair_texts(out@);
        out.push((item.name.clone(), line));
        proof {
            assert(goal[i as int] == shown(item@, now as int));
            assert(pair_texts(out@) =~= done.push(goal[i as int]));
            assert(goal.take(i + 1) =~= goal.take(i as int).push(goal[i as int]));
        }
    }
    assert(goal.take(goal.len() as int) =~= goal);
    out
}

// ---------------------------------------------------------------------------
// The conversation that was active last
// ---------------------------------------------------------------------------

/// The newest file of a conversation and its time. Of several of one time it is
/// the first, and one from the epoch or before counts for nothing.
pub open spec fn newest_file(files: Seq<File>) -> (Option<Seq<char>>, int)
    decreases files.len(),
{
    if files.len() == 0 {
        (None, 0)
    } else {
        let best = newest_file(files.drop_last());
        let f = files.last();
        match f.modified {
            Some(m) => if holds_conversation(f.path) && m > best.1 {
                (Some(f.path), m as int)
            } else {
                best
            },
            None => best,
        }
    }
}

/// The name of the conversation that changed last. The default one is taken where
/// it changed after all others.
pub open spec fn last_active(files: Seq<File>, default: Option<File>, default_path: Seq<char>) -> Option<
    Seq<char>,
> {
    let best = newest_file(files);
    let path = match default {
        Some(f) => match f.modified {
            Some(m) => if m > best.1 {
                Some(default_path)
            } else {
                best.0
            },
            None => best.0,
        },
        None => best.0,
    };
    match path {
        Some(p) => if same_path(p, default_path) {
            Some("default"@)
        } else {
            stem_and_extension(p).0
        },
        None => None,
    }
}

/// The name of the conversation that was active last, where there is any.
pub fn find_last_active_conversation(
    files: &Vec<Found>,
    default: Option<&Found>,
    default_path: &str,
) -> (r: Option<String>)
    ensures
        opt_text(r) == last_active(files_of(files@), file_of(default), default_path@),
{
    let ghost all = files_of(files@);
    let mut best: Option<String> = None;
    let mut time: i128 = 0;
    for i in 0..files.len()
        invariant
            all == files_of(files@),
            newest_file(all.take(i as int)) == (opt_text(best), time as int),
    {
        proof {
            assert(all.take(i + 1).drop_last() =~= all.take(i as int));
            assert(all.take(i + 1).last() == files@[i as int]@);
        }
        let f = &files[i];
        match f.modified {
            Some(m) => {
                if is_conversation_json(f.path.as_str()) && m > time {
                    time = m;
                    best = Some(f.path.clone());
                }
            },
            None => {},
        }
    }
    assert(all.take(all.len() as int) =~= all);
    match default {
        Some(f) => match f.modified {
            Some(m) => {
                if m > time {
                    best = Some(default_path.to_owned());
                }
            },
            None => {},
        },
        None => {},
    }
    match best {
        Some(p) => {
            if is_same_path(p.as_str(), default_path) {
                Some("default".to_string())
            } else {
                split_extension(p.as_str()).0
            }
        },
        None => None,
    }
}

/// A conversation is listed under the name that its file was opened by.
pub proof fn conversations_are_listed_by_name(
    dir: Seq<char>,
    name: Seq<char>,
    default_path: Seq<char>,
    f: File,
)
    requires
        name.len() > 0,
        !name.contains('/'),
        !ends(name, ".meta"@),
        name != "default"@,
        f.path == file_of_conversation(name, dir, default_path),
    ensures
        holds_conversation(f.path),
        listed(f) == Some(Listing { name, about: about_saved(f), time: time_of(f) }),
{
    lemma_json_file(dir, name);
}

/// The file beside a conversation is never taken for one.
pub proof fn sidecars_are_not_listed(dir: Seq<char>, name: Seq<char>, f: File)
    requires
        name.len() > 0,
        !name.contains('/'),
        f.path == path_joined(dir, name + ".meta.json"@),
    ensures
        !holds_conversation(f.path),
        listed(f) is None,
{
    reveal_strlit(".meta.json");
    reveal_strlit(".meta");
    reveal_strlit(".json");
    let stem = name + ".meta"@;
    assert(name + ".meta.json"@ =~= stem + ".json"@);
    assert forall|i: int| 0 <= i < stem.len() implies stem[i] != '/' by {
        if i < name.len() {
            assert(stem[i] == name[i]);
        }
    }
    lemma_json_file(dir, stem);
    assert(stem.subrange(name.len() as int, stem.len() as int) =~= ".meta"@);
}

proof fn lemma_json_file(dir: Seq<char>, name: Seq<char>)
    requires
        name.len() > 0,
        !name.contains('/'),
    ensures
        stem_and_extension(path_joined(dir, name + ".json"@)) == (Some(name), Some("json"@)),
{
    reveal_strlit(".json");
    reveal_strlit("json");
    let file = name + ".json"@;
    assert forall|i: int| 0 <= i < file.len() implies file[i] != '/' by {
        if i < name.len() {
            assert(file[i] == name[i]);
        }
    }
    joined_name_is_file_name(dir, file);
    reveal_with_fuel(last_at, 6);
    assert(file.drop_last().drop_last().drop_last().drop_last().last() == '.');
    assert(last_at(file, '.') == Some(name.len() as int));
    assert(file.take(name.len() as int) =~= name);
    assert(file.skip(name.len() as int + 1) =~= "json"@);
}

/// The directory of the conversations: beside the file of the default one.
pub open spec fn conversations_beside(parent: Option<Seq<char>>) -> Seq<char> {
    path_joined(
        match parent {
            Some(p) => p,
            None => "."@,
        },
        "conversations"@,
    )
}

/// The directory of the conversations, from the directory that holds the file of
/// the default one.
pub fn conversations_dir(parent: Option<&str>) -> (r: String)
    ensures
        r@ == conversations_beside(opt_str(parent)),
{
    match parent {
        Some(p) => join_path(p, "conversations"),
        None => join_path(".", "conversations"),
    }
}

/// The file of a conversation.
pub open spec fn file_of_conversation(name: Seq<char>, dir: Seq<char>, default_path: Seq<char>) -> Seq<
    char,
> {
    if name == "default"@ {
        default_path
    } else {
        path_joined(dir, name + ".json"@)
    }
}

/// The file of a conversation, in the directory of conversations unless it is the
/// default one.
pub fn conversation_path(name: &str, dir: &str, default_path: &str) -> (r: String)
    ensures
        r@ == file_of_conversation(name@, dir@, default_path@),
{
    if same(name, "default") {
        default_path.to_owned()
    } else {
        let file = cat2(name, ".json");
        join_path(dir, file.as_str())
    }
}

} // verus!
