//! Paths as texts, with `/` between their components.
use crate::text::{
    cat2, cat3, chars_of, ends_with_char, lemma_pieces_push, opt_text, pieces, same, same_texts,
    split, starts_with_char, string_of, texts,
};
use vstd::prelude::*;

verus! {

/// A path below another, unless it begins at the root.
pub open spec fn path_joined(base: Seq<char>, component: Seq<char>) -> Seq<char> {
    if component.len() > 0 && component[0] == '/' {
        component
    } else if base.len() == 0 || base.last() == '/' {
        base + component
    } else {
        base + "/"@ + component
    }
}

pub fn join_path(base: &str, component: &str) -> (r: String)
    ensures
        r@ == path_joined(base@, component@),
{
    proof {
        reveal_strlit("/");
    }
    if starts_with_char(component, '/') {
        component.to_owned()
    } else if base.is_empty() || ends_with_char(base, '/') {
        cat2(base, component)
    } else {
        cat3(base, "/", component)
    }
}

/// The names that a path leads through. Repeated and trailing separators do not
/// count, nor does a component `.` that is not the first.
pub open spec fn components(parts: Seq<Seq<char>>) -> Seq<Seq<char>>
    decreases parts.len(),
{
    if parts.len() == 0 {
        Seq::empty()
    } else {
        let before = components(parts.drop_last());
        if parts.last().len() == 0 || (parts.last() == "."@ && parts.len() > 1) {
            before
        } else {
            before.push(parts.last())
        }
    }
}

/// Two notations of one path.
pub open spec fn same_path(a: Seq<char>, b: Seq<char>) -> bool {
    &&& (a.len() > 0 && a[0] == '/') == (b.len() > 0 && b[0] == '/')
    &&& components(pieces(a, '/')) == components(pieces(b, '/'))
}

/// The names that a path leads through.
pub fn path_components(path: &str) -> (r: Vec<String>)
    ensures
        texts(r@) == components(pieces(path@, '/')),
{
    let parts = split(path, '/');
    let ghost all = texts(parts@);
    let mut out: Vec<String> = Vec::new();
    assert(texts(out@) =~= components(all.take(0)));
    for i in 0..parts.len()
        invariant
            all == texts(parts@),
            texts(out@) == components(all.take(i as int)),
    {
        proof {
            assert(all.take(i + 1).drop_last() =~= all.take(i as int));
            assert(all.take(i + 1).last() == parts@[i as int]@);
        }
        let empty = parts[i].as_str().is_empty();
        let dot = same(parts[i].as_str(), ".");
        if !(empty || (dot && i > 0)) {
            let ghost before = texts(out@);
            out.push(parts[i].clone());
            assert(texts(out@) =~= before.push(parts@[i as int]@));
        }
    }
    assert(all.take(all.len() as int) =~= all);
    out
}

/// Whether two texts are notations of one path.
pub fn is_same_path(a: &str, b: &str) -> (r: bool)
    ensures
        r == same_path(a@, b@),
{
    let x = path_components(a);
    let y = path_components(b);
    starts_with_char(a, '/') == starts_with_char(b, '/') && same_texts(&x, &y)
}

/// The last component of a path, where that is a name.
pub open spec fn file_name(path: Seq<char>) -> Option<Seq<char>> {
    let c = components(pieces(path, '/'));
    if c.len() == 0 || c.last() == "."@ || c.last() == ".."@ {
        None
    } else {
        Some(c.last())
    }
}

/// The last component of a path, or the path where that is no name.
pub open spec fn base_name(path: Seq<char>) -> Seq<char> {
    match file_name(path) {
        Some(n) => n,
        None => path,
    }
}

pub fn file_name_of(path: &str) -> (r: Option<String>)
    ensures
        file_name(path@) == match r {
            Some(s) => Some(s@),
            None => None,
        },
{
    let c = path_components(path);
    assert(texts(c@).len() == c@.len());
    if c.len() == 0 {
        return None;
    }
    let last = c[c.len() - 1].clone();
    assert(texts(c@).last() == c@[c@.len() - 1]@);
    if same(last.as_str(), ".") || same(last.as_str(), "..") {
        None
    } else {
        Some(last)
    }
}

pub fn base_name_of(path: &str) -> (r: String)
    ensures
        r@ == base_name(path@),
{
    match file_name_of(path) {
        Some(n) => n,
        None => path.to_owned(),
    }
}

/// The position of the last occurrence of `c`.
pub open spec fn last_at(s: Seq<char>, c: char) -> Option<int>
    decreases s.len(),
{
    if s.len() == 0 {
        None
    } else if s.last() == c {
        Some(s.len() - 1)
    } else {
        last_at(s.drop_last(), c)
    }
}

/// The name of the file that a path leads to, without and with what follows its
/// last dot. A dot at the front of the name begins no extension.
pub open spec fn stem_and_extension(path: Seq<char>) -> (Option<Seq<char>>, Option<Seq<char>>) {
    match file_name(path) {
        Some(n) => match last_at(n, '.') {
            Some(i) => if i == 0 {
                (Some(n), None)
            } else {
                (Some(n.take(i)), Some(n.skip(i + 1)))
            },
            None => (Some(n), None),
        },
        None => (None, None),
    }
}

proof fn lemma_last_piece(a: Seq<char>, b: Seq<char>)
    requires
        !b.contains('/'),
    ensures
        pieces(a + seq!['/'] + b, '/') == pieces(a, '/').push(b),
    decreases b.len(),
{
    if b.len() == 0 {
        assert(a + seq!['/'] + b =~= a.push('/'));
        lemma_pieces_push(a, '/', '/');
        assert(b =~= Seq::<char>::empty());
        assert(pieces(a.push('/'), '/') =~= pieces(a, '/').push(b));
    } else {
        let front = b.drop_last();
        assert forall|i: int| 0 <= i < front.len() implies front[i] != '/' by {
            assert(front[i] == b[i]);
        }
        lemma_last_piece(a, front);
        assert(b.contains(b.last()));
        assert(a + seq!['/'] + b =~= (a + seq!['/'] + front).push(b.last()));
        lemma_pieces_push(a + seq!['/'] + front, b.last(), '/');
        assert(front.push(b.last()) =~= b);
        assert(pieces(a, '/').push(front).drop_last() =~= pieces(a, '/'));
        assert(pieces(a + seq!['/'] + b, '/') =~= pieces(a, '/').push(b));
    }
}

proof fn lemma_one_piece(b: Seq<char>)
    requires
        !b.contains('/'),
    ensures
        pieces(b, '/') == seq![b],
    decreases b.len(),
{
    if b.len() == 0 {
        assert(b =~= Seq::<char>::empty());
        assert(pieces(b, '/') =~= seq![b]);
    } else {
        let front = b.drop_last();
        assert forall|i: int| 0 <= i < front.len() implies front[i] != '/' by {
            assert(front[i] == b[i]);
        }
        lemma_one_piece(front);
        assert(b.contains(b.last()));
        assert(front.push(b.last()) =~= b);
        lemma_pieces_push(front, b.last(), '/');
        assert(pieces(b, '/') =~= seq![b]);
    }
}

/// The name of a file in a directory is the name that was joined to it.
pub proof fn joined_name_is_file_name(dir: Seq<char>, name: Seq<char>)
    requires
        !name.contains('/'),
        name.len() > 2,
    ensures
        file_name(path_joined(dir, name)) == Some(name),
{
    reveal_strlit("/");
    reveal_strlit(".");
    reveal_strlit("..");
    assert(name.contains(name[0]));
    let path = path_joined(dir, name);
    if dir.len() == 0 {
        assert(path =~= name);
        lemma_one_piece(name);
    } else if dir.last() == '/' {
        assert(path =~= dir.drop_last() + seq!['/'] + name);
        lemma_last_piece(dir.drop_last(), name);
    } else {
        assert("/"@ =~= seq!['/']);
        lemma_last_piece(dir, name);
    }
    let parts = pieces(path, '/');
    assert(parts.last() == name);
    assert(components(parts).last() == name);
}

fn find_last(v: &Vec<char>, c: char) -> (r: Option<usize>)
    ensures
        match r {
            Some(i) => last_at(v@, c) == Some(i as int) && i < v.len(),
            None => last_at(v@, c) is None,
        },
{
    let mut i: usize = v.len();
    assert(v@.take(v@.len() as int) =~= v@);
    while i > 0
        invariant
            i <= v.len(),
            last_at(v@, c) == last_at(v@.take(i as int), c),
        decreases i,
    {
        assert(v@.take(i as int).drop_last() =~= v@.take(i - 1));
        if v[i - 1] == c {
            return Some(i - 1);
        }
        i -= 1;
    }
    None
}

/// The stem and the extension of a file's name.
pub fn split_extension(path: &str) -> (r: (Option<String>, Option<String>))
    ensures
        (opt_text(r.0), opt_text(r.1)) == stem_and_extension(path@),
{
    match file_name_of(path) {
        Some(n) => {
            let v = chars_of(n.as_str());
            match find_last(&v, '.') {
                Some(i) => {
                    if i == 0 {
                        return (Some(n), None);
                    }
                    let stem = string_of(&v, 0, i);
                    let extension = string_of(&v, i + 1, v.len());
                    assert(stem@ =~= n@.take(i as int));
                    assert(extension@ =~= n@.skip(i + 1));
                    (Some(stem), Some(extension))
                },
                None => (Some(n), None),
            }
        },
        None => (None, None),
    }
}

} // verus!
