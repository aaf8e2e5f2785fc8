//! JSON values as the library reads them, and their compact notation.
use crate::text::{cat3, join, joined, same, texts};
use vstd::prelude::*;

verus! {

/// A JSON value. A number is kept by its notation, and by its value where that
/// is an unsigned integer. An object is kept by its members in order.
pub enum Json {
    Null,
    Bool(bool),
    Number { notation: String, unsigned: Option<u64> },
    Text(String),
    Array(Vec<Json>),
    Object(Vec<(String, Json)>),
}

/// What a JSON value is.
pub ghost enum Value {
    Null,
    Bool(bool),
    Number { notation: Seq<char>, unsigned: Option<u64> },
    Text(Seq<char>),
    Array(Seq<Value>),
    Object(Seq<(Seq<char>, Value)>),
}

pub open spec fn value_of(j: Json) -> Value
    decreases j,
{
    match j {
        Json::Null => Value::Null,
        Json::Bool(b) => Value::Bool(b),
        Json::Number { notation, unsigned } => Value::Number { notation: notation@, unsigned },
        Json::Text(s) => Value::Text(s@),
        Json::Array(items) => Value::Array(
            Seq::new(
                items@.len(),
                |i: int|
                    if 0 <= i < items@.len() {
                        value_of(items[i])
                    } else {
                        Value::Null
                    },
            ),
        ),
        Json::Object(members) => Value::Object(
            Seq::new(
                members@.len(),
                |i: int|
                    if 0 <= i < members@.len() {
                        (members[i].0@, value_of(members[i].1))
                    } else {
                        (Seq::empty(), Value::Null)
                    },
            ),
        ),
    }
}

impl View for Json {
    type V = Value;

    open spec fn view(&self) -> Value {
        value_of(*self)
    }
}

// ---------------------------------------------------------------------------
// Reading
// ---------------------------------------------------------------------------

/// The position of the first member with the given name.
pub open spec fn member_at(members: Seq<(Seq<char>, Value)>, name: Seq<char>) -> Option<int>
    decreases members.len(),
{
    if members.len() == 0 {
        None
    } else {
        match member_at(members.drop_last(), name) {
            Some(i) => Some(i),
            None => if members.last().0 == name {
                Some(members.len() - 1)
            } else {
                None
            },
        }
    }
}

/// The member of an object with the given name.
pub open spec fn member(v: Value, name: Seq<char>) -> Option<Value> {
    match v {
        Value::Object(members) => match member_at(members, name) {
            Some(i) => Some(members[i].1),
            None => None,
        },
        _ => None,
    }
}

pub open spec fn text_of(v: Option<Value>) -> Option<Seq<char>> {
    match v {
        Some(Value::Text(s)) => Some(s),
        _ => None,
    }
}

pub open spec fn bool_of(v: Option<Value>) -> Option<bool> {
    match v {
        Some(Value::Bool(b)) => Some(b),
        _ => None,
    }
}

pub open spec fn unsigned_of(v: Option<Value>) -> Option<u64> {
    match v {
        Some(Value::Number { unsigned, .. }) => unsigned,
        _ => None,
    }
}

pub open spec fn items_of(v: Option<Value>) -> Option<Seq<Value>> {
    match v {
        Some(Value::Array(items)) => Some(items),
        _ => None,
    }
}

/// The text of the named member, empty where there is none.
pub open spec fn text_or_empty(v: Value, name: Seq<char>) -> Seq<char> {
    match text_of(member(v, name)) {
        Some(s) => s,
        None => Seq::empty(),
    }
}

impl Json {
    /// The member with the given name, where this is an object that has one.
    pub fn get(&self, name: &str) -> (r: Option<&Json>)
        ensures
            r is Some <==> member(self@, name@) is Some,
            r matches Some(j) ==> member(self@, name@) == Some(j@),
    {
        match self {
            Json::Object(members) => {
                let ghost all = self@->Object_0;
                assert(all.take(0) =~= Seq::empty());
                for i in 0..members.len()
                    invariant
                        *self == Json::Object(*members),
                        self@ == Value::Object(all),
                        all.len() == members.len(),
                        member_at(all.take(i as int), name@) is None,
                {
                    assert(all[i as int].0 == members@[i as int].0@);
                    assert(all[i as int].1 == members@[i as int].1@);
                    assert(all.take(i + 1).drop_last() =~= all.take(i as int));
                    if same(members[i].0.as_str(), name) {
                        proof {
                            lemma_member_first(all, name@, i as int);
                        }
                        return Some(&members[i].1);
                    }
                }
                assert(all.take(all.len() as int) =~= all);
                None
            },
            _ => None,
        }
    }

    pub fn as_str(&self) -> (r: Option<&String>)
        ensures
            r is Some <==> self@ is Text,
            r matches Some(s) ==> self@ == Value::Text(s@),
    {
        match self {
            Json::Text(s) => Some(s),
            _ => None,
        }
    }

    pub fn as_bool(&self) -> (r: Option<bool>)
        ensures
            r == bool_of(Some(self@)),
    {
        match self {
            Json::Bool(b) => Some(*b),
            _ => None,
        }
    }

    pub fn as_u64(&self) -> (r: Option<u64>)
        ensures
            r == unsigned_of(Some(self@)),
    {
        match self {
            Json::Number { unsigned, .. } => *unsigned,
            _ => None,
        }
    }

    pub fn as_array(&self) -> (r: Option<&Vec<Json>>)
        ensures
            r is Some <==> self@ is Array,
            r matches Some(items) ==> self@ == Value::Array(values(items@)),
    {
        match self {
            Json::Array(items) => {
                assert(values(items@) =~= self@->Array_0);
                Some(items)
            },
            _ => None,
        }
    }

    /// The text of the named member.
    pub fn text_at(&self, name: &str) -> (r: Option<String>)
        ensures
            r is Some <==> text_of(member(self@, name@)) is Some,
            r matches Some(s) ==> text_of(member(self@, name@)) == Some(s@),
    {
        match self.get(name) {
            Some(j) => match j.as_str() {
                Some(s) => Some(s.clone()),
                None => None,
            },
            None => None,
        }
    }

    /// The text of the named member, empty where there is none.
    pub fn text_or_empty_at(&self, name: &str) -> (r: String)
        ensures
            r@ == text_or_empty(self@, name@),
    {
        match self.text_at(name) {
            Some(s) => s,
            None => String::new(),
        }
    }

    pub fn bool_at(&self, name: &str) -> (r: Option<bool>)
        ensures
            r == bool_of(member(self@, name@)),
    {
        match self.get(name) {
            Some(j) => j.as_bool(),
            None => None,
        }
    }

    pub fn u64_at(&self, name: &str) -> (r: Option<u64>)
        ensures
            r == unsigned_of(member(self@, name@)),
    {
        match self.get(name) {
            Some(j) => j.as_u64(),
            None => None,
        }
    }

    pub fn array_at(&self, name: &str) -> (r: Option<&Vec<Json>>)
        ensures
            r is Some <==> items_of(member(self@, name@)) is Some,
            r matches Some(items) ==> items_of(member(self@, name@)) == Some(values(items@)),
    {
        match self.get(name) {
            Some(j) => j.as_array(),
            None => None,
        }
    }

    /// A copy.
    pub fn copy(&self) -> (r: Json)
        ensures
            r@ == self@,
        decreases self,
    {
        match self {
            Json::Null => Json::Null,
            Json::Bool(b) => Json::Bool(*b),
            Json::Number { notation, unsigned } => Json::Number {
                notation: notation.clone(),
                unsigned: *unsigned,
            },
            Json::Text(s) => Json::Text(s.clone()),
            Json::Array(items) => {
                let mut out: Vec<Json> = Vec::new();
                for i in 0..items.len()
                    invariant
                        decreases_to!(self => items),
                        out@.len() == i,
                        forall|k: int| 0 <= k < i ==> (#[trigger] out@[k])@ == items@[k]@,
                {
                    out.push(items[i].copy());
                }
                let r = Json::Array(out);
                assert(r@->Array_0 =~= self@->Array_0);
                r
            },
            Json::Object(members) => {
                let mut out: Vec<(String, Json)> = Vec::new();
                for i in 0..members.len()
                    invariant
                        decreases_to!(self => members),
                        out@.len() == i,
                        forall|k: int|
                            0 <= k < i ==> (#[trigger] out@[k]).0@ == members@[k].0@ && out@[k].1@
                                == members@[k].1@,
                {
                    out.push((members[i].0.clone(), members[i].1.copy()));
                }
                let r = Json::Object(out);
                assert(r@->Object_0 =~= self@->Object_0);
                r
            },
        }
    }
}

proof fn lemma_member_first(members: Seq<(Seq<char>, Value)>, name: Seq<char>, i: int)
    requires
        0 <= i < members.len(),
        members[i].0 == name,
        member_at(members.take(i), name) is None,
    ensures
        member_at(members, name) == Some(i),
    decreases members.len(),
{
    if i == members.len() - 1 {
        assert(members.take(i) =~= members.drop_last());
    } else {
        assert(members.drop_last().take(i) =~= members.take(i));
        lemma_member_first(members.drop_last(), name, i);
    }
}

/// What a list of values holds.
pub open spec fn values(items: Seq<Json>) -> Seq<Value> {
    items.map_values(|j: Json| j@)
}

// ---------------------------------------------------------------------------
// Notation
// ---------------------------------------------------------------------------

pub open spec fn hex_digit(d: int) -> char {
    if d < 10 {
        (('0' as int) + d) as char
    } else {
        (('a' as int) + d - 10) as char
    }
}

/// How one character stands inside a JSON string.
pub open spec fn escape(c: char) -> Seq<char> {
    if c == '"' || c == '\\' {
        seq!['\\', c]
    } else if c == '\u{8}' {
        seq!['\\', 'b']
    } else if c == '\u{9}' {
        seq!['\\', 't']
    } else if c == '\u{a}' {
        seq!['\\', 'n']
    } else if c == '\u{c}' {
        seq!['\\', 'f']
    } else if c == '\u{d}' {
        seq!['\\', 'r']
    } else if ' ' > c {
        seq!['\\', 'u', '0', '0', hex_digit(c as int / 16), hex_digit(c as int % 16)]
    } else {
        seq![c]
    }
}

pub open spec fn escaped(s: Seq<char>) -> Seq<char>
    decreases s.len(),
{
    if s.len() == 0 {
        Seq::empty()
    } else {
        escaped(s.drop_last()) + escape(s.last())
    }
}

/// A text as a JSON string.
pub open spec fn quoted(s: Seq<char>) -> Seq<char> {
    seq!['"'] + escaped(s) + seq!['"']
}

/// `serde_json::to_string` on a `str`. It writes a quotation mark, then each
/// character as `escape` says, then a quotation mark; writing a `str` to memory
/// never fails.
#[verifier::external_body]
pub(crate) fn quote(s: &str) -> (r: String)
    ensures
        r@ == quoted(s@),
{
    serde_json::to_string(s).unwrap_or_default()
}

/// The compact notation of a value, without white space between the parts.
pub open spec fn notation(v: Value) -> Seq<char>
    decreases v,
{
    match v {
        Value::Null => "null"@,
        Value::Bool(b) => if b {
            "true"@
        } else {
            "false"@
        },
        Value::Number { notation, .. } => notation,
        Value::Text(s) => quoted(s),
        Value::Array(items) => "["@ + joined(item_notations(items), ","@) + "]"@,
        Value::Object(members) => "{"@ + joined(member_notations(members), ","@) + "}"@,
    }
}

pub open spec fn item_notations(items: Seq<Value>) -> Seq<Seq<char>>
    decreases items,
{
    if items.len() == 0 {
        Seq::empty()
    } else {
        item_notations(items.drop_last()).push(notation(items.last()))
    }
}

pub open spec fn member_notations(members: Seq<(Seq<char>, Value)>) -> Seq<Seq<char>>
    decreases members,
{
    if members.len() == 0 {
        Seq::empty()
    } else {
        member_notations(members.drop_last()).push(
            quoted(members.last().0) + ":"@ + notation(members.last().1),
        )
    }
}

impl Json {
    /// The compact notation.
    pub fn to_text(&self) -> (r: String)
        ensures
            r@ == notation(self@),
        decreases self,
    {
        match self {
            Json::Null => "null".to_string(),
            Json::Bool(b) => if *b {
                "true".to_string()
            } else {
                "false".to_string()
            },
            Json::Number { notation, .. } => notation.clone(),
            Json::Text(s) => quote(s.as_str()),
            Json::Array(items) => {
                let mut parts: Vec<String> = Vec::new();
                let ghost all = self@->Array_0;
                assert(texts(parts@) =~= item_notations(all.take(0)));
                for i in 0..items.len()
                    invariant
                        decreases_to!(self => items),
                        *self == Json::Array(*items),
                        self@ == Value::Array(all),
                        all.len() == items.len(),
                        texts(parts@) == item_notations(all.take(i as int)),
                {
                    let ghost before = texts(parts@);
                    let part = items[i].to_text();
                    parts.push(part);
                    assert(texts(parts@) =~= before.push(part@));
                    assert(all.take(i + 1).drop_last() =~= all.take(i as int));
                    assert(all[i as int] == items@[i as int]@);
                }
                assert(all.take(all.len() as int) =~= all);
                let inner = join(&parts, ",");
                cat3("[", inner.as_str(), "]")
            },
            Json::Object(members) => {
                let mut parts: Vec<String> = Vec::new();
                let ghost all = self@->Object_0;
                assert(texts(parts@) =~= member_notations(all.take(0)));
                for i in 0..members.len()
                    invariant
                        decreases_to!(self => members),
                        *self == Json::Object(*members),
                        self@ == Value::Object(all),
                        all.len() == members.len(),
                        texts(parts@) == member_notations(all.take(i as int)),
                {
                    let ghost before = texts(parts@);
                    let name = quote(members[i].0.as_str());
                    let value = members[i].1.to_text();
                    let part = cat3(name.as_str(), ":", value.as_str());
                    parts.push(part);
                    assert(texts(parts@) =~= before.push(part@));
                    assert(all.take(i + 1).drop_last() =~= all.take(i as int));
                    assert(all[i as int].0 == members@[i as int].0@);
                    assert(all[i as int].1 == members@[i as int].1@);
                }
                assert(all.take(all.len() as int) =~= all);
                let inner = join(&parts, ",");
                cat3("{", inner.as_str(), "}")
            },
        }
    }
}

/// Of several members with one name the first counts, and a member is not hidden by
/// one with another name. What is no object has no member.
pub proof fn the_first_member_of_a_name_counts(
    name: Seq<char>,
    v: Value,
    rest: Seq<(Seq<char>, Value)>,
    other: Seq<char>,
    plain: Value,
)
    requires
        !(plain is Object),
    ensures
        member(Value::Object(seq![(name, v)] + rest), name) == Some(v),
        other != name ==> member(Value::Object(seq![(name, v)] + rest), other) == member(
            Value::Object(rest),
            other,
        ),
        member(Value::Object(Seq::empty()), other) is None,
        member(plain, other) is None,
{
    lemma_member_at_front(name, v, rest, name);
    lemma_member_at_front(name, v, rest, other);
}

proof fn lemma_member_at_front(
    name: Seq<char>,
    v: Value,
    rest: Seq<(Seq<char>, Value)>,
    key: Seq<char>,
)
    ensures
        member_at(seq![(name, v)] + rest, key) == if key == name {
            Some(0int)
        } else {
            match member_at(rest, key) {
                Some(i) => Some(i + 1),
                None => None,
            }
        },
        member_at(rest, key) matches Some(i) ==> 0 <= i < rest.len(),
    decreases rest.len(),
{
    let all = seq![(name, v)] + rest;
    if rest.len() == 0 {
        reveal_with_fuel(member_at, 2);
        assert(all.drop_last() =~= Seq::empty());
        assert(all.last() == (name, v));
    } else {
        assert(all.drop_last() =~= seq![(name, v)] + rest.drop_last());
        assert(all.last() == rest.last());
        lemma_member_at_front(name, v, rest.drop_last(), key);
    }
}

/// A list is written in brackets, its items in order with commas between them, and
/// an object in braces, each member as its name, a colon and its value.
pub proof fn items_are_written_in_order(
    items: Seq<Value>,
    x: Value,
    members: Seq<(Seq<char>, Value)>,
    name: Seq<char>,
)
    ensures
        notation(Value::Array(Seq::empty())) == "[]"@,
        notation(Value::Array(seq![x])) == "["@ + notation(x) + "]"@,
        items.len() > 0 ==> notation(Value::Array(items.push(x))) == notation(
            Value::Array(items),
        ).drop_last() + ","@ + notation(x) + "]"@,
        notation(Value::Object(Seq::empty())) == "{}"@,
        notation(Value::Object(seq![(name, x)])) == "{"@ + (quoted(name) + ":"@ + notation(x))
            + "}"@,
        members.len() > 0 ==> notation(Value::Object(members.push((name, x)))) == notation(
            Value::Object(members),
        ).drop_last() + ","@ + (quoted(name) + ":"@ + notation(x)) + "}"@,
{
    reveal_strlit("[");
    reveal_strlit("]");
    reveal_strlit("[]");
    reveal_strlit("{");
    reveal_strlit("}");
    reveal_strlit("{}");
    assert("["@ + Seq::<char>::empty() + "]"@ =~= "[]"@);
    assert("{"@ + Seq::<char>::empty() + "}"@ =~= "{}"@);
    reveal_with_fuel(item_notations, 2);
    reveal_with_fuel(member_notations, 2);
    assert(seq![x].drop_last() =~= Seq::<Value>::empty());
    assert(item_notations(seq![x]) =~= seq![notation(x)]);
    let m = quoted(name) + ":"@ + notation(x);
    assert(seq![(name, x)].drop_last() =~= Seq::<(Seq<char>, Value)>::empty());
    assert(member_notations(seq![(name, x)]) =~= seq![m]);
    if items.len() > 0 {
        let a = item_notations(items);
        assert(items.push(x).drop_last() =~= items);
        assert(a.push(notation(x)).drop_last() =~= a);
        assert(notation(Value::Array(items)).drop_last() =~= "["@ + joined(a, ","@));
        assert(a.len() > 0);
        assert(notation(Value::Array(items.push(x))) =~= "["@ + joined(a, ","@) + ","@ + notation(x)
            + "]"@);
    }
    if members.len() > 0 {
        let a = member_notations(members);
        assert(members.push((name, x)).drop_last() =~= members);
        assert(a.push(m).drop_last() =~= a);
        assert(notation(Value::Object(members)).drop_last() =~= "{"@ + joined(a, ","@));
        assert(a.len() > 0);
        assert(notation(Value::Object(members.push((name, x)))) =~= "{"@ + joined(a, ","@) + ","@ + m
            + "}"@);
    }
}

} // verus!
