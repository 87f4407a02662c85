//! JSON values as the application reads and writes them.

use serde_json::Value;
use vstd::prelude::*;

use crate::text::same_text;
use crate::text::{opt_text, text_before, texts};

verus! {

/// A JSON value. An object's members stand in the order in which they are
/// walked; a number that is not a whole number that fits is kept as its text.
#[derive(Debug, PartialEq, Eq)]
pub enum Json {
    Null,
    Bool(bool),
    Unsigned(u64),
    Negative(i64),
    Fraction(String),
    Text(String),
    Array(Vec<Json>),
    Object(Vec<(String, Json)>),
}

/// What a JSON value says.
pub enum JsonTree {
    Null,
    Bool(bool),
    Unsigned(u64),
    Negative(i64),
    Fraction(Seq<char>),
    Text(Seq<char>),
    Array(Seq<JsonTree>),
    Object(Seq<(Seq<char>, JsonTree)>),
}

impl Json {
    pub open spec fn view(self) -> JsonTree
        decreases self,
    {
        match self {
            Json::Null => JsonTree::Null,
            Json::Bool(b) => JsonTree::Bool(b),
            Json::Unsigned(n) => JsonTree::Unsigned(n),
            Json::Negative(n) => JsonTree::Negative(n),
            Json::Fraction(s) => JsonTree::Fraction(s@),
            Json::Text(s) => JsonTree::Text(s@),
            Json::Array(v) => JsonTree::Array(
                Seq::new(
                    v@.len(),
                    |i: int|
                        if 0 <= i < v@.len() {
                            v@[i].view()
                        } else {
                            JsonTree::Null
                        },
                ),
            ),
            Json::Object(v) => JsonTree::Object(
                Seq::new(
                    v@.len(),
                    |i: int|
                        if 0 <= i < v@.len() {
                            (v@[i].0@, v@[i].1.view())
                        } else {
                            (Seq::empty(), JsonTree::Null)
                        },
                ),
            ),
        }
    }
}

/// What a list of JSON values says.
pub open spec fn trees(v: Seq<Json>) -> Seq<JsonTree> {
    Seq::new(
        v.len(),
        |i: int|
            if 0 <= i < v.len() {
                v[i].view()
            } else {
                JsonTree::Null
            },
    )
}

/// What the members of an object say.
pub open spec fn members(v: Seq<(String, Json)>) -> Seq<(Seq<char>, JsonTree)> {
    Seq::new(
        v.len(),
        |i: int|
            if 0 <= i < v.len() {
                (v[i].0@, v[i].1.view())
            } else {
                (Seq::empty(), JsonTree::Null)
            },
    )
}

/// What an array says is what its elements say.
pub broadcast proof fn lemma_array_view(v: Vec<Json>)
    ensures
        #[trigger] Json::Array(v)@ == JsonTree::Array(trees(v@)),
{
    let t = Json::Array(v)@;
    assert(t is Array);
    assert(t->Array_0 =~= trees(v@));
}

/// What an object says is what its members say.
pub broadcast proof fn lemma_object_view(v: Vec<(String, Json)>)
    ensures
        #[trigger] Json::Object(v)@ == JsonTree::Object(members(v@)),
{
    let t = Json::Object(v)@;
    assert(t is Object);
    assert(t->Object_0 =~= members(v@));
}

/// What arrays and objects say.
pub broadcast group group_json_views {
    lemma_array_view,
    lemma_object_view,
}

/// An object of these members, built up one at a time.
pub fn object() -> (r: Vec<(String, Json)>)
    ensures
        members(r@) == Seq::<(Seq<char>, JsonTree)>::empty(),
{
    let v: Vec<(String, Json)> = Vec::new();
    assert(members(v@) == Seq::<(Seq<char>, JsonTree)>::empty());
    v
}

/// Adds a member at the end.
pub fn put(m: &mut Vec<(String, Json)>, key: &str, value: Json)
    ensures
        members(final(m)@) == members(old(m)@).push((key@, value@)),
{
    m.push((key.to_owned(), value));
    assert(members(m@) == members(old(m)@).push((key@, value@)));
}

/// A text as a JSON value.
pub fn text(s: &str) -> (r: Json)
    ensures
        r@ == JsonTree::Text(s@),
{
    Json::Text(s.to_owned())
}

/// A text as a JSON value, or null.
pub fn text_or_null(s: &Option<String>) -> (r: Json)
    ensures
        r@ == text_tree(opt_text(*s)),
{
    match s {
        Some(s) => Json::Text(s.clone()),
        None => Json::Null,
    }
}

/// A text as a JSON value, or null.
pub open spec fn text_tree(s: Option<Seq<char>>) -> JsonTree {
    match s {
        Some(t) => JsonTree::Text(t),
        None => JsonTree::Null,
    }
}

/// Texts as a JSON array.
pub open spec fn text_array(v: Seq<Seq<char>>) -> JsonTree {
    JsonTree::Array(v.map_values(|s: Seq<char>| JsonTree::Text(s)))
}

/// Texts as a JSON array.
pub fn texts_json(v: &Vec<String>) -> (r: Json)
    ensures
        r@ == text_array(texts(v@)),
{
    let mut out: Vec<Json> = Vec::new();
    let mut i: usize = 0;
    while i < v.len()
        invariant
            i <= v.len(),
            out.len() == i,
            forall|k: int| 0 <= k < i ==> (#[trigger] out@[k])@ == JsonTree::Text(v@[k]@),
        decreases v.len() - i,
    {
        out.push(Json::Text(v[i].clone()));
        i += 1;
    }
    let r = Json::Array(out);
    proof {
        lemma_array_view(out);
    }
    assert(trees(out@) == texts(v@).map_values(|s: Seq<char>| JsonTree::Text(s)));
    r
}

/// The first member named `key` at or behind `from`.
pub open spec fn member_from(
    m: Seq<(Seq<char>, JsonTree)>,
    key: Seq<char>,
    from: int,
) -> Option<JsonTree>
    decreases m.len() - from,
{
    if from < 0 || from >= m.len() {
        None
    } else if m[from].0 == key {
        Some(m[from].1)
    } else {
        member_from(m, key, from + 1)
    }
}

impl JsonTree {
    /// The member named `key`, where this is an object that has one.
    pub open spec fn member(self, key: Seq<char>) -> Option<JsonTree> {
        match self {
            JsonTree::Object(m) => member_from(m, key, 0),
            _ => None,
        }
    }

    /// The member named `key`, or null.
    pub open spec fn at(self, key: Seq<char>) -> JsonTree {
        match self.member(key) {
            Some(t) => t,
            None => JsonTree::Null,
        }
    }

    pub open spec fn text(self) -> Option<Seq<char>> {
        match self {
            JsonTree::Text(s) => Some(s),
            _ => None,
        }
    }

    pub open spec fn boolean(self) -> Option<bool> {
        match self {
            JsonTree::Bool(b) => Some(b),
            _ => None,
        }
    }

    pub open spec fn unsigned(self) -> Option<u64> {
        match self {
            JsonTree::Unsigned(n) => Some(n),
            _ => None,
        }
    }

    pub open spec fn array(self) -> Option<Seq<JsonTree>> {
        match self {
            JsonTree::Array(a) => Some(a),
            _ => None,
        }
    }

    pub open spec fn object(self) -> Option<Seq<(Seq<char>, JsonTree)>> {
        match self {
            JsonTree::Object(m) => Some(m),
            _ => None,
        }
    }
}

/// A tree that `serde_json::Value` holds as it is: the keys of each object
/// stand in their order without repetition, a negative number is negative, and
/// every number is whole.
pub open spec fn plain_tree(t: JsonTree) -> bool
    decreases t,
{
    match t {
        JsonTree::Negative(n) => n < 0,
        JsonTree::Fraction(_) => false,
        JsonTree::Array(a) => forall|i: int| 0 <= i < a.len() ==> plain_tree(#[trigger] a[i]),
        JsonTree::Object(m) => {
            &&& forall|i: int| 0 <= i < m.len() ==> plain_tree((#[trigger] m[i]).1)
            &&& forall|i: int, j: int|
                0 <= i < j < m.len() ==> text_before((#[trigger] m[i]).0, (#[trigger] m[j]).0)
        },
        _ => true,
    }
}

/// The JSON value type of `serde_json`.
#[verifier::external_type_specification]
#[verifier::external_body]
pub struct ExValue(serde_json::Value);

/// What a `serde_json::Value` holds.
pub uninterp spec fn value_tree(value: serde_json::Value) -> JsonTree;

/// What `serde_json::from_str` makes of a text: what the value holds, or the
/// error in words.
pub uninterp spec fn parsed_json(text: Seq<char>) -> Result<JsonTree, Seq<char>>;

/// What `serde_json::from_slice` makes of bytes: what the value holds, or
/// nothing where they write none.
pub uninterp spec fn parsed_bytes(bytes: Seq<u8>) -> Option<JsonTree>;

/// What `serde_json::to_vec` writes for a value: the bytes, or the error in
/// words.
pub uninterp spec fn rendered_json(tree: JsonTree) -> Result<Seq<u8>, Seq<char>>;

/// What the `serde_json::Value` that is put together out of a tree holds, or the
/// error in words where a fraction of it is no number.
pub uninterp spec fn held_tree(tree: JsonTree) -> Result<JsonTree, Seq<char>>;

/// `serde_json::Value` taken apart: each variant and each element as it is, the
/// members of an object in the order in which its map is walked. A whole
/// number that fits is a number, any other is the text that `Number` prints.
#[verifier::external_body]
fn json_of_value(value: serde_json::Value) -> (r: Json)
    ensures
        r@ == value_tree(value),
{
    match value {
        Value::Null => Json::Null,
        Value::Bool(b) => Json::Bool(b),
        Value::Number(n) => match (n.as_u64(), n.as_i64()) {
            (Some(u), _) => Json::Unsigned(u),
            (None, Some(i)) => Json::Negative(i),
            (None, None) => Json::Fraction(n.to_string()),
        },
        Value::String(s) => Json::Text(s),
        Value::Array(a) => Json::Array(a.into_iter().map(json_of_value).collect()),
        Value::Object(o) => Json::Object(o.into_iter().map(|(k, v)| (k, json_of_value(v))).collect()),
    }
}

/// A `serde_json::Value` put together: each variant and each element as it is,
/// and a fraction as the `Number` that its text writes, or the error of reading
/// it. What the value holds is a function of the tree alone, and it holds a plain
/// tree as that tree stands. Of any other tree no more is said: `serde_json` sorts
/// the keys of an object and keeps one of equal ones.
#[verifier::external_body]
fn value_of_json(json: &Json) -> (r: Result<serde_json::Value, String>)
    ensures
        match r {
            Ok(v) => held_tree(json@) == Ok::<_, Seq<char>>(value_tree(v)),
            Err(e) => held_tree(json@) == Err::<JsonTree, _>(e@),
        },
        plain_tree(json@) ==> r is Ok,
        plain_tree(json@) ==> value_tree(r->Ok_0) == json@,
{
    Ok(match json {
        Json::Null => Value::Null,
        Json::Bool(b) => Value::Bool(*b),
        Json::Unsigned(n) => Value::from(*n),
        Json::Negative(n) => Value::from(*n),
        Json::Fraction(s) => s.parse().map(Value::Number).map_err(|e| e.to_string())?,
        Json::Text(s) => Value::String(s.clone()),
        Json::Array(a) => Value::Array(a.iter().map(value_of_json).collect::<Result<_, _>>()?),
        Json::Object(o) => o
            .iter()
            .map(|(k, v)| Ok((k.clone(), value_of_json(v)?)))
            .collect::<Result<_, String>>()?,
    })
}

/// `serde_json::from_str::<serde_json::Value>`: what it gives for a text is a
/// function of that text alone.
#[verifier::external_body]
fn value_of_text(text: &str) -> (r: Result<serde_json::Value, String>)
    ensures
        match r {
            Ok(v) => parsed_json(text@) == Ok::<_, Seq<char>>(value_tree(v)),
            Err(e) => parsed_json(text@) == Err::<JsonTree, _>(e@),
        },
{
    serde_json::from_str::<Value>(text).map_err(|e| e.to_string())
}

/// `serde_json::from_slice::<serde_json::Value>`: what it gives for bytes is a
/// function of those bytes alone. Why it gives nothing is dropped.
#[verifier::external_body]
fn value_of_bytes(bytes: &[u8]) -> (r: Option<serde_json::Value>)
    ensures
        match r {
            Some(v) => parsed_bytes(bytes@) == Some(value_tree(v)),
            None => parsed_bytes(bytes@) is None,
        },
{
    serde_json::from_slice::<Value>(bytes).ok()
}

/// `serde_json::to_vec`, the compact form: the bytes for a value are a function
/// of what it holds, and none of them is a line feed, since the compact form
/// has no white space and the control characters in a string are escaped.
#[verifier::external_body]
fn bytes_of_value(value: &serde_json::Value) -> (r: Result<Vec<u8>, String>)
    ensures
        match r {
            Ok(b) => rendered_json(value_tree(*value)) == Ok::<_, Seq<char>>(b@) && !b@.contains(
                10u8,
            ),
            Err(e) => rendered_json(value_tree(*value)) == Err::<Seq<u8>, _>(e@),
        },
{
    serde_json::to_vec(value).map_err(|e| e.to_string())
}

/// The JSON value that `text` writes, or why it writes none.
pub fn parse(text: &str) -> (r: Result<Json, String>)
    ensures
        match r {
            Ok(j) => parsed_json(text@) == Ok::<_, Seq<char>>(j@),
            Err(e) => parsed_json(text@) == Err::<JsonTree, _>(e@),
        },
{
    match value_of_text(text) {
        Ok(v) => Ok(json_of_value(v)),
        Err(e) => Err(e),
    }
}

/// The JSON value that `bytes` write, where they write one.
pub fn parse_bytes(bytes: &[u8]) -> (r: Option<Json>)
    ensures
        match r {
            Some(j) => parsed_bytes(bytes@) == Some(j@),
            None => parsed_bytes(bytes@) is None,
        },
{
    match value_of_bytes(bytes) {
        Some(v) => Some(json_of_value(v)),
        None => None,
    }
}

/// A number as a JSON value.
pub open spec fn int_tree(n: int) -> JsonTree {
    if n < 0 {
        JsonTree::Negative(n as i64)
    } else {
        JsonTree::Unsigned(n as u64)
    }
}

/// A number as a JSON value.
pub fn int_json(n: i32) -> (r: Json)
    ensures
        r@ == int_tree(n as int),
{
    if n < 0 {
        Json::Negative(n as i64)
    } else {
        Json::Unsigned(n as u64)
    }
}

/// The compact bytes that write a tree, or why there are none.
pub open spec fn written(tree: JsonTree) -> Result<Seq<u8>, Seq<char>> {
    match held_tree(tree) {
        Ok(t) => rendered_json(t),
        Err(e) => Err(e),
    }
}

/// The compact bytes that write `json`, on one line.
pub fn render(json: &Json) -> (r: Result<Vec<u8>, String>)
    ensures
        match r {
            Ok(b) => !b@.contains(10u8) && written(json@) == Ok::<_, Seq<char>>(b@),
            Err(e) => written(json@) == Err::<Seq<u8>, _>(e@),
        },
        plain_tree(json@) ==> written(json@) == rendered_json(json@),
{
    match value_of_json(json) {
        Ok(v) => bytes_of_value(&v),
        Err(e) => Err(e),
    }
}

impl Json {
    /// The value as an object's member, taken out of it.
    pub fn take(self, key: &str) -> (r: Option<Json>)
        ensures
            match r {
                Some(j) => self@.member(key@) == Some(j@),
                None => self@.member(key@) is None,
            },
    {
        match self {
            Json::Object(v) => {
                let ghost m = members(v@);
                proof {
                    lemma_object_view(v);
                }
                let mut w = v;
                let mut i: usize = 0;
                while i < w.len()
                    invariant
                        i <= w.len(),
                        self@ == JsonTree::Object(m),
                        m == members(w@),
                        member_from(m, key@, 0) == member_from(m, key@, i as int),
                    decreases w.len() - i,
                {
                    if same_text(w[i].0.as_str(), key) {
                        let (_, j) = w.swap_remove(i);
                        return Some(j);
                    }
                    i += 1;
                }
                None
            },
            _ => None,
        }
    }

    /// The member named `key`, where this is an object that has one.
    pub fn get<'a>(&'a self, key: &str) -> (r: Option<&'a Json>)
        ensures
            match r {
                Some(j) => self@.member(key@) == Some(j@),
                None => self@.member(key@) is None,
            },
    {
        match self {
            Json::Object(v) => {
                let ghost m = members(v@);
                proof {
                    lemma_object_view(*v);
                }
                let mut i: usize = 0;
                while i < v.len()
                    invariant
                        i <= v.len(),
                        self@ == JsonTree::Object(m),
                        m == members(v@),
                        member_from(m, key@, 0) == member_from(m, key@, i as int),
                    decreases v.len() - i,
                {
                    if same_text(v[i].0.as_str(), key) {
                        return Some(&v[i].1);
                    }
                    i += 1;
                }
                None
            },
            _ => None,
        }
    }

    pub fn as_str<'a>(&'a self) -> (r: Option<&'a str>)
        ensures
            crate::text::opt_str_text(r) == self@.text(),
    {
        match self {
            Json::Text(s) => Some(s.as_str()),
            _ => None,
        }
    }

    pub fn as_bool(&self) -> (r: Option<bool>)
        ensures
            r == self@.boolean(),
    {
        match self {
            Json::Bool(b) => Some(*b),
            _ => None,
        }
    }

    pub fn as_u64(&self) -> (r: Option<u64>)
        ensures
            r == self@.unsigned(),
    {
        match self {
            Json::Unsigned(n) => Some(*n),
            _ => None,
        }
    }

    pub fn as_array<'a>(&'a self) -> (r: Option<&'a Vec<Json>>)
        ensures
            match r {
                Some(v) => self@.array() == Some(trees(v@)),
                None => self@.array() is None,
            },
    {
        match self {
            Json::Array(v) => {
                proof {
                    lemma_array_view(*v);
                }
                Some(v)
            },
            _ => None,
        }
    }

    pub fn as_object<'a>(&'a self) -> (r: Option<&'a Vec<(String, Json)>>)
        ensures
            match r {
                Some(v) => self@.object() == Some(members(v@)),
                None => self@.object() is None,
            },
    {
        match self {
            Json::Object(v) => {
                proof {
                    lemma_object_view(*v);
                }
                Some(v)
            },
            _ => None,
        }
    }
}

impl Json {
    /// A second value that says the same.
    pub fn duplicate(&self) -> (r: Json)
        ensures
            r@ == self@,
        decreases self,
    {
        match self {
            Json::Null => Json::Null,
            Json::Bool(b) => Json::Bool(*b),
            Json::Unsigned(n) => Json::Unsigned(*n),
            Json::Negative(n) => Json::Negative(*n),
            Json::Fraction(s) => Json::Fraction(s.clone()),
            Json::Text(s) => Json::Text(s.clone()),
            Json::Array(v) => {
                let mut out: Vec<Json> = Vec::new();
                let mut i: usize = 0;
                while i < v.len()
                    invariant
                        i <= v.len(),
                        *self == Json::Array(*v),
                        trees(out@) == trees(v@).take(i as int),
                    decreases v.len() - i,
                {
                    let ghost was = out@;
                    assert(decreases_to!(*self => self->Array_0));
                    assert(decreases_to!(*v => v@));
                    assert(decreases_to!(v@ => v@[i as int]));
                    let j = v[i].duplicate();
                    out.push(j);
                    assert(trees(out@) =~= trees(was).push(j@));
                    assert(trees(v@).take(i + 1) =~= trees(v@).take(i as int).push(v@[i as int]@));
                    i += 1;
                }
                proof {
                    assert(trees(v@).take(v.len() as int) =~= trees(v@));
                    lemma_array_view(out);
                    lemma_array_view(*v);
                }
                Json::Array(out)
            },
            Json::Object(v) => {
                let mut out: Vec<(String, Json)> = Vec::new();
                let mut i: usize = 0;
                while i < v.len()
                    invariant
                        i <= v.len(),
                        *self == Json::Object(*v),
                        members(out@) == members(v@).take(i as int),
                    decreases v.len() - i,
                {
                    let ghost was = out@;
                    let k = v[i].0.clone();
                    assert(decreases_to!(*self => self->Object_0));
                    assert(decreases_to!(*v => v@));
                    assert(decreases_to!(v@ => v@[i as int]));
                    assert(decreases_to!(v@[i as int] => v@[i as int].1));
                    let j = v[i].1.duplicate();
                    let ghost e = (k@, j@);
                    out.push((k, j));
                    assert(members(out@) =~= members(was).push(e));
                    assert(members(v@).take(i + 1) =~= members(v@).take(i as int).push(
                        (v@[i as int].0@, v@[i as int].1@),
                    ));
                    i += 1;
                }
                proof {
                    assert(members(v@).take(v.len() as int) =~= members(v@));
                    lemma_object_view(out);
                    lemma_object_view(*v);
                }
                Json::Object(out)
            },
        }
    }
}

/// A member is the first of its name, and there is none exactly where no member
/// has the name; what is no object has no members.
pub proof fn law_member_is_the_first_of_its_name(m: Seq<(Seq<char>, JsonTree)>, key: Seq<char>)
    ensures
        match JsonTree::Object(m).member(key) {
            Some(v) => exists|i: int|
                0 <= i < m.len() && #[trigger] m[i] == (key, v) && forall|j: int|
                    0 <= j < i ==> (#[trigger] m[j]).0 != key,
            None => forall|i: int| 0 <= i < m.len() ==> (#[trigger] m[i]).0 != key,
        },
        JsonTree::Null.member(key) is None,
{
    lemma_member_from(m, key, 0);
}

proof fn lemma_member_from(m: Seq<(Seq<char>, JsonTree)>, key: Seq<char>, from: int)
    requires
        0 <= from,
    ensures
        match member_from(m, key, from) {
            Some(v) => exists|i: int|
                from <= i < m.len() && #[trigger] m[i] == (key, v) && forall|j: int|
                    from <= j < i ==> (#[trigger] m[j]).0 != key,
            None => forall|i: int| from <= i < m.len() ==> (#[trigger] m[i]).0 != key,
        },
    decreases m.len() - from,
{
    if from < m.len() {
        if m[from].0 != key {
            lemma_member_from(m, key, from + 1);
        } else {
            assert(m[from] == (key, m[from].1));
        }
    }
}

/// A number is written as itself, with or without a sign, and a text that is not
/// there as null.
pub proof fn law_values_are_written_as_they_are(n: i32, s: Option<Seq<char>>, v: Seq<Seq<char>>)
    ensures
        match int_tree(n as int) {
            JsonTree::Unsigned(u) => u == n,
            JsonTree::Negative(i) => i == n && n < 0,
            _ => false,
        },
        text_tree(s).text() == s,
        s is None <==> text_tree(s) == JsonTree::Null,
        text_array(v).array() matches Some(a) && a.len() == v.len() && forall|i: int|
            0 <= i < v.len() ==> #[trigger] a[i] == JsonTree::Text(v[i]),
{
}

} // verus!
