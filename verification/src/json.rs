//! JSON documents as plain values, and records as one line of JSON.

use vstd::prelude::*;
use vstd::string::*;

use crate::text;

verus! {

broadcast use vstd::string::group_string_axioms;

/// A JSON value: its compact text and what it is.
#[derive(Debug)]
pub struct Json {
    pub compact: String,
    pub kind: Kind,
}

/// What a JSON value is.
#[derive(Debug)]
pub enum Kind {
    Null,
    Bool(bool),
    /// A number, with its value where it is a natural one.
    Number(Option<u64>),
    Text(String),
    List(Vec<Json>),
    /// Members in the order in which they are listed, each key once.
    Object(Vec<(String, Json)>),
}

/// What a JSON value holds: its compact text and what it is.
#[verifier::ext_equal]
pub struct Doc {
    pub compact: Seq<char>,
    pub shape: Shape,
}

/// What a JSON value is.
pub enum Shape {
    Null,
    Bool(bool),
    Number(Option<u64>),
    Text(Seq<char>),
    List(Seq<Doc>),
    Object(Seq<(Seq<char>, Doc)>),
}

spec fn nothing() -> Doc {
    Doc { compact: Seq::<char>::empty(), shape: Shape::Null }
}

/// What a JSON value holds.
pub closed spec fn doc(j: Json) -> Doc
    decreases j,
{
    Doc {
        compact: j.compact@,
        shape: match j.kind {
            Kind::Null => Shape::Null,
            Kind::Bool(b) => Shape::Bool(b),
            Kind::Number(natural) => Shape::Number(natural),
            Kind::Text(s) => Shape::Text(s@),
            Kind::List(items) => Shape::List(
                Seq::new(
                    items@.len(),
                    |i: int|
                        if 0 <= i < items@.len() {
                            doc(items@[i])
                        } else {
                            nothing()
                        },
                ),
            ),
            Kind::Object(members) => Shape::Object(
                Seq::new(
                    members@.len(),
                    |i: int|
                        if 0 <= i < members@.len() {
                            (members@[i].0@, doc(members@[i].1))
                        } else {
                            (Seq::<char>::empty(), nothing())
                        },
                ),
            ),
        },
    }
}

impl View for Json {
    type V = Doc;

    open spec fn view(&self) -> Doc {
        doc(*self)
    }
}

/// What a JSON value holds, where there is one.
pub open spec fn doc_option(j: Option<Json>) -> Option<Doc> {
    match j {
        Some(j) => Some(j@),
        None => None,
    }
}

/// What JSON values hold.
pub open spec fn docs(items: Seq<Json>) -> Seq<Doc> {
    items.map_values(|j: Json| j@)
}

/// What the members of an object hold.
pub open spec fn members_of(members: Seq<(String, Json)>) -> Seq<(Seq<char>, Doc)> {
    members.map_values(|m: (String, Json)| (m.0@, m.1@))
}

/// What a JSON value holds, part for part.
pub proof fn what_a_value_holds(j: Json)
    ensures
        j@.compact == j.compact@,
        j@.shape == match j.kind {
            Kind::Null => Shape::Null,
            Kind::Bool(b) => Shape::Bool(b),
            Kind::Number(natural) => Shape::Number(natural),
            Kind::Text(s) => Shape::Text(s@),
            Kind::List(items) => Shape::List(docs(items@)),
            Kind::Object(members) => Shape::Object(members_of(members@)),
        },
{
    reveal_with_fuel(doc, 2);
    match j.kind {
        Kind::List(items) => {
            assert(j@.shape->List_0 =~= docs(items@));
        },
        Kind::Object(members) => {
            assert(j@.shape->Object_0 =~= members_of(members@));
        },
        _ => {},
    }
}

/// A value of `serde_json`, carried from the call that reads it to the one that
/// takes it apart.
#[verifier::external_type_specification]
#[verifier::external_body]
pub struct ExValue(serde_json::Value);

/// The document that a text holds, where it holds one, as `serde_json` reads
/// it into a `serde_json::Value`.
pub uninterp spec fn json_document(bytes: Seq<u8>) -> Option<Doc>;

/// Takes a `serde_json::Value` apart into a plain value, one for one; its
/// compact text is what `Value::to_string` gives.
#[verifier::external_body]
fn plain(value: serde_json::Value) -> (r: Json)
{
    let compact = value.to_string();
    let kind = match value {
        serde_json::Value::Null => Kind::Null,
        serde_json::Value::Bool(b) => Kind::Bool(b),
        serde_json::Value::Number(n) => Kind::Number(n.as_u64()),
        serde_json::Value::String(s) => Kind::Text(s),
        serde_json::Value::Array(a) => Kind::List(a.into_iter().map(plain).collect()),
        serde_json::Value::Object(o) => {
            Kind::Object(o.into_iter().map(|(k, v)| (k, plain(v))).collect())
        },
    };
    Json { compact, kind }
}

/// `serde_json::from_slice` reads a document out of bytes, or fails where they
/// hold none. What it reads is a function of the bytes, and is named rather
/// than stated.
#[verifier::external_body]
pub(crate) fn read(bytes: &[u8]) -> (r: Option<Json>)
    ensures
        doc_option(r) == json_document(bytes@),
{
    serde_json::from_slice::<serde_json::Value>(bytes).ok().map(plain)
}

/// The document that the given bytes hold, where they hold one.
pub fn parse(bytes: &[u8]) -> (r: Option<Json>)
    ensures
        doc_option(r) == json_document(bytes@),
{
    read(bytes)
}

/// The member of a list of members with the given key.
pub open spec fn lookup(members: Seq<(Seq<char>, Doc)>, key: Seq<char>) -> Option<Doc>
    decreases members.len(),
{
    if members.len() == 0 {
        None
    } else if members[0].0 == key {
        Some(members[0].1)
    } else {
        lookup(members.skip(1), key)
    }
}

/// The member with the given key, where the value is an object that has it.
pub open spec fn member(d: Doc, key: Seq<char>) -> Option<Doc> {
    match d.shape {
        Shape::Object(members) => lookup(members, key),
        _ => None,
    }
}

/// The text that a value is.
pub open spec fn text_of(d: Option<Doc>) -> Option<Seq<char>> {
    match d {
        Some(v) => match v.shape {
            Shape::Text(s) => Some(s),
            _ => None,
        },
        None => None,
    }
}

/// The truth value that a value is.
pub open spec fn bool_of(d: Option<Doc>) -> Option<bool> {
    match d {
        Some(v) => match v.shape {
            Shape::Bool(b) => Some(b),
            _ => None,
        },
        None => None,
    }
}

/// The natural number that a value is.
pub open spec fn natural_of(d: Option<Doc>) -> Option<u64> {
    match d {
        Some(v) => match v.shape {
            Shape::Number(natural) => natural,
            _ => None,
        },
        None => None,
    }
}

/// The member of the member, where both are there.
pub open spec fn nested(d: Doc, outer: Seq<char>, inner: Seq<char>) -> Option<Doc> {
    match member(d, outer) {
        Some(v) => member(v, inner),
        None => None,
    }
}

impl Json {
    /// The member with the given key, where there is one.
    pub fn get(&self, key: &str) -> (r: Option<&Json>)
        ensures
            match r {
                Some(v) => Some(v@),
                None => None,
            } == member(self@, key@),
    {
        proof {
            what_a_value_holds(*self);
        }
        match &self.kind {
            Kind::Object(members) => {
                let ghost all = members_of(members@);
                let mut i: usize = 0;
                proof {
                    assert(all.skip(0) =~= all);
                }
                while i < members.len()
                    invariant
                        i <= members.len(),
                        all == members_of(members@),
                        member(self@, key@) == lookup(all, key@),
                        lookup(all, key@) == lookup(all.skip(i as int), key@),
                    decreases members.len() - i,
                {
                    proof {
                        assert(all.skip(i as int)[0] == all[i as int]);
                        assert(all.skip(i as int).skip(1) =~= all.skip(i + 1));
                    }
                    if text::same(members[i].0.as_str(), key) {
                        return Some(&members[i].1);
                    }
                    i = i + 1;
                }
                None
            },
            _ => None,
        }
    }

    /// The text that the value is.
    pub fn as_text(&self) -> (r: Option<&String>)
        ensures
            match r {
                Some(s) => Some(s@),
                None => None,
            } == text_of(Some(self@)),
    {
        proof {
            what_a_value_holds(*self);
        }
        match &self.kind {
            Kind::Text(s) => Some(s),
            _ => None,
        }
    }

    /// The truth value that the value is.
    pub fn as_bool(&self) -> (r: Option<bool>)
        ensures
            r == bool_of(Some(self@)),
    {
        proof {
            what_a_value_holds(*self);
        }
        match &self.kind {
            Kind::Bool(b) => Some(*b),
            _ => None,
        }
    }

    /// The natural number that the value is.
    pub fn as_natural(&self) -> (r: Option<u64>)
        ensures
            r == natural_of(Some(self@)),
    {
        proof {
            what_a_value_holds(*self);
        }
        match &self.kind {
            Kind::Number(natural) => *natural,
            _ => None,
        }
    }
}

/// A value of a record.
#[derive(Debug)]
pub enum Scalar {
    Natural(u64),
    Whole(i64),
    Text(String),
    Texts(Vec<String>),
    Nothing,
}

/// What a value of a record holds.
pub enum Plain {
    Natural(u64),
    Whole(i64),
    Text(Seq<char>),
    Texts(Seq<Seq<char>>),
    Nothing,
}

impl View for Scalar {
    type V = Plain;

    open spec fn view(&self) -> Plain {
        match self {
            Scalar::Natural(n) => Plain::Natural(*n),
            Scalar::Whole(n) => Plain::Whole(*n),
            Scalar::Text(s) => Plain::Text(s@),
            Scalar::Texts(list) => Plain::Texts(text::texts(list@)),
            Scalar::Nothing => Plain::Nothing,
        }
    }
}

/// What the fields of a record hold.
pub open spec fn fields(record: Seq<(String, Scalar)>) -> Seq<(Seq<char>, Plain)> {
    record.map_values(|f: (String, Scalar)| (f.0@, f.1@))
}

/// The text of the object with the given fields, a later field replacing an
/// earlier one of the same name, as `serde_json` writes it.
pub uninterp spec fn object_text(record: Seq<(Seq<char>, Plain)>) -> Seq<char>;

/// `serde_json::Value::to_string` writes an object compactly: the text is a
/// function of its fields, and holds no line feed, since control characters in
/// strings are escaped and nothing is indented.
#[verifier::external_body]
pub(crate) fn write_object(record: &Vec<(String, Scalar)>) -> (r: String)
    ensures
        r@ == object_text(fields(record@)),
        !r@.contains('\n'),
{
    let mut map = serde_json::Map::new();
    for (key, value) in record.iter() {
        let value: serde_json::Value = match value {
            Scalar::Natural(n) => (*n).into(),
            Scalar::Whole(n) => (*n).into(),
            Scalar::Text(s) => s.clone().into(),
            Scalar::Texts(list) => list.clone().into(),
            Scalar::Nothing => serde_json::Value::Null,
        };
        map.insert(key.clone(), value);
    }
    serde_json::Value::Object(map).to_string()
}

/// A field of a record.
pub fn field(name: &str, value: Scalar) -> (r: (String, Scalar))
    ensures
        r.0@ == name@,
        r.1@ == value@,
{
    (name.to_owned(), value)
}

} // verus!
