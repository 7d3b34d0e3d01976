//! A JSON document as the library reads it, and the views through which its
//! contracts look at a document down to a fixed depth.
use vstd::prelude::*;

verus! {

#[verifier::external_type_specification]
#[verifier::external_body]
pub struct ExJsonValue(serde_json::Value);

/// A parsed JSON value. Booleans and numbers are not read by this library and are
/// kept only as `Other`.
#[derive(Debug)]
pub enum Json {
    Null,
    Str(String),
    Array(Vec<Json>),
    Object(Vec<(String, Json)>),
    Other,
}

/// One level of a JSON value, with children of type `C`.
pub enum JsonAt<C> {
    Null,
    Str(Seq<char>),
    Array(Seq<C>),
    Object(Seq<(Seq<char>, C)>),
    Other,
}

/// A value seen to depth 0: containers without their contents.
pub type Json0 = JsonAt<()>;

pub type Json1 = JsonAt<Json0>;

pub type Json2 = JsonAt<Json1>;

/// A document seen to depth 3, deep enough for every document this library decodes.
pub type Json3 = JsonAt<Json2>;

pub open spec fn view0(j: Json) -> Json0 {
    match j {
        Json::Null => JsonAt::Null,
        Json::Str(s) => JsonAt::Str(s@),
        Json::Array(v) => JsonAt::Array(v@.map_values(|x: Json| ())),
        Json::Object(f) => JsonAt::Object(f@.map_values(|p: (String, Json)| (p.0@, ()))),
        Json::Other => JsonAt::Other,
    }
}

pub open spec fn items0(v: Seq<Json>) -> Seq<Json0> {
    v.map_values(|x: Json| view0(x))
}

pub open spec fn fields0(f: Seq<(String, Json)>) -> Seq<(Seq<char>, Json0)> {
    f.map_values(|p: (String, Json)| (p.0@, view0(p.1)))
}

pub open spec fn view1(j: Json) -> Json1 {
    match j {
        Json::Null => JsonAt::Null,
        Json::Str(s) => JsonAt::Str(s@),
        Json::Array(v) => JsonAt::Array(items0(v@)),
        Json::Object(f) => JsonAt::Object(fields0(f@)),
        Json::Other => JsonAt::Other,
    }
}

pub open spec fn items1(v: Seq<Json>) -> Seq<Json1> {
    v.map_values(|x: Json| view1(x))
}

pub open spec fn fields1(f: Seq<(String, Json)>) -> Seq<(Seq<char>, Json1)> {
    f.map_values(|p: (String, Json)| (p.0@, view1(p.1)))
}

pub open spec fn view2(j: Json) -> Json2 {
    match j {
        Json::Null => JsonAt::Null,
        Json::Str(s) => JsonAt::Str(s@),
        Json::Array(v) => JsonAt::Array(items1(v@)),
        Json::Object(f) => JsonAt::Object(fields1(f@)),
        Json::Other => JsonAt::Other,
    }
}

pub open spec fn items2(v: Seq<Json>) -> Seq<Json2> {
    v.map_values(|x: Json| view2(x))
}

pub open spec fn fields2(f: Seq<(String, Json)>) -> Seq<(Seq<char>, Json2)> {
    f.map_values(|p: (String, Json)| (p.0@, view2(p.1)))
}

pub open spec fn view3(j: Json) -> Json3 {
    match j {
        Json::Null => JsonAt::Null,
        Json::Str(s) => JsonAt::Str(s@),
        Json::Array(v) => JsonAt::Array(items2(v@)),
        Json::Object(f) => JsonAt::Object(fields2(f@)),
        Json::Other => JsonAt::Other,
    }
}

/// The value under `key` in an object's fields: the first field with that key.
pub open spec fn field<C>(fields: Seq<(Seq<char>, C)>, key: Seq<char>) -> Option<C>
    decreases fields.len(),
{
    if fields.len() == 0 {
        None
    } else if fields[0].0 == key {
        Some(fields[0].1)
    } else {
        field(fields.drop_first(), key)
    }
}

pub proof fn lemma_field_at<C>(fields: Seq<(Seq<char>, C)>, key: Seq<char>, i: int)
    requires
        0 <= i <= fields.len(),
        forall|j: int| 0 <= j < i ==> #[trigger] fields[j].0 != key,
    ensures
        i == fields.len() ==> field(fields, key) is None,
        i < fields.len() && fields[i].0 == key ==> field(fields, key) == Some(fields[i].1),
    decreases i,
{
    if i > 0 {
        let rest = fields.drop_first();
        assert forall|j: int| 0 <= j < i - 1 implies #[trigger] rest[j].0 != key by {
            assert(rest[j] == fields[j + 1]);
        }
        lemma_field_at(rest, key, i - 1);
    }
}

/// A field found by `find_field` is the one that `field` names, at any depth of view.
pub proof fn lemma_lookup<C>(
    fields: Seq<(String, Json)>,
    vs: Seq<(Seq<char>, C)>,
    key: Seq<char>,
    r: Option<usize>,
)
    requires
        vs.len() == fields.len(),
        forall|i: int| 0 <= i < vs.len() ==> #[trigger] vs[i].0 == fields[i].0@,
        match r {
            None => forall|i: int| 0 <= i < fields.len() ==> #[trigger] fields[i].0@ != key,
            Some(i) => i < fields.len() && fields[i as int].0@ == key
                && forall|j: int| 0 <= j < i ==> #[trigger] fields[j].0@ != key,
        },
    ensures
        field(vs, key) == match r {
            None => None,
            Some(i) => Some(vs[i as int].1),
        },
{
    match r {
        None => {
            assert forall|j: int| 0 <= j < vs.len() implies #[trigger] vs[j].0 != key by {
                assert(fields[j].0@ != key);
            }
            lemma_field_at(vs, key, vs.len() as int);
        },
        Some(i) => {
            assert forall|j: int| 0 <= j < i implies #[trigger] vs[j].0 != key by {
                assert(fields[j].0@ != key);
            }
            lemma_field_at(vs, key, i as int);
        },
    }
}

/// The document that serde_json reads from `bytes`, seen to depth 3; `None` where
/// the bytes are not one JSON document.
pub uninterp spec fn json_doc(bytes: Seq<u8>) -> Option<Json3>;

/// Moves a serde_json value into the library's own representation.
#[verifier::external_body]
fn json_from_value(v: serde_json::Value) -> Json {
    match v {
        serde_json::Value::Null => Json::Null,
        serde_json::Value::String(s) => Json::Str(s),
        serde_json::Value::Array(a) => Json::Array(a.into_iter().map(json_from_value).collect()),
        serde_json::Value::Object(m) => Json::Object(
            m.into_iter().map(|(k, x)| (k, json_from_value(x))).collect(),
        ),
        serde_json::Value::Bool(_) | serde_json::Value::Number(_) => Json::Other,
    }
}

/// Relies on serde_json::from_slice into a serde_json::Value: it succeeds exactly
/// when the bytes hold one JSON document, and what it reads depends on the bytes alone.
#[verifier::external_body]
pub(crate) fn parse_json(bytes: &[u8]) -> (r: Option<Json>)
    ensures
        r is Some <==> json_doc(bytes@) is Some,
        r matches Some(j) ==> view3(j) == json_doc(bytes@)->0,
{
    serde_json::from_slice::<serde_json::Value>(bytes).ok().map(json_from_value)
}

pub open spec fn opt_view0(v: Option<&Json>) -> Option<Json0> {
    match v {
        Some(j) => Some(view0(*j)),
        None => None,
    }
}

pub open spec fn opt_view2(v: Option<&Json>) -> Option<Json2> {
    match v {
        Some(j) => Some(view2(*j)),
        None => None,
    }
}

/// The value of the first field named `key`, as `field` sees it at depth 0 and at depth 2.
pub fn lookup<'a>(fields: &'a Vec<(String, Json)>, key: &String) -> (r: Option<&'a Json>)
    ensures
        field(fields0(fields@), key@) == opt_view0(r),
        field(fields2(fields@), key@) == opt_view2(r),
{
    let i = find_field(fields, key);
    proof {
        lemma_lookup(fields@, fields0(fields@), key@, i);
        lemma_lookup(fields@, fields2(fields@), key@, i);
    }
    match i {
        Some(i) => Some(&fields[i].1),
        None => None,
    }
}

/// The index of the first field named `key`, if there is one.
pub fn find_field(fields: &Vec<(String, Json)>, key: &String) -> (r: Option<usize>)
    ensures
        match r {
            None => forall|i: int| 0 <= i < fields@.len() ==> #[trigger] fields@[i].0@ != key@,
            Some(i) => i < fields@.len() && fields@[i as int].0@ == key@
                && forall|j: int| 0 <= j < i ==> #[trigger] fields@[j].0@ != key@,
        },
{
    let mut i: usize = 0;
    while i < fields.len()
        invariant
            i <= fields@.len(),
            forall|j: int| 0 <= j < i ==> #[trigger] fields@[j].0@ != key@,
        decreases fields@.len() - i,
    {
        if fields[i].0 == *key {
            return Some(i);
        }
        i = i + 1;
    }
    None
}

} // verus!
