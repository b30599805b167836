//! Documents as bytes: reading and writing by `serde_json`, which this
//! module alone calls.

use crate::assoc::distinct_keys;
use crate::error::ScpError;
use crate::json::{
    doc_fields, docs, group_json_view, lemma_element_decreases, lemma_value_decreases, Doc, Json,
};
use vstd::prelude::*;

verus! {

broadcast use group_json_view;

/// A document as `serde_json` holds it.
#[verifier::external_type_specification]
#[verifier::external_body]
pub struct ExValue(serde_json::Value);

/// What a `serde_json::Value` holds: its variant, and below a list or a
/// record what each element holds, a record's fields in the order in which
/// the value hands them out.
pub uninterp spec fn value_doc(v: serde_json::Value) -> Doc;

/// What `serde_json::from_slice` reads from `bytes` as a `Value`: the
/// document that the value holds, or nothing where it reports an error.
pub uninterp spec fn parsed(bytes: Seq<u8>) -> Option<Doc>;

/// What `serde_json::to_vec` writes for a `Value` that holds `doc`, or
/// nothing where it reports an error.
pub uninterp spec fn serialized(doc: Doc) -> Option<Seq<u8>>;

/// The number that `serde_json::Number::from` makes of an unsigned integer.
pub uninterp spec fn whole(n: u64) -> serde_json::Number;

/// One level of a `serde_json::Value`: the variant with its fields.
enum Node {
    Null,
    Bool(bool),
    Number(serde_json::Number),
    Text(String),
    List(Vec<serde_json::Value>),
    Record(Vec<(String, serde_json::Value)>),
}

impl Node {
    /// The document that a value of this variant and these fields holds.
    spec fn doc(self) -> Doc {
        match self {
            Node::Null => Doc::Null,
            Node::Bool(b) => Doc::Bool(b),
            Node::Number(n) => Doc::Number(n),
            Node::Text(s) => Doc::Text(s@),
            Node::List(items) => Doc::List(items@.map_values(|v: serde_json::Value| value_doc(v))),
            Node::Record(fields) => Doc::Record(
                fields@.map_values(|f: (String, serde_json::Value)| (f.0@, value_doc(f.1))),
            ),
        }
    }
}

/// Takes a `serde_json::Value` apart, one arm for each of its variants. The
/// node holds what the value held; the fields of an object come in the order
/// of `Map::into_iter`, and a map holds each key once.
#[verifier::external_body]
fn open_value(v: serde_json::Value) -> (n: Node)
    ensures
        n.doc() == value_doc(v),
        n matches Node::Record(_) ==> distinct_keys(n.doc()->Record_0),
{
    match v {
        serde_json::Value::Null => Node::Null,
        serde_json::Value::Bool(b) => Node::Bool(b),
        serde_json::Value::Number(n) => Node::Number(n),
        serde_json::Value::String(s) => Node::Text(s),
        serde_json::Value::Array(items) => Node::List(items),
        serde_json::Value::Object(fields) => Node::Record(fields.into_iter().collect()),
    }
}

/// Puts a `serde_json::Value` together, one arm for each of its variants.
/// The fields of a record go into a `Map` in their order, which keeps it as
/// long as no key comes twice.
#[verifier::external_body]
fn close_value(n: Node) -> (v: serde_json::Value)
    requires
        n matches Node::Record(_) ==> distinct_keys(n.doc()->Record_0),
    ensures
        value_doc(v) == n.doc(),
{
    match n {
        Node::Null => serde_json::Value::Null,
        Node::Bool(b) => serde_json::Value::Bool(b),
        Node::Number(n) => serde_json::Value::Number(n),
        Node::Text(s) => serde_json::Value::String(s),
        Node::List(items) => serde_json::Value::Array(items),
        Node::Record(fields) => serde_json::Value::Object(fields.into_iter().collect()),
    }
}

/// `serde_json::from_slice` at `Value`: the value read from the bytes, or
/// the error.
#[verifier::external_body]
fn value_from_slice(bytes: &[u8]) -> (r: Result<serde_json::Value, serde_json::Error>)
    ensures
        match r {
            Ok(v) => parsed(bytes@) == Some(value_doc(v)),
            Err(_) => parsed(bytes@) is None,
        },
{
    serde_json::from_slice::<serde_json::Value>(bytes)
}

/// `serde_json::to_vec` at `Value`: the bytes written for the value, or the
/// error.
#[verifier::external_body]
fn value_to_vec(v: &serde_json::Value) -> (r: Result<Vec<u8>, serde_json::Error>)
    ensures
        match r {
            Ok(bytes) => serialized(value_doc(*v)) == Some(bytes@),
            Err(_) => serialized(value_doc(*v)) is None,
        },
{
    serde_json::to_vec(v)
}

/// `serde_json::Number::from` at `u64`.
#[verifier::external_body]
fn number_from(n: u64) -> (r: serde_json::Number)
    ensures
        r == whole(n),
{
    serde_json::Number::from(n)
}

impl Json {
    /// The whole number `n`.
    pub fn whole(n: u64) -> (r: Json)
        ensures
            r@ == Doc::Number(whole(n)),
    {
        Json::Number(number_from(n))
    }
}

/// The document that a value holds, as a tree of the library's own.
fn from_value(v: serde_json::Value) -> (j: Json)
    ensures
        j@ == value_doc(v),
        j@.well_formed(),
    decreases value_doc(v),
{
    let ghost d = value_doc(v);
    match open_value(v) {
        Node::Null => Json::Null,
        Node::Bool(b) => Json::Bool(b),
        Node::Number(n) => Json::Number(n),
        Node::Text(s) => Json::String(s),
        Node::List(items) => {
            let mut out: Vec<Json> = Vec::new();
            for item in it: items
                invariant
                    d == value_doc(v),
                    d == Doc::List(it.seq().map_values(|v: serde_json::Value| value_doc(v))),
                    out@.len() == it.index(),
                    forall|k: int|
                        0 <= k < out@.len() ==> (#[trigger] out@[k])@ == value_doc(it.seq()[k])
                            && out@[k]@.well_formed(),
            {
                assert(decreases_to!(d => value_doc(item))) by {
                    assert(decreases_to!(d => d->List_0));
                    assert(decreases_to!(d->List_0 => d->List_0[it.index() as int]));
                }
                out.push(from_value(item));
            }
            assert(docs(out@) =~= d->List_0);
            Json::Array(out)
        },
        Node::Record(fields) => {
            let mut out: Vec<(String, Json)> = Vec::new();
            for field in it: fields
                invariant
                    d == value_doc(v),
                    d == Doc::Record(
                        it.seq().map_values(
                            |f: (String, serde_json::Value)| (f.0@, value_doc(f.1)),
                        ),
                    ),
                    out@.len() == it.index(),
                    forall|k: int|
                        0 <= k < out@.len() ==> (#[trigger] out@[k]).0@ == it.seq()[k].0@
                            && out@[k].1@ == value_doc(it.seq()[k].1) && out@[k].1@.well_formed(),
            {
                assert(decreases_to!(d => value_doc(field.1))) by {
                    assert(decreases_to!(d => d->Record_0));
                    assert(decreases_to!(d->Record_0 => d->Record_0[it.index() as int]));
                    let pair = d->Record_0[it.index() as int];
                    assert(decreases_to!(pair => pair.1));
                }
                let (name, value) = field;
                out.push((name, from_value(value)));
            }
            assert(doc_fields(out@) =~= d->Record_0);
            Json::Object(out)
        },
    }
}

/// A value that holds the document.
fn to_value(j: &Json) -> (v: serde_json::Value)
    requires
        j@.well_formed(),
    ensures
        value_doc(v) == j@,
    decreases j,
{
    let node = match j {
        Json::Null => Node::Null,
        Json::Bool(b) => Node::Bool(*b),
        Json::Number(n) => Node::Number(n.clone()),
        Json::String(s) => Node::Text(s.clone()),
        Json::Array(items) => {
            let mut out: Vec<serde_json::Value> = Vec::new();
            let mut i: usize = 0;
            while i < items.len()
                invariant
                    j == Json::Array(*items),
                    j@.well_formed(),
                    i <= items@.len(),
                    out@.len() == i,
                    forall|k: int| 0 <= k < i ==> value_doc(#[trigger] out@[k]) == items@[k]@,
                decreases items@.len() - i,
            {
                proof {
                    lemma_element_decreases(*j, i as int);
                }
                assert(j@ == Doc::List(docs(items@)));
                assert(j@->List_0[i as int].well_formed());
                out.push(to_value(&items[i]));
                i += 1;
            }
            let node = Node::List(out);
            assert(node.doc()->List_0 =~= docs(items@));
            node
        },
        Json::Object(fields) => {
            let mut out: Vec<(String, serde_json::Value)> = Vec::new();
            let mut i: usize = 0;
            while i < fields.len()
                invariant
                    j == Json::Object(*fields),
                    j@.well_formed(),
                    i <= fields@.len(),
                    out@.len() == i,
                    forall|k: int|
                        0 <= k < i ==> (#[trigger] out@[k]).0@ == fields@[k].0@ && value_doc(
                            out@[k].1,
                        ) == fields@[k].1@,
                decreases fields@.len() - i,
            {
                proof {
                    lemma_value_decreases(*j, i as int);
                }
                assert(doc_fields(fields@)[i as int].1.well_formed());
                out.push((fields[i].0.clone(), to_value(&fields[i].1)));
                i += 1;
            }
            let node = Node::Record(out);
            assert(node.doc()->Record_0 =~= doc_fields(fields@));
            node
        },
    };
    close_value(node)
}

/// Reads a document from its bytes.
pub fn decode(bytes: &[u8]) -> (r: Result<Json, ScpError>)
    ensures
        match r {
            Ok(j) => parsed(bytes@) == Some(j@) && j@.well_formed(),
            Err(e) => parsed(bytes@) is None && e is Json,
        },
{
    match value_from_slice(bytes) {
        Ok(v) => Ok(from_value(v)),
        Err(e) => Err(ScpError::Json(e)),
    }
}

/// Writes a document as bytes.
pub fn encode(j: &Json) -> (r: Result<Vec<u8>, ScpError>)
    requires
        j@.well_formed(),
    ensures
        match r {
            Ok(bytes) => serialized(j@) == Some(bytes@),
            Err(e) => serialized(j@) is None && e is Json,
        },
{
    let v = to_value(j);
    match value_to_vec(&v) {
        Ok(bytes) => Ok(bytes),
        Err(e) => Err(ScpError::Json(e)),
    }
}

} // verus!
