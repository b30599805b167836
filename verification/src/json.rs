//! Documents: their mathematical value and how they are held in memory.

use crate::assoc::{distinct_keys, lemma_position, lemma_position_is, lookup, position};
use crate::text::same_text;
use vstd::prelude::*;
use vstd::string::*;

verus! {

/// A number of a document, held as `serde_json` holds it and carried
/// through unread.
#[verifier::external_type_specification]
#[verifier::external_body]
pub struct ExNumber(serde_json::Number);

/// `Clone::clone` of `serde_json::Number`: the copy is the number itself.
pub assume_specification[ <serde_json::Number as Clone>::clone ](n: &serde_json::Number) -> (r:
    serde_json::Number)
    ensures
        r == *n,
;

/// The mathematical value of a document: a tree of scalars, lists and
/// records. A record keeps its fields in the order in which they were written.
pub enum Doc {
    Null,
    Bool(bool),
    Number(serde_json::Number),
    Text(Seq<char>),
    List(Seq<Doc>),
    Record(Seq<(Seq<char>, Doc)>),
}

/// `fields` with `key` bound to `value`: in place where a field of that name
/// exists, at the end otherwise.
pub open spec fn with_field(fields: Seq<(Seq<char>, Doc)>, key: Seq<char>, value: Doc) -> Seq<
    (Seq<char>, Doc),
> {
    match position(fields, key) {
        Some(i) => fields.update(i, (key, value)),
        None => fields.push((key, value)),
    }
}

/// Every document of the sequence is well formed.
pub open spec fn all_well_formed(items: Seq<Doc>) -> bool
    decreases items, 0nat,
{
    forall|i: int| 0 <= i < items.len() ==> (#[trigger] items[i]).well_formed()
}

/// Every field holds a well-formed document.
pub open spec fn values_well_formed(fields: Seq<(Seq<char>, Doc)>) -> bool
    decreases fields, 0nat,
{
    forall|i: int| 0 <= i < fields.len() ==> (#[trigger] fields[i]).1.well_formed()
}

impl Doc {
    /// Every record in the tree names each of its fields once.
    pub open spec fn well_formed(self) -> bool
        decreases self, 1nat,
    {
        match self {
            Doc::List(items) => all_well_formed(items),
            Doc::Record(fields) => distinct_keys(fields) && values_well_formed(fields),
            _ => true,
        }
    }

    /// The value of the field `key`, where `self` is a record that has one.
    pub open spec fn field(self, key: Seq<char>) -> Option<Doc> {
        match self {
            Doc::Record(fields) => lookup(fields, key),
            _ => None,
        }
    }
}

/// The fields of a well-formed record hold well-formed values.
pub proof fn lemma_field_well_formed(d: Doc, key: Seq<char>)
    requires
        d.well_formed(),
    ensures
        d.field(key) matches Some(v) ==> v.well_formed(),
{
    match d {
        Doc::Record(fields) => {
            lemma_position(fields, key);
            match position(fields, key) {
                Some(i) => {
                    assert(fields[i].1.well_formed());
                },
                None => {},
            }
        },
        _ => {},
    }
}

/// Binding a key to a well-formed value keeps a record well formed.
pub proof fn lemma_with_field_well_formed(
    fields: Seq<(Seq<char>, Doc)>,
    key: Seq<char>,
    value: Doc,
)
    requires
        Doc::Record(fields).well_formed(),
        value.well_formed(),
    ensures
        Doc::Record(with_field(fields, key, value)).well_formed(),
{
    lemma_position(fields, key);
    let out = with_field(fields, key, value);
    match position(fields, key) {
        Some(p) => {
            assert forall|i: int| 0 <= i < out.len() implies (
            #[trigger] out[i]).1.well_formed() by {
                if i != p {
                    assert(fields[i].1.well_formed());
                }
            }
        },
        None => {
            assert forall|i: int| 0 <= i < out.len() implies (
            #[trigger] out[i]).1.well_formed() by {
                if i < fields.len() {
                    assert(fields[i].1.well_formed());
                }
            }
        },
    }
}

/// A document held in memory.
#[derive(Debug, PartialEq, Eq)]
pub enum Json {
    Null,
    Bool(bool),
    Number(serde_json::Number),
    String(String),
    Array(Vec<Json>),
    Object(Vec<(String, Json)>),
}

impl View for Json {
    type V = Doc;

    open spec fn view(&self) -> Doc
        decreases self,
    {
        match self {
            Json::Null => Doc::Null,
            Json::Bool(b) => Doc::Bool(*b),
            Json::Number(n) => Doc::Number(*n),
            Json::String(s) => Doc::Text(s@),
            Json::Array(items) => Doc::List(
                Seq::new(
                    items@.len(),
                    |i: int|
                        if 0 <= i < items@.len() {
                            items@[i].view()
                        } else {
                            Doc::Null
                        },
                ),
            ),
            Json::Object(fields) => Doc::Record(
                Seq::new(
                    fields@.len(),
                    |i: int|
                        (
                            fields@[i].0@,
                            if 0 <= i < fields@.len() {
                                fields@[i].1.view()
                            } else {
                                Doc::Null
                            },
                        ),
                ),
            ),
        }
    }
}

/// The values of a sequence of documents.
pub open spec fn docs(items: Seq<Json>) -> Seq<Doc> {
    items.map_values(|j: Json| j@)
}

/// The values of a sequence of named documents.
pub open spec fn doc_fields(fields: Seq<(String, Json)>) -> Seq<(Seq<char>, Doc)> {
    fields.map_values(|f: (String, Json)| (f.0@, f.1@))
}

/// A list stands above each of its elements.
pub proof fn lemma_element_decreases(j: Json, i: int)
    requires
        j is Array,
        0 <= i < j->Array_0@.len(),
    ensures
        decreases_to!(j => j->Array_0@[i]),
{
    assert(decreases_to!(j => j->Array_0));
    assert(decreases_to!(j->Array_0 => j->Array_0@));
    assert(decreases_to!(j->Array_0@ => j->Array_0@[i]));
}

/// A record stands above the value of each of its fields.
pub proof fn lemma_value_decreases(j: Json, i: int)
    requires
        j is Object,
        0 <= i < j->Object_0@.len(),
    ensures
        decreases_to!(j => j->Object_0@[i].1),
{
    assert(decreases_to!(j => j->Object_0));
    assert(decreases_to!(j->Object_0 => j->Object_0@));
    assert(decreases_to!(j->Object_0@ => j->Object_0@[i]));
    assert(decreases_to!(j->Object_0@[i] => j->Object_0@[i].1));
}

/// The value of a list in memory is the list of its elements' values.
pub broadcast proof fn lemma_view_array(items: Vec<Json>)
    ensures
        #[trigger] Json::Array(items)@ == Doc::List(docs(items@)),
{
    assert(Json::Array(items)@->List_0 =~= docs(items@));
}

/// The value of a record in memory is the record of its fields' names and
/// values.
pub broadcast proof fn lemma_view_object(fields: Vec<(String, Json)>)
    ensures
        #[trigger] Json::Object(fields)@ == Doc::Record(doc_fields(fields@)),
{
    assert(Json::Object(fields)@->Record_0 =~= doc_fields(fields@));
}

pub broadcast group group_json_view {
    lemma_view_array,
    lemma_view_object,
}

/// The index of the first field named `key`.
pub fn find_field(fields: &Vec<(String, Json)>, key: &str) -> (r: Option<usize>)
    ensures
        match r {
            Some(i) => i < fields@.len() && position(doc_fields(fields@), key@) == Some(i as int),
            None => position(doc_fields(fields@), key@) is None,
        },
{
    let mut i: usize = 0;
    while i < fields.len()
        invariant
            i <= fields@.len(),
            forall|j: int| 0 <= j < i ==> doc_fields(fields@)[j].0 != key@,
        decreases fields@.len() - i,
    {
        if same_text(fields[i].0.as_str(), key) {
            proof {
                lemma_position_is(doc_fields(fields@), key@, i as int);
            }
            return Some(i);
        }
        i += 1;
    }
    proof {
        lemma_position(doc_fields(fields@), key@);
    }
    None
}

/// Binds `key` to `value`: in place where a field of that name exists, at the
/// end otherwise.
pub fn set_field(fields: &mut Vec<(String, Json)>, key: &str, value: Json)
    ensures
        doc_fields(final(fields)@) == with_field(doc_fields(old(fields)@), key@, value@),
{
    let ghost before = doc_fields(fields@);
    match find_field(fields, key) {
        Some(i) => {
            fields[i] = (String::from_str(key), value);
            assert(doc_fields(fields@) =~= before.update(i as int, (key@, value@)));
        },
        None => {
            fields.push((String::from_str(key), value));
            assert(doc_fields(fields@) =~= before.push((key@, value@)));
        },
    }
}

/// Whether no two fields share a name.
pub fn has_distinct_keys(fields: &Vec<(String, Json)>) -> (r: bool)
    ensures
        r == distinct_keys(doc_fields(fields@)),
{
    let ghost all = doc_fields(fields@);
    let mut j: usize = 0;
    while j < fields.len()
        invariant
            j <= fields@.len(),
            all == doc_fields(fields@),
            forall|a: int, b: int| 0 <= a < b < j ==> all[a].0 != all[b].0,
        decreases fields@.len() - j,
    {
        let mut i: usize = 0;
        while i < j
            invariant
                i <= j < fields@.len(),
                all == doc_fields(fields@),
                forall|a: int| 0 <= a < i ==> all[a].0 != all[j as int].0,
            decreases j - i,
        {
            if same_text(fields[i].0.as_str(), fields[j].0.as_str()) {
                assert(all[i as int].0 == all[j as int].0);
                return false;
            }
            i += 1;
        }
        j += 1;
    }
    true
}

impl Json {
    /// Whether every record in the tree names each of its fields once.
    pub fn is_well_formed(&self) -> (r: bool)
        ensures
            r == self@.well_formed(),
        decreases self,
    {
        broadcast use group_json_view;

        match self {
            Json::Array(items) => {
                let mut i: usize = 0;
                while i < items.len()
                    invariant
                        self == Json::Array(*items),
                        i <= items@.len(),
                        forall|k: int| 0 <= k < i ==> (#[trigger] docs(items@)[k]).well_formed(),
                    decreases items@.len() - i,
                {
                    proof {
                        lemma_element_decreases(*self, i as int);
                    }
                    if !items[i].is_well_formed() {
                        assert(!docs(items@)[i as int].well_formed());
                        assert(!all_well_formed(docs(items@)));
                        proof {
                            lemma_view_array(*items);
                        }
                        return false;
                    }
                    i += 1;
                }
                true
            },
            Json::Object(fields) => {
                if !has_distinct_keys(fields) {
                    return false;
                }
                let mut i: usize = 0;
                while i < fields.len()
                    invariant
                        self == Json::Object(*fields),
                        i <= fields@.len(),
                        forall|k: int|
                            0 <= k < i ==> (#[trigger] doc_fields(fields@)[k]).1.well_formed(),
                    decreases fields@.len() - i,
                {
                    proof {
                        lemma_value_decreases(*self, i as int);
                    }
                    if !fields[i].1.is_well_formed() {
                        assert(!doc_fields(fields@)[i as int].1.well_formed());
                        assert(!values_well_formed(doc_fields(fields@)));
                        proof {
                            lemma_view_object(*fields);
                        }
                        return false;
                    }
                    i += 1;
                }
                true
            },
            _ => true,
        }
    }

    /// A text document.
    pub fn text(s: &str) -> (r: Json)
        ensures
            r@ == Doc::Text(s@),
    {
        Json::String(String::from_str(s))
    }

    /// The value of the field `key`, where `self` is a record that has one.
    pub fn get<'a>(&'a self, key: &str) -> (r: Option<&'a Json>)
        ensures
            match r {
                Some(v) => self@.field(key@) == Some(v@),
                None => self@.field(key@) is None,
            },
    {
        broadcast use group_json_view;

        match self {
            Json::Object(fields) => match find_field(fields, key) {
                Some(i) => Some(&fields[i].1),
                None => None,
            },
            _ => None,
        }
    }

    /// The characters of a text.
    pub fn as_text<'a>(&'a self) -> (r: Option<&'a String>)
        ensures
            match r {
                Some(s) => self@ == Doc::Text(s@),
                None => !(self@ is Text),
            },
    {
        match self {
            Json::String(s) => Some(s),
            _ => None,
        }
    }

    /// The elements of a list.
    pub fn as_items<'a>(&'a self) -> (r: Option<&'a Vec<Json>>)
        ensures
            match r {
                Some(items) => self@ == Doc::List(docs(items@)),
                None => !(self@ is List),
            },
    {
        broadcast use group_json_view;

        match self {
            Json::Array(items) => Some(items),
            _ => None,
        }
    }

    /// A copy of the whole tree.
    pub fn duplicate(&self) -> (r: Json)
        ensures
            r@ == self@,
        decreases self,
    {
        broadcast use group_json_view;

        match self {
            Json::Null => Json::Null,
            Json::Bool(b) => Json::Bool(*b),
            Json::Number(n) => Json::Number(n.clone()),
            Json::String(s) => Json::String(s.clone()),
            Json::Array(items) => {
                let mut out: Vec<Json> = Vec::new();
                let mut i: usize = 0;
                while i < items.len()
                    invariant
                        i <= items@.len(),
                        out@.len() == i,
                        forall|k: int| 0 <= k < i ==> out@[k]@ == items@[k]@,
                        self == Json::Array(*items),
                    decreases items@.len() - i,
                {
                    proof {
                        lemma_element_decreases(*self, i as int);
                    }
                    out.push(items[i].duplicate());
                    i += 1;
                }
                assert(docs(out@) =~= docs(items@));
                Json::Array(out)
            },
            Json::Object(fields) => {
                let mut out: Vec<(String, Json)> = Vec::new();
                let mut i: usize = 0;
                while i < fields.len()
                    invariant
                        i <= fields@.len(),
                        out@.len() == i,
                        forall|k: int|
                            0 <= k < i ==> out@[k].0@ == fields@[k].0@ && out@[k].1@
                                == fields@[k].1@,
                        self == Json::Object(*fields),
                    decreases fields@.len() - i,
                {
                    proof {
                        lemma_value_decreases(*self, i as int);
                    }
                    out.push((fields[i].0.clone(), fields[i].1.duplicate()));
                    i += 1;
                }
                assert(doc_fields(out@) =~= doc_fields(fields@));
                Json::Object(out)
            },
        }
    }
}

impl Clone for Json {
    fn clone(&self) -> (r: Json)
        ensures
            r@ == self@,
    {
        self.duplicate()
    }
}

} // verus!
