//! Items, and the two shapes of their text fields.

use crate::assoc::{
    distinct_keys, lemma_lookup_one, lemma_lookup_push, lemma_position, lemma_position_concat,
    lemma_position_is, lemma_position_names, lemma_position_none, lookup, position,
};
use crate::json::{
    doc_fields, group_json_view, lemma_with_field_well_formed, set_field, values_well_formed,
    with_field, Doc, Json,
};
use crate::text::same_text;
use vstd::prelude::*;
use vstd::string::*;

verus! {

broadcast use group_json_view;

/// The fields of an item that hold a text in one of two shapes.
pub open spec fn is_text_key(key: Seq<char>) -> bool {
    key == "title"@ || key == "subtitle"@ || key == "author"@
}

/// The text that a field holds: the field itself where it is a bare text
/// (the static shape), the text under `en` where it is a record that has one
/// (the pack shape).
pub open spec fn text_of(v: Doc) -> Option<Seq<char>> {
    match v {
        Doc::Text(t) => Some(t),
        Doc::Record(fields) => match lookup(fields, "en"@) {
            Some(Doc::Text(t)) => Some(t),
            _ => None,
        },
        _ => None,
    }
}

/// A text in the pack shape: a record that holds it under `en`.
pub open spec fn localized(t: Seq<char>) -> Doc {
    Doc::Record(seq![("en"@, Doc::Text(t))])
}

/// A field value in the static shape: the bare text where the value holds a
/// text, the value itself otherwise.
pub open spec fn static_text(v: Doc) -> Doc {
    match text_of(v) {
        Some(t) => Doc::Text(t),
        None => v,
    }
}

/// A field value in the pack shape: a bare text becomes a record that holds
/// it under `en`, any other value stays.
pub open spec fn pack_text(v: Doc) -> Doc {
    match v {
        Doc::Text(t) => localized(t),
        _ => v,
    }
}

/// A field as a list item holds it.
pub open spec fn static_field(f: (Seq<char>, Doc)) -> (Seq<char>, Doc) {
    if is_text_key(f.0) {
        (f.0, static_text(f.1))
    } else {
        f
    }
}

/// A field as a manifest item holds it.
pub open spec fn pack_field(f: (Seq<char>, Doc)) -> (Seq<char>, Doc) {
    if is_text_key(f.0) {
        (f.0, pack_text(f.1))
    } else {
        f
    }
}

/// A field that a list document keeps: any but the description.
pub open spec fn is_listed(f: (Seq<char>, Doc)) -> bool {
    f.0 != "description"@
}

/// The fields of an item as a list document shows them: the description
/// left out, the text fields in the static shape.
pub open spec fn static_fields(fields: Seq<(Seq<char>, Doc)>) -> Seq<(Seq<char>, Doc)> {
    fields.filter(|f: (Seq<char>, Doc)| is_listed(f)).map_values(
        |f: (Seq<char>, Doc)| static_field(f),
    )
}

/// The fields of an item as a manifest holds them: the text fields in the
/// pack shape.
pub open spec fn pack_fields(fields: Seq<(Seq<char>, Doc)>) -> Seq<(Seq<char>, Doc)> {
    fields.map_values(|f: (Seq<char>, Doc)| pack_field(f))
}

/// An item as a list document shows it. What is no record stays as it is.
pub open spec fn static_item(item: Doc) -> Doc {
    match item {
        Doc::Record(fields) => Doc::Record(static_fields(fields)),
        _ => item,
    }
}

/// An item as a manifest holds it, with the description that was found for
/// it, if one was and it is not empty. What is no record stays as it is.
pub open spec fn pack_item(item: Doc, description: Option<Seq<char>>) -> Doc {
    match item {
        Doc::Record(fields) => match description {
            Some(t) if t.len() > 0 => Doc::Record(
                with_field(pack_fields(fields), "description"@, localized(t)),
            ),
            _ => Doc::Record(pack_fields(fields)),
        },
        _ => item,
    }
}

/// The name of an item: the text of its field `name`.
pub open spec fn item_name(item: Doc) -> Option<Seq<char>> {
    match item.field("name"@) {
        Some(Doc::Text(t)) => Some(t),
        _ => None,
    }
}

/// The description of an item as a detail document states it: the text of
/// its field `description` in either shape, and the empty text where there
/// is none.
pub open spec fn item_description(item: Doc) -> Seq<char> {
    match item.field("description"@) {
        Some(d) => match text_of(d) {
            Some(t) => t,
            None => Seq::empty(),
        },
        None => Seq::empty(),
    }
}

/// The fields of a list item with one more field at their end.
pub proof fn lemma_static_fields_push(fields: Seq<(Seq<char>, Doc)>, f: (Seq<char>, Doc))
    ensures
        static_fields(fields.push(f)) == if is_listed(f) {
            static_fields(fields).push(static_field(f))
        } else {
            static_fields(fields)
        },
{
    reveal(Seq::filter);
    let keep = |f: (Seq<char>, Doc)| is_listed(f);
    assert(fields.push(f).drop_last() =~= fields);
    if is_listed(f) {
        assert(fields.push(f).filter(keep) == fields.filter(keep).push(f));
        assert(static_fields(fields.push(f)) =~= static_fields(fields).push(static_field(f)));
    } else {
        assert(fields.push(f).filter(keep) == fields.filter(keep));
    }
}

/// Every key of the static fields is a key of the fields they come from.
pub open spec fn keys_within(part: Seq<(Seq<char>, Doc)>, whole: Seq<(Seq<char>, Doc)>) -> bool {
    forall|k: int|
        0 <= k < part.len() ==> exists|i: int|
            0 <= i < whole.len() && whole[i].0 == (#[trigger] part[k]).0
}

/// The fields of a list item name each key once and hold well-formed
/// values, where the fields of the item do.
pub proof fn lemma_static_fields_well_formed(fields: Seq<(Seq<char>, Doc)>)
    requires
        Doc::Record(fields).well_formed(),
    ensures
        Doc::Record(static_fields(fields)).well_formed(),
        keys_within(static_fields(fields), fields),
    decreases fields.len(),
{
    if fields.len() == 0 {
        reveal(Seq::filter);
        assert(static_fields(fields) =~= Seq::empty());
    } else {
        let init = fields.drop_last();
        let last = fields.last();
        assert(fields =~= init.push(last));
        assert(forall|i: int| 0 <= i < init.len() ==> init[i] == fields[i]);
        assert(Doc::Record(init).well_formed());
        lemma_static_fields_well_formed(init);
        lemma_static_fields_push(init, last);
        let sf = static_fields(init);
        let out = static_fields(fields);
        assert forall|k: int| 0 <= k < out.len() implies exists|i: int|
            0 <= i < fields.len() && fields[i].0 == (#[trigger] out[k]).0 by {
            if k < sf.len() {
                let i = choose|i: int| 0 <= i < init.len() && init[i].0 == sf[k].0;
                assert(fields[i].0 == out[k].0);
            } else {
                assert(fields[fields.len() - 1].0 == out[k].0);
            }
        }
        if is_listed(last) {
            assert forall|a: int, b: int| 0 <= a < b < out.len() implies out[a].0 != out[b].0 by {
                if b == sf.len() {
                    let i = choose|i: int| 0 <= i < init.len() && init[i].0 == sf[a].0;
                    assert(fields[i].0 != fields[fields.len() - 1].0);
                }
            }
            assert(fields[fields.len() - 1].1.well_formed());
            assert(static_field(last).1.well_formed()) by {
                lemma_static_text_well_formed(last.1);
            }
        }
    }
}

/// A field value in the static shape is well formed where the value is.
pub proof fn lemma_static_text_well_formed(v: Doc)
    requires
        v.well_formed(),
    ensures
        static_text(v).well_formed(),
{
}

/// An item as a list shows it is well formed where the item is.
pub proof fn lemma_static_item_well_formed(item: Doc)
    requires
        item.well_formed(),
    ensures
        static_item(item).well_formed(),
{
    match item {
        Doc::Record(fields) => lemma_static_fields_well_formed(fields),
        _ => {},
    }
}

/// An item as a manifest holds it is well formed where the item is.
pub proof fn lemma_pack_item_well_formed(item: Doc, description: Option<Seq<char>>)
    requires
        item.well_formed(),
    ensures
        pack_item(item, description).well_formed(),
{
    match item {
        Doc::Record(fields) => {
            let packed = pack_fields(fields);
            assert forall|i: int| 0 <= i < packed.len() implies (
            #[trigger] packed[i]).1.well_formed() by {
                assert(fields[i].1.well_formed());
                lemma_localized_well_formed(fields[i].1->Text_0);
            }
            assert(distinct_keys(packed));
            match description {
                Some(t) => {
                    if t.len() > 0 {
                        lemma_localized_well_formed(t);
                        lemma_with_field_well_formed(packed, "description"@, localized(t));
                    }
                },
                None => {},
            }
        },
        _ => {},
    }
}

/// A text in the pack shape is well formed.
pub proof fn lemma_localized_well_formed(t: Seq<char>)
    ensures
        localized(t).well_formed(),
{
    let fields = seq![("en"@, Doc::Text(t))];
    assert(fields[0].1.well_formed());
    assert(values_well_formed(fields));
}

/// What a list item holds under a key is what the item holds there, in the
/// static shape where the key names a text; under `description` it holds
/// nothing.
pub proof fn lemma_static_fields_lookup(fields: Seq<(Seq<char>, Doc)>, key: Seq<char>)
    ensures
        lookup(static_fields(fields), key) == if key == "description"@ {
            None
        } else {
            match lookup(fields, key) {
                Some(v) => Some(static_field((key, v)).1),
                None => None,
            }
        },
    decreases fields.len(),
{
    if fields.len() == 0 {
        reveal(Seq::filter);
        assert(static_fields(fields) =~= Seq::empty());
    } else {
        let init = fields.drop_last();
        let last = fields.last();
        assert(fields =~= init.push(last));
        lemma_static_fields_lookup(init, key);
        lemma_static_fields_push(init, last);
        lemma_lookup_push(init, last, key);
        if is_listed(last) {
            lemma_lookup_push(static_fields(init), static_field(last), key);
        }
    }
}

/// What a manifest item holds under a key is what the list item holds
/// there, in the pack shape where the key names a text.
pub proof fn lemma_pack_fields_lookup(fields: Seq<(Seq<char>, Doc)>, key: Seq<char>)
    ensures
        lookup(pack_fields(fields), key) == match lookup(fields, key) {
            Some(v) => Some(pack_field((key, v)).1),
            None => None,
        },
{
    lemma_position_names(pack_fields(fields), fields, key);
    lemma_position(fields, key);
}

/// A record with a key bound holds the value under that key, and under
/// every other key what it held before.
pub proof fn lemma_with_field_lookup(
    fields: Seq<(Seq<char>, Doc)>,
    bound: Seq<char>,
    value: Doc,
    key: Seq<char>,
)
    ensures
        lookup(with_field(fields, bound, value), key) == if key == bound {
            Some(value)
        } else {
            lookup(fields, key)
        },
{
    lemma_position(fields, bound);
    lemma_position(fields, key);
    let out = with_field(fields, bound, value);
    match position(fields, bound) {
        Some(p) => {
            if key == bound {
                assert forall|j: int| 0 <= j < p implies out[j].0 != key by {
                    assert(out[j] == fields[j]);
                }
                lemma_position_is(out, key, p);
            } else {
                lemma_position_names(out, fields, key);
            }
        },
        None => {
            lemma_position_concat(fields, seq![(bound, value)], key);
            assert(out =~= fields + seq![(bound, value)]);
            let tail = seq![(bound, value)];
            if key == bound {
                lemma_position_is(tail, key, 0);
            } else {
                lemma_position_none(tail, key);
            }
        },
    }
}

/// A text in the pack shape holds its text.
pub proof fn lemma_text_of_localized(t: Seq<char>)
    ensures
        text_of(localized(t)) == Some(t),
        static_text(localized(t)) == Doc::Text(t),
        pack_text(Doc::Text(t)) == localized(t),
{
    lemma_lookup_one(("en"@, Doc::Text(t)), "en"@);
}

/// A text field in the pack shape is a bare text in the list item, and in
/// the pack shape again in the manifest item made of the list item.
pub proof fn lemma_text_field_round_trip(
    item: Doc,
    key: Seq<char>,
    t: Seq<char>,
    description: Option<Seq<char>>,
)
    requires
        is_text_key(key),
        item.field(key) == Some(localized(t)),
    ensures
        static_item(item).field(key) == Some(Doc::Text(t)),
        pack_item(static_item(item), description).field(key) == Some(localized(t)),
{
    reveal_strlit("title");
    reveal_strlit("subtitle");
    reveal_strlit("author");
    reveal_strlit("description");
    assert(key.len() != "description"@.len());
    let fields = item->Record_0;
    let listed = static_fields(fields);
    lemma_text_of_localized(t);
    lemma_static_fields_lookup(fields, key);
    lemma_pack_fields_lookup(listed, key);
    lemma_with_field_lookup(
        pack_fields(listed),
        "description"@,
        localized(description->Some_0),
        key,
    );
}

/// A description in the pack shape is what the detail states; the list
/// item has none; and the manifest item made of the list item and that
/// description has it in the pack shape again.
pub proof fn lemma_description_round_trip(item: Doc, t: Seq<char>)
    requires
        item.field("description"@) == Some(localized(t)),
        t.len() > 0,
    ensures
        item_description(item) == t,
        static_item(item).field("description"@) is None,
        pack_item(static_item(item), Some(t)).field("description"@) == Some(localized(t)),
{
    let fields = item->Record_0;
    let listed = static_fields(fields);
    lemma_text_of_localized(t);
    lemma_static_fields_lookup(fields, "description"@);
    lemma_with_field_lookup(pack_fields(listed), "description"@, localized(t), "description"@);
}

/// A list item has the name of the item that it shows.
pub proof fn lemma_name_kept(item: Doc)
    ensures
        item_name(static_item(item)) == item_name(item),
{
    reveal_strlit("name");
    reveal_strlit("title");
    reveal_strlit("subtitle");
    reveal_strlit("author");
    reveal_strlit("description");
    assert("name"@.len() == 4);
    match item {
        Doc::Record(fields) => {
            lemma_static_fields_lookup(fields, "name"@);
        },
        _ => {},
    }
}

/// A manifest item has the name of the list item that it is made of.
pub proof fn lemma_name_kept_in_pack(item: Doc, description: Option<Seq<char>>)
    ensures
        item_name(pack_item(item, description)) == item_name(item),
{
    reveal_strlit("name");
    reveal_strlit("title");
    reveal_strlit("subtitle");
    reveal_strlit("author");
    reveal_strlit("description");
    assert("name"@.len() == 4);
    match item {
        Doc::Record(fields) => {
            lemma_pack_fields_lookup(fields, "name"@);
            lemma_with_field_lookup(
                pack_fields(fields),
                "description"@,
                localized(description->Some_0),
                "name"@,
            );
        },
        _ => {},
    }
}

/// The text that a field holds, in either shape.
pub fn text_in<'a>(v: &'a Json) -> (r: Option<&'a String>)
    ensures
        match r {
            Some(s) => text_of(v@) == Some(s@),
            None => text_of(v@) is None,
        },
{
    match v {
        Json::String(s) => Some(s),
        Json::Object(_) => match v.get("en") {
            Some(Json::String(s)) => Some(s),
            _ => None,
        },
        _ => None,
    }
}

/// Whether `key` names one of the text fields.
pub fn text_key(key: &str) -> (r: bool)
    ensures
        r == is_text_key(key@),
{
    same_text(key, "title") || same_text(key, "subtitle") || same_text(key, "author")
}

/// The name of an item.
pub fn name_of<'a>(item: &'a Json) -> (r: Option<&'a String>)
    ensures
        match r {
            Some(s) => item_name(item@) == Some(s@),
            None => item_name(item@) is None,
        },
{
    match item.get("name") {
        Some(Json::String(s)) => Some(s),
        _ => None,
    }
}

/// The description of an item as a detail document states it.
pub fn description_of(item: &Json) -> (r: String)
    ensures
        r@ == item_description(item@),
{
    match item.get("description") {
        Some(d) => match text_in(d) {
            Some(s) => s.clone(),
            None => String::new(),
        },
        None => String::new(),
    }
}

/// An item as a list document shows it.
pub fn to_static(item: &Json) -> (r: Json)
    ensures
        r@ == static_item(item@),
{
    match item {
        Json::Object(fields) => {
            let mut out: Vec<(String, Json)> = Vec::new();
            let mut i: usize = 0;
            while i < fields.len()
                invariant
                    i <= fields@.len(),
                    doc_fields(out@) == static_fields(doc_fields(fields@).take(i as int)),
                decreases fields@.len() - i,
            {
                proof {
                    let all = doc_fields(fields@);
                    assert(all.take(i + 1) =~= all.take(i as int).push(all[i as int]));
                    lemma_static_fields_push(all.take(i as int), all[i as int]);
                }
                let ghost before = doc_fields(out@);
                let key = &fields[i].0;
                if !same_text(key.as_str(), "description") {
                    let value = if text_key(key.as_str()) {
                        match text_in(&fields[i].1) {
                            Some(s) => Json::String(s.clone()),
                            None => fields[i].1.duplicate(),
                        }
                    } else {
                        fields[i].1.duplicate()
                    };
                    out.push((key.clone(), value));
                    assert(doc_fields(out@) =~= before.push(
                        static_field(doc_fields(fields@)[i as int]),
                    ));
                }
                i += 1;
            }
            assert(doc_fields(fields@).take(fields@.len() as int) =~= doc_fields(fields@));
            Json::Object(out)
        },
        _ => item.duplicate(),
    }
}

/// A text in the pack shape.
pub fn localize(t: &str) -> (r: Json)
    ensures
        r@ == localized(t@),
{
    let mut fields: Vec<(String, Json)> = Vec::new();
    fields.push((String::from_str("en"), Json::text(t)));
    assert(doc_fields(fields@) =~= seq![("en"@, Doc::Text(t@))]);
    Json::Object(fields)
}

/// An item as a manifest holds it, with the description that was found for
/// it.
pub fn to_pack(item: &Json, description: Option<&String>) -> (r: Json)
    ensures
        r@ == pack_item(
            item@,
            match description {
                Some(t) => Some(t@),
                None => None,
            },
        ),
{
    match item {
        Json::Object(fields) => {
            let mut out: Vec<(String, Json)> = Vec::new();
            let mut i: usize = 0;
            while i < fields.len()
                invariant
                    i <= fields@.len(),
                    doc_fields(out@) == pack_fields(doc_fields(fields@).take(i as int)),
                decreases fields@.len() - i,
            {
                let ghost before = doc_fields(out@);
                let key = &fields[i].0;
                let value = if text_key(key.as_str()) {
                    match &fields[i].1 {
                        Json::String(s) => localize(s.as_str()),
                        other => other.duplicate(),
                    }
                } else {
                    fields[i].1.duplicate()
                };
                out.push((key.clone(), value));
                assert(doc_fields(out@) =~= before.push(pack_field(doc_fields(fields@)[i as int])));
                assert(doc_fields(out@) =~= pack_fields(doc_fields(fields@).take(i + 1)));
                i += 1;
            }
            assert(doc_fields(fields@).take(fields@.len() as int) =~= doc_fields(fields@));
            match description {
                Some(t) => {
                    if t.as_str().unicode_len() > 0 {
                        set_field(&mut out, "description", localize(t.as_str()));
                    }
                },
                None => {},
            }
            Json::Object(out)
        },
        _ => item.duplicate(),
    }
}

} // verus!
