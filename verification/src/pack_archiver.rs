//! From a pack to the entries of an archive.

use crate::assoc::distinct_keys;
use crate::category::{categories, Category};
use crate::codec::{encode, serialized, whole};
use crate::entry::{copy_bytes, files, plans, Content, Entry, Payload, Planned};
use crate::error::ScpError;
use crate::item::{
    description_of, item_description, item_name, lemma_static_item_well_formed, name_of,
    static_item, to_static,
};
use crate::json::{
    doc_fields, docs, group_json_view, lemma_field_well_formed, values_well_formed, Doc, Json,
};
use crate::layout::{
    info_entry_name, info_path, package_entry_name, package_path, repository_entry_name,
    repository_prefix,
};
use vstd::prelude::*;
use vstd::string::*;

verus! {

broadcast use group_json_view;

/// The list document of a category: one page that holds every item as a
/// list shows it.
pub open spec fn list_document(items: Seq<Doc>) -> Doc {
    Doc::Record(
        seq![
            ("pageCount"@, Doc::Number(whole(1))),
            ("items"@, Doc::List(items.map_values(|item: Doc| static_item(item)))),
        ],
    )
}

/// The one section of a detail document: the recommended items of the
/// category's type, none of them.
pub open spec fn recommended_section(c: Category) -> Doc {
    Doc::Record(
        seq![
            ("title"@, Doc::Text("#RECOMMENDED"@)),
            ("icon"@, Doc::Text("star"@)),
            ("itemType"@, Doc::Text(c.spec_item_type())),
            ("items"@, Doc::List(Seq::empty())),
        ],
    )
}

/// The detail document of an item: the item as a list shows it, its
/// description as a bare text, and the fixed rest.
pub open spec fn detail_document(c: Category, item: Doc) -> Doc {
    Doc::Record(
        seq![
            ("item"@, static_item(item)),
            ("description"@, Doc::Text(item_description(item))),
            ("actions"@, Doc::List(Seq::empty())),
            ("hasCommunity"@, Doc::Bool(false)),
            ("leaderboards"@, Doc::List(Seq::empty())),
            ("sections"@, Doc::List(seq![recommended_section(c)])),
        ],
    )
}

/// The info document of a category: a search without options.
pub open spec fn category_info_document() -> Doc {
    Doc::Record(seq![("search"@, Doc::Record(seq![("options"@, Doc::List(Seq::empty()))]))])
}

/// The bytes of the package document: an empty object.
pub open spec fn package_bytes() -> Seq<u8> {
    seq![0x7bu8, 0x7du8]
}

/// The info of a manifest: its field `info`, and null where it has none.
pub open spec fn manifest_info(manifest: Doc) -> Doc {
    match manifest.field("info"@) {
        Some(info) => info,
        None => Doc::Null,
    }
}

/// The items of a category in a manifest: the elements of the list under
/// the category's key, and none where there is no such list.
pub open spec fn collection(manifest: Doc, c: Category) -> Seq<Doc> {
    match manifest.field(c.spec_key()) {
        Some(Doc::List(items)) => items,
        _ => Seq::empty(),
    }
}

/// The archive entry of an asset.
pub open spec fn asset_entry(asset: (Seq<char>, Seq<u8>)) -> (Seq<char>, Content) {
    (repository_prefix() + asset.0, Content::Raw(asset.1))
}

/// The detail entry of an item, for an item that has a name that is not
/// empty.
pub open spec fn detail_entry(c: Category, item: Doc) -> Option<(Seq<char>, Content)> {
    match item_name(item) {
        Some(name) if name.len() > 0 => Some(
            (c.spec_item_path(name), Content::Document(detail_document(c, item))),
        ),
        _ => None,
    }
}

/// The detail entries of the items that have one, in the items' order.
pub open spec fn detail_entries(c: Category, items: Seq<Doc>) -> Seq<(Seq<char>, Content)> {
    items.filter_map(|item: Doc| detail_entry(c, item))
}

/// The entries of a category: none where it has no items; else its list, the
/// detail of each named item, and its info.
pub open spec fn category_plan(c: Category, items: Seq<Doc>) -> Seq<(Seq<char>, Content)> {
    if items.len() == 0 {
        Seq::empty()
    } else {
        seq![(c.spec_list_path(), Content::Document(list_document(items)))] + detail_entries(
            c,
            items,
        ) + seq![(c.spec_info_path(), Content::Document(category_info_document()))]
    }
}

/// The entries of the first `n` categories of a manifest.
pub open spec fn categories_plan(manifest: Doc, n: nat) -> Seq<(Seq<char>, Content)>
    decreases n,
{
    if n == 0 || n > categories().len() {
        Seq::empty()
    } else {
        let c = categories()[n - 1];
        categories_plan(manifest, (n - 1) as nat) + category_plan(c, collection(manifest, c))
    }
}

/// The entries that every archive has whatever its categories hold: the
/// manifest's info, the package document, and the assets in their order.
pub open spec fn fixed_plan(manifest: Doc, assets: Seq<(Seq<char>, Seq<u8>)>) -> Seq<
    (Seq<char>, Content),
> {
    seq![
        (info_path(), Content::Document(manifest_info(manifest))),
        (package_path(), Content::Raw(package_bytes())),
    ] + assets.map_values(|a: (Seq<char>, Seq<u8>)| asset_entry(a))
}

/// What the archive of a pack holds: the fixed entries, then the entries of
/// each category in the categories' order.
pub open spec fn archive_plan(manifest: Doc, assets: Seq<(Seq<char>, Seq<u8>)>) -> Seq<
    (Seq<char>, Content),
> {
    fixed_plan(manifest, assets) + categories_plan(manifest, categories().len())
}

/// The bytes that stand for a content, where its document can be written.
pub open spec fn content_bytes(c: Content) -> Option<Seq<u8>> {
    match c {
        Content::Raw(bytes) => Some(bytes),
        Content::Document(d) => serialized(d),
    }
}

/// A planned entry with its document written out.
pub open spec fn written(p: (Seq<char>, Content)) -> (Seq<char>, Seq<u8>) {
    (p.0, content_bytes(p.1).unwrap())
}

/// The entries of a plan with each document written out.
pub open spec fn seal_all(plan: Seq<(Seq<char>, Content)>) -> Seq<(Seq<char>, Seq<u8>)> {
    plan.map_values(|p: (Seq<char>, Content)| written(p))
}

/// The entries of an archive with every document written out, where each
/// of them can be.
pub open spec fn sealed(plan: Seq<(Seq<char>, Content)>) -> Option<Seq<(Seq<char>, Seq<u8>)>> {
    if forall|i: int| 0 <= i < plan.len() ==> content_bytes(#[trigger] plan[i].1) is Some {
        Some(seal_all(plan))
    } else {
        None
    }
}

/// Every document of a plan is well formed.
pub open spec fn plan_well_formed(plan: Seq<(Seq<char>, Content)>) -> bool {
    forall|i: int|
        0 <= i < plan.len() ==> (#[trigger] plan[i].1 matches Content::Document(d)
            ==> d.well_formed())
}

/// The list document of a category.
pub fn build_list_document(items: &Vec<Json>) -> (r: Json)
    ensures
        r@ == list_document(docs(items@)),
{
    let mut listed: Vec<Json> = Vec::new();
    let mut i: usize = 0;
    while i < items.len()
        invariant
            i <= items@.len(),
            listed@.len() == i,
            forall|k: int| 0 <= k < i ==> (#[trigger] listed@[k])@ == static_item(items@[k]@),
        decreases items@.len() - i,
    {
        listed.push(to_static(&items[i]));
        i += 1;
    }
    assert(docs(listed@) =~= docs(items@).map_values(|item: Doc| static_item(item)));
    let mut fields: Vec<(String, Json)> = Vec::new();
    fields.push((String::from_str("pageCount"), Json::whole(1)));
    fields.push((String::from_str("items"), Json::Array(listed)));
    assert(doc_fields(fields@) =~= list_document(docs(items@))->Record_0);
    Json::Object(fields)
}

/// An empty list.
fn empty_list() -> (r: Json)
    ensures
        r@ == Doc::List(Seq::empty()),
{
    let items: Vec<Json> = Vec::new();
    assert(docs(items@) =~= Seq::empty());
    Json::Array(items)
}

/// The one section of a detail document.
fn build_recommended_section(c: Category) -> (r: Json)
    ensures
        r@ == recommended_section(c),
{
    let mut fields: Vec<(String, Json)> = Vec::new();
    fields.push((String::from_str("title"), Json::text("#RECOMMENDED")));
    fields.push((String::from_str("icon"), Json::text("star")));
    fields.push((String::from_str("itemType"), Json::text(c.item_type())));
    fields.push((String::from_str("items"), empty_list()));
    assert(doc_fields(fields@) =~= recommended_section(c)->Record_0);
    Json::Object(fields)
}

/// The detail document of an item.
pub fn build_detail_document(c: Category, item: &Json) -> (r: Json)
    ensures
        r@ == detail_document(c, item@),
{
    let mut sections: Vec<Json> = Vec::new();
    sections.push(build_recommended_section(c));
    assert(docs(sections@) =~= seq![recommended_section(c)]);
    let mut fields: Vec<(String, Json)> = Vec::new();
    fields.push((String::from_str("item"), to_static(item)));
    fields.push((String::from_str("description"), Json::String(description_of(item))));
    fields.push((String::from_str("actions"), empty_list()));
    fields.push((String::from_str("hasCommunity"), Json::Bool(false)));
    fields.push((String::from_str("leaderboards"), empty_list()));
    fields.push((String::from_str("sections"), Json::Array(sections)));
    assert(doc_fields(fields@) =~= detail_document(c, item@)->Record_0);
    Json::Object(fields)
}

/// The info document of a category.
pub fn build_category_info_document() -> (r: Json)
    ensures
        r@ == category_info_document(),
{
    let mut search: Vec<(String, Json)> = Vec::new();
    search.push((String::from_str("options"), empty_list()));
    assert(doc_fields(search@) =~= seq![("options"@, Doc::List(Seq::empty()))]);
    let mut fields: Vec<(String, Json)> = Vec::new();
    fields.push((String::from_str("search"), Json::Object(search)));
    assert(doc_fields(fields@) =~= category_info_document()->Record_0);
    Json::Object(fields)
}

/// The detail entries of a sequence with one more item at its end.
pub proof fn lemma_detail_entries_push(c: Category, items: Seq<Doc>, item: Doc)
    ensures
        detail_entries(c, items.push(item)) == match detail_entry(c, item) {
            Some(e) => detail_entries(c, items).push(e),
            None => detail_entries(c, items),
        },
{
    assert(items.push(item).drop_last() =~= items);
    match detail_entry(c, item) {
        Some(e) => {
            assert(detail_entries(c, items) + seq![e] =~= detail_entries(c, items).push(e));
        },
        None => {},
    }
}

/// Appends the entries of a category to a plan.
pub fn plan_category(c: Category, items: &Vec<Json>, out: &mut Vec<Planned>)
    ensures
        plans(final(out)@) == plans(old(out)@) + category_plan(c, docs(items@)),
{
    let ghost before = plans(out@);
    if items.len() == 0 {
        assert(plans(out@) =~= before + category_plan(c, docs(items@)));
        return ;
    }
    let ghost head = seq![(c.spec_list_path(), Content::Document(list_document(docs(items@))))];
    out.push(
        Planned { name: c.list_path(), payload: Payload::Document(build_list_document(items)) },
    );
    assert(plans(out@) =~= before + head + detail_entries(c, docs(items@).take(0)));
    let mut i: usize = 0;
    while i < items.len()
        invariant
            i <= items@.len(),
            plans(out@) == before + head + detail_entries(c, docs(items@).take(i as int)),
        decreases items@.len() - i,
    {
        proof {
            let all = docs(items@);
            assert(all.take(i + 1) =~= all.take(i as int).push(all[i as int]));
            lemma_detail_entries_push(c, all.take(i as int), all[i as int]);
        }
        let ghost sofar = plans(out@);
        match name_of(&items[i]) {
            Some(name) => {
                if !name.as_str().is_empty() {
                    out.push(
                        Planned {
                            name: c.item_path(name.as_str()),
                            payload: Payload::Document(build_detail_document(c, &items[i])),
                        },
                    );
                    assert(plans(out@) =~= sofar.push(detail_entry(c, items@[i as int]@).unwrap()));
                }
            },
            None => {},
        }
        i += 1;
    }
    assert(docs(items@).take(items@.len() as int) =~= docs(items@));
    let ghost sofar = plans(out@);
    out.push(
        Planned { name: c.info_path(), payload: Payload::Document(build_category_info_document()) },
    );
    assert(plans(out@) =~= sofar.push(
        (c.spec_info_path(), Content::Document(category_info_document())),
    ));
    assert(plans(out@) =~= before + category_plan(c, docs(items@)));
}

/// What the archive of a pack is to hold, each document still in memory.
/// The assets keep the order in which they are given.
pub fn plan(manifest: &Json, assets: &Vec<Entry>) -> (r: Vec<Planned>)
    ensures
        plans(r@) == archive_plan(manifest@, files(assets@)),
{
    let mut out: Vec<Planned> = Vec::new();
    let info = match manifest.get("info") {
        Some(info) => info.duplicate(),
        None => Json::Null,
    };
    out.push(Planned { name: info_entry_name(), payload: Payload::Document(info) });
    let mut package: Vec<u8> = Vec::new();
    package.push(0x7bu8);
    package.push(0x7du8);
    assert(package@ =~= package_bytes());
    out.push(Planned { name: package_entry_name(), payload: Payload::Raw(package) });
    let ghost all = files(assets@);
    assert(plans(out@) =~= fixed_plan(manifest@, all.take(0)));
    let mut i: usize = 0;
    while i < assets.len()
        invariant
            i <= assets@.len(),
            all == files(assets@),
            plans(out@) == fixed_plan(manifest@, all.take(i as int)),
        decreases assets@.len() - i,
    {
        let ghost sofar = plans(out@);
        out.push(
            Planned {
                name: repository_entry_name(assets[i].name.as_str()),
                payload: Payload::Raw(copy_bytes(&assets[i].bytes)),
            },
        );
        assert(plans(out@) =~= sofar.push(asset_entry(all[i as int])));
        assert(all.take(i + 1) =~= all.take(i as int).push(all[i as int]));
        assert(plans(out@) =~= fixed_plan(manifest@, all.take(i + 1)));
        i += 1;
    }
    assert(all.take(assets@.len() as int) =~= all);
    let ghost fixed = fixed_plan(manifest@, all);
    let table = Category::all();
    let mut n: usize = 0;
    while n < table.len()
        invariant
            n <= table@.len(),
            table@ == categories(),
            plans(out@) == fixed + categories_plan(manifest@, n as nat),
        decreases table@.len() - n,
    {
        let c = table[n];
        let ghost sofar = plans(out@);
        match manifest.get(c.key()) {
            Some(Json::Array(items)) => {
                plan_category(c, items, &mut out);
            },
            _ => {
                assert(plans(out@) =~= sofar + category_plan(c, collection(manifest@, c)));
            },
        }
        assert(plans(out@) =~= fixed + categories_plan(manifest@, (n + 1) as nat));
        n += 1;
    }
    out
}

/// The list document of well-formed items is well formed.
pub proof fn lemma_list_document_well_formed(items: Seq<Doc>)
    requires
        Doc::List(items).well_formed(),
    ensures
        list_document(items).well_formed(),
{
    reveal_strlit("pageCount");
    reveal_strlit("items");
    let listed = items.map_values(|item: Doc| static_item(item));
    assert forall|i: int| 0 <= i < listed.len() implies (#[trigger] listed[i]).well_formed() by {
        assert(items[i].well_formed());
        lemma_static_item_well_formed(items[i]);
    }
    assert(Doc::List(listed).well_formed());
    let fields = list_document(items)->Record_0;
    assert(fields[0].0.len() == 9 && fields[1].0.len() == 5);
    assert(fields[0].1.well_formed());
    assert(fields[1].1.well_formed());
    assert(distinct_keys(fields));
    assert(values_well_formed(fields));
}

/// The detail document of a well-formed item is well formed.
pub proof fn lemma_detail_document_well_formed(c: Category, item: Doc)
    requires
        item.well_formed(),
    ensures
        detail_document(c, item).well_formed(),
{
    reveal_strlit("item");
    reveal_strlit("description");
    reveal_strlit("actions");
    reveal_strlit("hasCommunity");
    reveal_strlit("leaderboards");
    reveal_strlit("sections");
    reveal_strlit("title");
    reveal_strlit("icon");
    reveal_strlit("itemType");
    reveal_strlit("items");
    lemma_static_item_well_formed(item);
    let section = recommended_section(c);
    let inner = section->Record_0;
    assert(inner[0].1.well_formed() && inner[1].1.well_formed() && inner[2].1.well_formed()
        && inner[3].1.well_formed());
    assert(inner[0].0 != inner[1].0 && inner[0].0 != inner[2].0 && inner[0].0 != inner[3].0
        && inner[1].0 != inner[2].0 && inner[1].0 != inner[3].0 && inner[2].0 != inner[3].0) by {
        assert(inner[0].0[0] == 't' && inner[0].0[4] == 'e');
        assert(inner[1].0[1] == 'c');
        assert(inner[3].0[4] == 's');
    }
    assert(distinct_keys(inner));
    assert(values_well_formed(inner));
    assert(section.well_formed());
    let sections = seq![section];
    assert(sections[0].well_formed());
    assert(Doc::List(sections).well_formed());
    let fields = detail_document(c, item)->Record_0;
    assert(fields[0].1.well_formed() && fields[1].1.well_formed() && fields[2].1.well_formed()
        && fields[3].1.well_formed() && fields[4].1.well_formed() && fields[5].1.well_formed());
    assert(fields[0].0.len() == 4 && fields[1].0.len() == 11 && fields[2].0.len() == 7
        && fields[3].0.len() == 12 && fields[4].0.len() == 12 && fields[5].0.len() == 8);
    assert(fields[3].0[0] == 'h' && fields[4].0[0] == 'l');
    assert(distinct_keys(fields));
    assert(values_well_formed(fields));
}

/// The info document of a category is well formed.
pub proof fn lemma_category_info_document_well_formed()
    ensures
        category_info_document().well_formed(),
{
    let inner = seq![("options"@, Doc::List(Seq::empty()))];
    assert(inner[0].1.well_formed());
    assert(Doc::Record(inner).well_formed());
    let fields = category_info_document()->Record_0;
    assert(fields[0].1.well_formed());
}

/// The detail entries of well-formed items hold well-formed documents.
pub proof fn lemma_detail_entries_well_formed(c: Category, items: Seq<Doc>)
    requires
        Doc::List(items).well_formed(),
    ensures
        plan_well_formed(detail_entries(c, items)),
    decreases items.len(),
{
    if items.len() > 0 {
        let init = items.drop_last();
        assert(items =~= init.push(items.last()));
        assert(forall|i: int| 0 <= i < init.len() ==> init[i] == items[i]);
        assert(Doc::List(init).well_formed());
        lemma_detail_entries_well_formed(c, init);
        lemma_detail_entries_push(c, init, items.last());
        assert(items[items.len() - 1].well_formed());
        lemma_detail_document_well_formed(c, items.last());
    }
}

/// The entries of a category of well-formed items hold well-formed
/// documents.
pub proof fn lemma_category_plan_well_formed(c: Category, items: Seq<Doc>)
    requires
        Doc::List(items).well_formed(),
    ensures
        plan_well_formed(category_plan(c, items)),
{
    lemma_list_document_well_formed(items);
    lemma_detail_entries_well_formed(c, items);
    lemma_category_info_document_well_formed();
}

/// The entries of the categories of a well-formed manifest hold well-formed
/// documents.
pub proof fn lemma_categories_plan_well_formed(manifest: Doc, n: nat)
    requires
        manifest.well_formed(),
    ensures
        plan_well_formed(categories_plan(manifest, n)),
    decreases n,
{
    if n == 0 || n > categories().len() {
    } else {
        let c = categories()[n - 1];
        lemma_categories_plan_well_formed(manifest, (n - 1) as nat);
        lemma_field_well_formed(manifest, c.spec_key());
        assert(Doc::List(collection(manifest, c)).well_formed());
        lemma_category_plan_well_formed(c, collection(manifest, c));
    }
}

/// The plan of a well-formed manifest holds well-formed documents.
pub proof fn lemma_archive_plan_well_formed(manifest: Doc, assets: Seq<(Seq<char>, Seq<u8>)>)
    requires
        manifest.well_formed(),
    ensures
        plan_well_formed(archive_plan(manifest, assets)),
{
    lemma_field_well_formed(manifest, "info"@);
    lemma_categories_plan_well_formed(manifest, categories().len());
}

/// Writes out every document of a plan. Fails with the first document that
/// cannot be written.
pub fn seal(plan: Vec<Planned>) -> (r: Result<Vec<Entry>, ScpError>)
    requires
        plan_well_formed(plans(plan@)),
    ensures
        match r {
            Ok(entries) => sealed(plans(plan@)) == Some(files(entries@)),
            Err(e) => sealed(plans(plan@)) is None && e is Json,
        },
{
    let ghost all = plans(plan@);
    let mut out: Vec<Entry> = Vec::new();
    for planned in it: plan
        invariant
            all == plans(it.seq()),
            plan_well_formed(all),
            out@.len() == it.index(),
            forall|k: int|
                0 <= k < out@.len() ==> content_bytes(all[k].1) == Some((#[trigger] out@[k]).bytes@)
                    && out@[k].name@ == all[k].0,
    {
        let ghost k = it.index() as int;
        assert(all[k] == planned@);
        let Planned { name, payload } = planned;
        match payload {
            Payload::Raw(bytes) => {
                out.push(Entry { name, bytes });
            },
            Payload::Document(j) => {
                assert(all[k].1 matches Content::Document(d) ==> d.well_formed());
                match encode(&j) {
                    Ok(bytes) => {
                        out.push(Entry { name, bytes });
                    },
                    Err(e) => {
                        assert(content_bytes(all[k].1) is None);
                        return Err(e);
                    },
                }
            },
        }
    }
    assert forall|i: int| 0 <= i < all.len() implies content_bytes(#[trigger] all[i].1) is Some by {
        assert(content_bytes(all[i].1) == Some(out@[i].bytes@));
    }
    assert(files(out@) =~= seal_all(all));
    Ok(out)
}

/// Turns a pack into the entries of an archive.
pub struct PackArchiver {
    compression_level: i64,
}

impl PackArchiver {
    /// The level at which an archiver compresses unless told otherwise.
    pub open spec fn default_level() -> i64 {
        6
    }

    /// The level at which this archiver compresses.
    pub closed spec fn level(self) -> i64 {
        self.compression_level
    }

    /// An archiver that compresses at the default level.
    pub fn new() -> (r: PackArchiver)
        ensures
            r.level() == PackArchiver::default_level(),
    {
        PackArchiver { compression_level: 6 }
    }

    /// The archiver with another level of compression.
    pub fn with_compression_level(self, level: i64) -> (r: PackArchiver)
        ensures
            r.level() == level,
    {
        PackArchiver { compression_level: level }
    }

    /// The level at which the entries are to be compressed.
    pub fn compression_level(&self) -> (r: i64)
        ensures
            r == self.level(),
    {
        self.compression_level
    }

    /// The entries of the archive of a pack, from its manifest and the files
    /// of its repository. Fails where a document cannot be written.
    pub fn archive(&self, manifest: &Json, assets: &Vec<Entry>) -> (r: Result<
        Vec<Entry>,
        ScpError,
    >)
        requires
            manifest@.well_formed(),
        ensures
            match r {
                Ok(entries) => sealed(archive_plan(manifest@, files(assets@))) == Some(
                    files(entries@),
                ),
                Err(e) => sealed(archive_plan(manifest@, files(assets@))) is None && e is Json,
            },
    {
        proof {
            lemma_archive_plan_well_formed(manifest@, files(assets@));
        }
        seal(plan(manifest, assets))
    }
}

} // verus!
