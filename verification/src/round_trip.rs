//! What holds of a pack that is turned into an archive and back.
//!
//! Documents pass through `serde_json` on the way. A statement that follows
//! a document through its bytes is made of a document that reads back as
//! itself, which `faithful` says.

use crate::assoc::{
    lemma_lookup_one, lemma_lookup_push, lemma_position, lemma_position_is,
    lemma_position_names, lookup, position,
};
use crate::category::{categories, lemma_keys_distinct, lemma_outside_directory, Category};
use crate::codec::{parsed, serialized};
use crate::entry::Content;
use crate::item::{
    is_text_key, item_description, item_name, lemma_description_round_trip, lemma_name_kept,
    lemma_name_kept_in_pack, lemma_text_field_round_trip, localized, static_item,
};
use crate::json::Doc;
use crate::layout::{info_path, package_path, repository_directory, repository_prefix};
use crate::names::{
    is_named, lemma_categories_outside_repository, lemma_detail_in_archive_plan,
    lemma_fixed_plan_outside, lemma_info_in_archive_plan, lemma_list_in_archive_plan,
    lemma_lookup_elsewhere, lemma_no_items_no_entries, none_below, place,
};
use crate::pack_archiver::{
    archive_plan, asset_entry, categories_plan, collection, content_bytes, detail_document,
    fixed_plan, list_document, manifest_info, package_bytes, seal_all, sealed, written,
};
use crate::pack_extractor::{
    archive_info, category_items, described, descriptions, manifest_fields, manifest_of,
    restored_item, restored_items, staged, staged_assets, stated_description, Fault,
};
use crate::seqs::{
    lemma_filter_map_all, lemma_filter_map_concat, lemma_filter_map_none, lemma_first_kept,
    tells_of,
};
use crate::text::{
    after, has_no_slash, lemma_segment_of_path, lemma_starts_with, lemma_starts_with_concat,
    starts_with, trailing_segment,
};
use vstd::prelude::*;

verus! {

/// A document that reads back, from the bytes written for it, as itself.
pub open spec fn faithful(d: Doc) -> bool {
    match serialized(d) {
        Some(bytes) => parsed(bytes) == Some(d),
        None => false,
    }
}

/// Every document of a plan reads back as itself.
pub open spec fn plan_faithful(plan: Seq<(Seq<char>, Content)>) -> bool {
    forall|i: int|
        0 <= i < plan.len() ==> (#[trigger] plan[i].1 matches Content::Document(d) ==> faithful(d))
}

/// The archive of a manifest exists and has a manifest: every document of
/// its plan can be written, and what had to be read on the way back could
/// be.
pub open spec fn converts(m: Doc, assets: Seq<(Seq<char>, Seq<u8>)>) -> bool {
    sealed(archive_plan(m, assets)) is Some && manifest_of(seal_all(archive_plan(m, assets))) is Ok
}

/// The manifest of the archive of a manifest.
pub open spec fn there_and_back(m: Doc, assets: Seq<(Seq<char>, Seq<u8>)>) -> Doc {
    manifest_of(seal_all(archive_plan(m, assets)))->Ok_0
}

/// What a sealed plan holds under a name is what the plan holds there,
/// written out.
pub proof fn lemma_lookup_sealed(plan: Seq<(Seq<char>, Content)>, name: Seq<char>)
    ensures
        lookup(seal_all(plan), name) == match lookup(plan, name) {
            Some(content) => Some(content_bytes(content).unwrap()),
            None => None,
        },
{
    lemma_position_names(seal_all(plan), plan, name);
    lemma_position(plan, name);
}

/// A faithful document of a plan is read back, from what the sealed plan
/// holds under its name, as itself.
pub proof fn lemma_read_back(plan: Seq<(Seq<char>, Content)>, name: Seq<char>, d: Doc)
    requires
        lookup(plan, name) == Some(Content::Document(d)),
        faithful(d),
    ensures
        lookup(seal_all(plan), name) matches Some(bytes) && parsed(bytes) == Some(d),
{
    lemma_lookup_sealed(plan, name);
}

/// What the manifest of an archive holds, where it has one: the info under
/// `info`, and under the key of each category its items.
pub proof fn lemma_manifest_fields_lookup(entries: Seq<(Seq<char>, Seq<u8>)>, n: nat, c: Category)
    requires
        n <= categories().len(),
        manifest_fields(entries, n) is Ok,
    ensures
        archive_info(entries) is Ok,
        lookup(manifest_fields(entries, n)->Ok_0, "info"@) == Some(archive_info(entries)->Ok_0),
        place(c) < n ==> category_items(c, entries) is Ok,
        lookup(manifest_fields(entries, n)->Ok_0, c.spec_key()) == if place(c) < n {
            Some(Doc::List(category_items(c, entries)->Ok_0))
        } else {
            None
        },
    decreases n,
{
    let fields = manifest_fields(entries, n)->Ok_0;
    if n == 0 {
        lemma_keys_distinct(c, c);
        lemma_lookup_one(("info"@, archive_info(entries)->Ok_0), "info"@);
        lemma_lookup_one(("info"@, archive_info(entries)->Ok_0), c.spec_key());
    } else {
        let from = categories()[n - 1];
        let init = manifest_fields(entries, (n - 1) as nat)->Ok_0;
        let last = (from.spec_key(), Doc::List(category_items(from, entries)->Ok_0));
        lemma_manifest_fields_lookup(entries, (n - 1) as nat, c);
        lemma_keys_distinct(from, c);
        lemma_lookup_push(init, last, "info"@);
        lemma_lookup_push(init, last, c.spec_key());
    }
}

/// The manifest of an archive holds its info, and for each category its
/// items.
pub proof fn lemma_manifest_of(entries: Seq<(Seq<char>, Seq<u8>)>, c: Category)
    requires
        manifest_of(entries) is Ok,
    ensures
        archive_info(entries) is Ok,
        category_items(c, entries) is Ok,
        manifest_of(entries)->Ok_0.field("info"@) == Some(archive_info(entries)->Ok_0),
        manifest_of(entries)->Ok_0.field(c.spec_key()) == Some(
            Doc::List(category_items(c, entries)->Ok_0),
        ),
        collection(manifest_of(entries)->Ok_0, c) == category_items(c, entries)->Ok_0,
        manifest_info(manifest_of(entries)->Ok_0) == archive_info(entries)->Ok_0,
{
    lemma_manifest_fields_lookup(entries, categories().len(), c);
}

/// An archive has a manifest where its info and the items of each category
/// can be had.
pub proof fn lemma_manifest_fields_ok(entries: Seq<(Seq<char>, Seq<u8>)>, n: nat)
    requires
        n <= categories().len(),
        archive_info(entries) is Ok,
        forall|c: Category| (#[trigger] category_items(c, entries)) is Ok,
    ensures
        manifest_fields(entries, n) is Ok,
    decreases n,
{
    if n > 0 {
        lemma_manifest_fields_ok(entries, (n - 1) as nat);
        assert(category_items(categories()[n - 1], entries) is Ok);
    }
}

/// The items of a list document as a manifest holds them are the items
/// that the list shows, each in the pack shape.
pub proof fn lemma_restored_items_of_list(items: Seq<Doc>, told: Seq<(Seq<char>, Seq<char>)>)
    ensures
        restored_items(list_document(items), told) == Some(
            items.map_values(|item: Doc| restored_item(static_item(item), told)),
        ),
{
    reveal_strlit("pageCount");
    reveal_strlit("items");
    let fields = list_document(items)->Record_0;
    assert(fields[0].0.len() == 9);
    lemma_position_is(fields, "items"@, 1);
    let listed = items.map_values(|item: Doc| static_item(item));
    assert(listed.map_values(|item: Doc| restored_item(item, told)) =~= items.map_values(
        |item: Doc| restored_item(static_item(item), told),
    ));
}

/// The items that the archive of a manifest holds for a category whose
/// list is faithful: the items of the manifest, each shown as a list shows
/// it and put into the pack shape again.
pub proof fn lemma_category_items_of_archive(
    m: Doc,
    assets: Seq<(Seq<char>, Seq<u8>)>,
    c: Category,
)
    requires
        collection(m, c).len() > 0 ==> faithful(list_document(collection(m, c))),
    ensures
        category_items(c, seal_all(archive_plan(m, assets))) == Ok::<Seq<Doc>, Fault>(
            collection(m, c).map_values(
                |item: Doc|
                    restored_item(
                        static_item(item),
                        descriptions(c, seal_all(archive_plan(m, assets))),
                    ),
            ),
        ),
{
    let plan = archive_plan(m, assets);
    let entries = seal_all(plan);
    let items = collection(m, c);
    let told = descriptions(c, entries);
    lemma_list_in_archive_plan(m, assets, c);
    lemma_lookup_sealed(plan, c.spec_list_path());
    if items.len() > 0 {
        lemma_read_back(plan, c.spec_list_path(), list_document(items));
        lemma_restored_items_of_list(items, told);
    } else {
        assert(items.map_values(|item: Doc| restored_item(static_item(item), told)) =~= Seq::<
            Doc,
        >::empty());
    }
}

/// What the manifest of the archive of a manifest holds for a category
/// whose list is faithful.
pub proof fn lemma_collection_there_and_back(
    m: Doc,
    assets: Seq<(Seq<char>, Seq<u8>)>,
    c: Category,
)
    requires
        converts(m, assets),
        collection(m, c).len() > 0 ==> faithful(list_document(collection(m, c))),
    ensures
        collection(there_and_back(m, assets), c) == collection(m, c).map_values(
            |item: Doc|
                restored_item(
                    static_item(item),
                    descriptions(c, seal_all(archive_plan(m, assets))),
                ),
        ),
{
    lemma_manifest_of(seal_all(archive_plan(m, assets)), c);
    lemma_category_items_of_archive(m, assets, c);
}

/// A document of a faithful plan is faithful.
pub proof fn lemma_faithful_in_plan(plan: Seq<(Seq<char>, Content)>, name: Seq<char>, d: Doc)
    requires
        plan_faithful(plan),
        lookup(plan, name) == Some(Content::Document(d)),
    ensures
        faithful(d),
{
    lemma_position(plan, name);
    let i = position(plan, name)->Some_0;
    assert(plan[i].1 matches Content::Document(d) ==> faithful(d));
}

/// Faithful archives convert back: where every document of the plan of a
/// manifest reads back as itself, the archive exists and has a manifest.
pub proof fn law_faithful_archives_convert_back(m: Doc, assets: Seq<(Seq<char>, Seq<u8>)>)
    requires
        plan_faithful(archive_plan(m, assets)),
    ensures
        converts(m, assets),
{
    let plan = archive_plan(m, assets);
    let entries = seal_all(plan);
    assert forall|i: int| 0 <= i < plan.len() implies content_bytes(
        #[trigger] plan[i].1,
    ) is Some by {
        match plan[i].1 {
            Content::Document(d) => {
                assert(faithful(d));
            },
            Content::Raw(_) => {},
        }
    }
    lemma_info_in_archive_plan(m, assets);
    lemma_faithful_in_plan(plan, info_path(), manifest_info(m));
    lemma_read_back(plan, info_path(), manifest_info(m));
    assert forall|c: Category| (#[trigger] category_items(c, entries)) is Ok by {
        lemma_list_in_archive_plan(m, assets, c);
        if collection(m, c).len() > 0 {
            lemma_faithful_in_plan(plan, c.spec_list_path(), list_document(collection(m, c)));
        }
        lemma_category_items_of_archive(m, assets, c);
    }
    lemma_manifest_fields_ok(entries, categories().len());
}

/// Text fields come back: an item that holds a text field in the pack
/// shape holds it in the same shape, with the same text, in the manifest
/// of the archive of its manifest, at the same place of the same category.
pub proof fn law_text_fields_round_trip(
    m: Doc,
    assets: Seq<(Seq<char>, Seq<u8>)>,
    c: Category,
    i: int,
    key: Seq<char>,
    t: Seq<char>,
)
    requires
        converts(m, assets),
        faithful(list_document(collection(m, c))),
        0 <= i < collection(m, c).len(),
        is_text_key(key),
        collection(m, c)[i].field(key) == Some(localized(t)),
    ensures
        collection(there_and_back(m, assets), c).len() == collection(m, c).len(),
        collection(there_and_back(m, assets), c)[i].field(key) == Some(localized(t)),
{
    let item = collection(m, c)[i];
    let told = descriptions(c, seal_all(archive_plan(m, assets)));
    lemma_collection_there_and_back(m, assets, c);
    lemma_text_field_round_trip(
        item,
        key,
        t,
        match item_name(static_item(item)) {
            Some(name) => lookup(told, name),
            None => None,
        },
    );
}

/// Items keep their places: the manifest of the archive of a manifest
/// holds, for each category, as many items as the manifest, and at each
/// place an item of the same name.
pub proof fn law_items_keep_their_places(
    m: Doc,
    assets: Seq<(Seq<char>, Seq<u8>)>,
    c: Category,
    i: int,
)
    requires
        converts(m, assets),
        faithful(list_document(collection(m, c))),
        0 <= i < collection(m, c).len(),
    ensures
        collection(there_and_back(m, assets), c).len() == collection(m, c).len(),
        item_name(collection(there_and_back(m, assets), c)[i]) == item_name(collection(m, c)[i]),
{
    let item = collection(m, c)[i];
    let told = descriptions(c, seal_all(archive_plan(m, assets)));
    lemma_collection_there_and_back(m, assets, c);
    lemma_name_kept(item);
    lemma_name_kept_in_pack(
        static_item(item),
        match item_name(static_item(item)) {
            Some(name) => lookup(told, name),
            None => None,
        },
    );
}

/// The detail document of an item states the item's description.
pub proof fn lemma_stated_description_of_detail(c: Category, item: Doc)
    ensures
        stated_description(detail_document(c, item)) == Some(item_description(item)),
        detail_document(c, item).field("description"@) == Some(
            Doc::Text(item_description(item)),
        ),
{
    reveal_strlit("item");
    reveal_strlit("description");
    let fields = detail_document(c, item)->Record_0;
    assert(fields[0].0.len() == 4);
    lemma_position_is(fields, "description"@, 1);
}

/// What the archive of a manifest tells of the description of the first
/// item of a name, where the item's detail is faithful: what the detail
/// states.
pub proof fn lemma_description_told(
    m: Doc,
    assets: Seq<(Seq<char>, Seq<u8>)>,
    c: Category,
    i: int,
)
    requires
        is_named(collection(m, c), i),
        item_name(collection(m, c)[i]) != Some("list"@),
        item_name(collection(m, c)[i]) != Some("info"@),
        faithful(detail_document(c, collection(m, c)[i])),
    ensures
        lookup(
            descriptions(c, seal_all(archive_plan(m, assets))),
            item_name(collection(m, c)[i])->Some_0,
        ) == Some(item_description(collection(m, c)[i])),
{
    let item = collection(m, c)[i];
    let name = item_name(item)->Some_0;
    let path = c.spec_item_path(name);
    let plan = archive_plan(m, assets);
    let entries = seal_all(plan);
    let tell = |e: (Seq<char>, Seq<u8>)| described(c, e);
    lemma_detail_in_archive_plan(m, assets, c, i);
    lemma_position(plan, path);
    let j = position(plan, path)->Some_0;
    lemma_starts_with_concat(c.spec_prefix(), name);
    lemma_stated_description_of_detail(c, item);
    assert(entries[j] == written(plan[j]));
    assert(tells_of(tell, entries[j], name));
    assert forall|k: int| 0 <= k < j implies !tells_of(tell, #[trigger] entries[k], name) by {
        assert(entries[k].0 == plan[k].0);
        if tells_of(tell, entries[k], name) {
            lemma_starts_with(entries[k].0, c.spec_prefix());
        }
    }
    lemma_first_kept(entries, tell, name, j);
}

/// Descriptions are placed in the detail and come back: for an item that
/// holds a description in the pack shape, not empty, and is the first of
/// its name in its category, a name that is not that of the category's
/// list or info, the list shows the item without a description; the
/// archive holds, under the item's name, a detail that states the
/// description as a bare text; and the manifest of the archive holds the
/// item with the description in the pack shape.
pub proof fn law_description_is_placed_and_comes_back(
    m: Doc,
    assets: Seq<(Seq<char>, Seq<u8>)>,
    c: Category,
    i: int,
    t: Seq<char>,
)
    requires
        converts(m, assets),
        faithful(list_document(collection(m, c))),
        faithful(detail_document(c, collection(m, c)[i])),
        is_named(collection(m, c), i),
        item_name(collection(m, c)[i]) != Some("list"@),
        item_name(collection(m, c)[i]) != Some("info"@),
        collection(m, c)[i].field("description"@) == Some(localized(t)),
        t.len() > 0,
    ensures
        ({
            let item = collection(m, c)[i];
            let name = item_name(item)->Some_0;
            let back = there_and_back(m, assets);
            &&& lookup(archive_plan(m, assets), c.spec_list_path()) == Some(
                Content::Document(list_document(collection(m, c))),
            )
            &&& list_document(collection(m, c)).field("items"@) matches Some(Doc::List(shown))
            &&& shown[i] == static_item(item)
            &&& shown[i].field("description"@) is None
            &&& lookup(archive_plan(m, assets), c.spec_item_path(name)) == Some(
                Content::Document(detail_document(c, item)),
            )
            &&& detail_document(c, item).field("description"@) == Some(Doc::Text(t))
            &&& collection(back, c).len() == collection(m, c).len()
            &&& collection(back, c)[i].field("description"@) == Some(localized(t))
        }),
{
    let items = collection(m, c);
    let item = items[i];
    reveal_strlit("pageCount");
    reveal_strlit("items");
    let fields = list_document(items)->Record_0;
    assert(fields[0].0.len() == 9);
    lemma_position_is(fields, "items"@, 1);
    lemma_list_in_archive_plan(m, assets, c);
    lemma_description_round_trip(item, t);
    lemma_detail_in_archive_plan(m, assets, c, i);
    lemma_stated_description_of_detail(c, item);
    lemma_collection_there_and_back(m, assets, c);
    lemma_description_told(m, assets, c, i);
    lemma_name_kept(item);
}

/// The info passes through: the archive of a manifest holds the info as
/// its first entry, written as it stands, and where the info is faithful,
/// the manifest of that archive has the same info.
pub proof fn law_info_passes_through(m: Doc, assets: Seq<(Seq<char>, Seq<u8>)>)
    requires
        converts(m, assets),
        faithful(manifest_info(m)),
    ensures
        seal_all(archive_plan(m, assets))[0] == (
            info_path(),
            serialized(manifest_info(m))->Some_0,
        ),
        there_and_back(m, assets).field("info"@) == Some(manifest_info(m)),
{
    let plan = archive_plan(m, assets);
    lemma_info_in_archive_plan(m, assets);
    lemma_read_back(plan, info_path(), manifest_info(m));
    lemma_manifest_of(seal_all(plan), Category::Skins);
}

/// A category that an archive has no entry for is an empty list in its
/// manifest.
pub proof fn law_missing_category_is_empty(entries: Seq<(Seq<char>, Seq<u8>)>, c: Category)
    requires
        none_below(entries, c.spec_prefix()),
        manifest_of(entries) is Ok,
    ensures
        manifest_of(entries)->Ok_0.field(c.spec_key()) == Some(Doc::List(Seq::empty())),
{
    lemma_manifest_of(entries, c);
    lemma_starts_with_concat(c.spec_prefix(), "list"@);
    lemma_lookup_elsewhere(entries, c.spec_prefix(), c.spec_list_path());
}

/// Categories keep to themselves: a category without items has no entry
/// in the archive, and is an empty list in the manifest of that archive.
pub proof fn law_category_isolation(m: Doc, assets: Seq<(Seq<char>, Seq<u8>)>, c: Category)
    requires
        collection(m, c).len() == 0,
    ensures
        none_below(archive_plan(m, assets), c.spec_prefix()),
        sealed(archive_plan(m, assets)) matches Some(entries) ==> {
            &&& none_below(entries, c.spec_prefix())
            &&& (manifest_of(entries) matches Ok(back) ==> back.field(c.spec_key()) == Some(
                Doc::List(Seq::empty()),
            ))
        },
{
    let plan = archive_plan(m, assets);
    let fixed = fixed_plan(m, assets);
    let rest = categories_plan(m, categories().len());
    lemma_fixed_plan_outside(m, assets, c);
    lemma_no_items_no_entries(m, categories().len(), c);
    assert forall|i: int| 0 <= i < plan.len() implies !starts_with(
        #[trigger] plan[i].0,
        c.spec_prefix(),
    ) by {
        if i < fixed.len() {
            assert(plan[i] == fixed[i]);
        } else {
            assert(plan[i] == rest[i - fixed.len()]);
        }
    }
    match sealed(plan) {
        Some(entries) => {
            assert forall|i: int| 0 <= i < entries.len() implies !starts_with(
                #[trigger] entries[i].0,
                c.spec_prefix(),
            ) by {
                assert(entries[i].0 == plan[i].0);
            }
            if manifest_of(entries) is Ok {
                law_missing_category_is_empty(entries, c);
            }
        },
        None => {},
    }
}

/// The name of a file: not empty, one segment, and not that of a
/// directory.
pub open spec fn is_file_name(name: Seq<char>) -> bool {
    name.len() > 0 && has_no_slash(name) && name.last() != '\\'
}

/// A file of a pack's repository under its path in the pack.
pub open spec fn repository_file(asset: (Seq<char>, Seq<u8>)) -> (Seq<char>, Seq<u8>) {
    (repository_directory() + asset.0, asset.1)
}

/// The asset that the archive entry of a file holds is the file.
pub proof fn lemma_staged_asset(asset: (Seq<char>, Seq<u8>))
    requires
        is_file_name(asset.0),
    ensures
        staged(written(asset_entry(asset))) == Some(repository_file(asset)),
{
    reveal_strlit("static/sonolus/");
    reveal_strlit("repository/");
    let dir = repository_prefix();
    let name = dir + asset.0;
    assert(dir.last() == '/') by {
        assert(dir[dir.len() - 1] == "repository/"@[10]);
    }
    lemma_starts_with_concat(dir, asset.0);
    lemma_segment_of_path(dir, asset.0);
    assert(name.last() == asset.0.last());
}

/// Assets are kept: the archive of a pack holds each file of its
/// repository, byte for byte, below the repository directory, in the
/// files' order behind the info and the package; and where each file has
/// the name of a file, the assets of that archive are those files.
pub proof fn law_assets_are_kept(m: Doc, assets: Seq<(Seq<char>, Seq<u8>)>)
    ensures
        forall|k: int|
            0 <= k < assets.len() ==> (#[trigger] seal_all(archive_plan(m, assets))[2 + k]) == (
                repository_prefix() + assets[k].0,
                assets[k].1,
            ),
        (forall|k: int| 0 <= k < assets.len() ==> is_file_name(#[trigger] assets[k].0))
            ==> staged_assets(seal_all(archive_plan(m, assets))) == assets.map_values(
            |a: (Seq<char>, Seq<u8>)| repository_file(a),
        ),
{
    let plan = archive_plan(m, assets);
    let entries = seal_all(plan);
    let head = seq![
        (info_path(), Content::Document(manifest_info(m))),
        (package_path(), Content::Raw(package_bytes())),
    ];
    let middle = assets.map_values(|a: (Seq<char>, Seq<u8>)| asset_entry(a));
    let rest = categories_plan(m, categories().len());
    assert forall|k: int| 0 <= k < assets.len() implies (#[trigger] entries[2 + k]) == (
        repository_prefix() + assets[k].0,
        assets[k].1,
    ) by {
        assert(plan[2 + k] == middle[k]);
    }
    if forall|k: int| 0 <= k < assets.len() ==> is_file_name(#[trigger] assets[k].0) {
        let keep = |e: (Seq<char>, Seq<u8>)| staged(e);
        assert(entries =~= seal_all(head) + seal_all(middle) + seal_all(rest));
        lemma_filter_map_concat(seal_all(head) + seal_all(middle), seal_all(rest), keep);
        lemma_filter_map_concat(seal_all(head), seal_all(middle), keep);
        assert forall|i: int| 0 <= i < seal_all(head).len() implies keep(
            #[trigger] seal_all(head)[i],
        ) is None by {
            let name = seal_all(head)[i].0;
            if starts_with(name, repository_prefix()) {
                lemma_starts_with(name, repository_prefix());
                lemma_outside_directory(
                    Category::Skins,
                    Seq::empty(),
                    after(name, repository_prefix().len()),
                );
            }
        }
        lemma_filter_map_none(seal_all(head), keep);
        lemma_categories_outside_repository(m, categories().len());
        assert forall|i: int| 0 <= i < seal_all(rest).len() implies keep(
            #[trigger] seal_all(rest)[i],
        ) is None by {
            assert(seal_all(rest)[i].0 == rest[i].0);
        }
        lemma_filter_map_none(seal_all(rest), keep);
        let back = |e: (Seq<char>, Seq<u8>)| (repository_directory() + trailing_segment(e.0), e.1);
        assert forall|i: int| 0 <= i < seal_all(middle).len() implies keep(
            #[trigger] seal_all(middle)[i],
        ) == Some(back(seal_all(middle)[i])) by {
            assert(seal_all(middle)[i] == written(asset_entry(assets[i])));
            assert(is_file_name(assets[i].0));
            lemma_staged_asset(assets[i]);
        }
        lemma_filter_map_all(seal_all(middle), keep, back);
        assert(seal_all(middle).map_values(back) =~= assets.map_values(
            |a: (Seq<char>, Seq<u8>)| repository_file(a),
        )) by {
            assert forall|i: int| 0 <= i < assets.len() implies seal_all(middle).map_values(
                back,
            )[i] == repository_file(assets[i]) by {
                assert(is_file_name(assets[i].0));
                lemma_staged_asset(assets[i]);
                assert(seal_all(middle)[i] == written(asset_entry(assets[i])));
            }
        }
        assert(staged_assets(entries) =~= assets.map_values(
            |a: (Seq<char>, Seq<u8>)| repository_file(a),
        ));
    }
}

} // verus!
