//! Where the entries of an archive stand: what the plan of a manifest holds
//! under which name.

use crate::assoc::{
    lemma_lookup_one, lemma_lookup_push, lemma_position_concat, lemma_position_is,
    lemma_position_none, lookup,
};
use crate::category::{categories, lemma_outside_directory, lemma_same_directory, Category};
use crate::entry::Content;
use crate::item::item_name;
use crate::json::Doc;
use crate::layout::{info_path, repository_prefix};
use crate::pack_archiver::{
    archive_plan, categories_plan, category_info_document, category_plan, collection,
    detail_document, detail_entries, detail_entry, fixed_plan, lemma_detail_entries_push,
    list_document, manifest_info,
};
use crate::text::{
    after, lemma_concat_cancel, lemma_starts_with, lemma_starts_with_concat, starts_with,
};
use vstd::prelude::*;

verus! {

/// Every name of the sequence stands below the directory.
pub open spec fn all_below<V>(pairs: Seq<(Seq<char>, V)>, dir: Seq<char>) -> bool {
    forall|i: int| 0 <= i < pairs.len() ==> starts_with(#[trigger] pairs[i].0, dir)
}

/// No name of the sequence stands below the directory.
pub open spec fn none_below<V>(pairs: Seq<(Seq<char>, V)>, dir: Seq<char>) -> bool {
    forall|i: int| 0 <= i < pairs.len() ==> !starts_with(#[trigger] pairs[i].0, dir)
}

/// The place of a category in the table.
pub open spec fn place(c: Category) -> int {
    match c {
        Category::Skins => 0,
        Category::Backgrounds => 1,
        Category::Effects => 2,
        Category::Particles => 3,
        Category::Engines => 4,
        Category::Levels => 5,
        Category::Replays => 6,
        Category::Playlists => 7,
        Category::Posts => 8,
    }
}

/// The detail entries of a category stand below its directory.
pub proof fn lemma_detail_entries_below(c: Category, items: Seq<Doc>)
    ensures
        all_below(detail_entries(c, items), c.spec_prefix()),
    decreases items.len(),
{
    if items.len() > 0 {
        let init = items.drop_last();
        assert(items =~= init.push(items.last()));
        lemma_detail_entries_below(c, init);
        lemma_detail_entries_push(c, init, items.last());
        match detail_entry(c, items.last()) {
            Some(e) => {
                lemma_starts_with_concat(c.spec_prefix(), item_name(items.last())->Some_0);
            },
            None => {},
        }
    }
}

/// The entries of a category stand below its directory.
pub proof fn lemma_category_plan_below(c: Category, items: Seq<Doc>)
    ensures
        all_below(category_plan(c, items), c.spec_prefix()),
{
    lemma_detail_entries_below(c, items);
    lemma_starts_with_concat(c.spec_prefix(), "list"@);
    lemma_starts_with_concat(c.spec_prefix(), "info"@);
    let plan = category_plan(c, items);
    let details = detail_entries(c, items);
    assert forall|i: int| 0 <= i < plan.len() implies starts_with(
        #[trigger] plan[i].0,
        c.spec_prefix(),
    ) by {
        if 0 < i <= details.len() {
            assert(plan[i] == details[i - 1]);
        }
    }
}

/// No name below the directory of one category is a name below that of
/// another.
pub proof fn lemma_below_another<V>(pairs: Seq<(Seq<char>, V)>, a: Category, b: Category)
    requires
        all_below(pairs, a.spec_prefix()),
        a != b,
    ensures
        none_below(pairs, b.spec_prefix()),
{
    assert forall|i: int| 0 <= i < pairs.len() implies !starts_with(
        #[trigger] pairs[i].0,
        b.spec_prefix(),
    ) by {
        let name = pairs[i].0;
        if starts_with(name, b.spec_prefix()) {
            lemma_starts_with(name, a.spec_prefix());
            lemma_starts_with(name, b.spec_prefix());
            lemma_same_directory(
                a,
                after(name, a.spec_prefix().len()),
                b,
                after(name, b.spec_prefix().len()),
            );
        }
    }
}

/// A name that stands below no directory that a sequence's names stand
/// below is not found in it.
pub proof fn lemma_lookup_elsewhere<V>(pairs: Seq<(Seq<char>, V)>, dir: Seq<char>, name: Seq<char>)
    requires
        forall|i: int| 0 <= i < pairs.len() ==> !starts_with(#[trigger] pairs[i].0, dir),
        starts_with(name, dir),
    ensures
        lookup(pairs, name) is None,
{
    assert forall|i: int| 0 <= i < pairs.len() implies pairs[i].0 != name by {
        assert(!starts_with(pairs[i].0, dir));
    }
    lemma_position_none(pairs, name);
}

/// None of the fixed entries stands below the directory of a category.
pub proof fn lemma_fixed_plan_outside(m: Doc, assets: Seq<(Seq<char>, Seq<u8>)>, c: Category)
    ensures
        forall|i: int|
            0 <= i < fixed_plan(m, assets).len() ==> !starts_with(
                #[trigger] fixed_plan(m, assets)[i].0,
                c.spec_prefix(),
            ),
{
    let fixed = fixed_plan(m, assets);
    assert forall|i: int| 0 <= i < fixed.len() implies !starts_with(
        #[trigger] fixed[i].0,
        c.spec_prefix(),
    ) by {
        let name = fixed[i].0;
        if starts_with(name, c.spec_prefix()) {
            lemma_starts_with(name, c.spec_prefix());
            let y = after(name, c.spec_prefix().len());
            if i >= 2 {
                assert(name == repository_prefix() + assets[i - 2].0);
                lemma_outside_directory(c, y, assets[i - 2].0);
            } else {
                lemma_outside_directory(c, y, Seq::empty());
            }
        }
    }
}

/// Under a name below the directory of a category, the plan of a manifest
/// holds what the entries of that category hold.
pub proof fn lemma_lookup_in_categories_plan(m: Doc, n: nat, c: Category, name: Seq<char>)
    requires
        n <= categories().len(),
        starts_with(name, c.spec_prefix()),
    ensures
        lookup(categories_plan(m, n), name) == if place(c) < n {
            lookup(category_plan(c, collection(m, c)), name)
        } else {
            None
        },
    decreases n,
{
    if n == 0 {
        lemma_position_none(categories_plan(m, n), name);
    } else {
        let from = categories()[n - 1];
        let init = categories_plan(m, (n - 1) as nat);
        let last = category_plan(from, collection(m, from));
        lemma_lookup_in_categories_plan(m, (n - 1) as nat, c, name);
        lemma_position_concat(init, last, name);
        if from != c {
            lemma_category_plan_below(from, collection(m, from));
            lemma_below_another(last, from, c);
            lemma_lookup_elsewhere(last, c.spec_prefix(), name);
        }
    }
}

/// Under a name below the directory of a category, the plan of a manifest
/// holds what the entries of that category hold.
pub proof fn lemma_lookup_in_archive_plan(
    m: Doc,
    assets: Seq<(Seq<char>, Seq<u8>)>,
    c: Category,
    name: Seq<char>,
)
    requires
        starts_with(name, c.spec_prefix()),
    ensures
        lookup(archive_plan(m, assets), name) == lookup(
            category_plan(c, collection(m, c)),
            name,
        ),
{
    let fixed = fixed_plan(m, assets);
    let rest = categories_plan(m, categories().len());
    lemma_fixed_plan_outside(m, assets, c);
    lemma_lookup_elsewhere(fixed, c.spec_prefix(), name);
    lemma_lookup_in_categories_plan(m, categories().len(), c, name);
    lemma_position_concat(fixed, rest, name);
}

/// A category without items has no entry among those of the first
/// categories.
pub proof fn lemma_no_items_no_entries(m: Doc, n: nat, c: Category)
    requires
        n <= categories().len(),
        collection(m, c).len() == 0,
    ensures
        none_below(categories_plan(m, n), c.spec_prefix()),
    decreases n,
{
    if n > 0 {
        let from = categories()[n - 1];
        let init = categories_plan(m, (n - 1) as nat);
        let last = category_plan(from, collection(m, from));
        lemma_no_items_no_entries(m, (n - 1) as nat, c);
        if from != c {
            lemma_category_plan_below(from, collection(m, from));
            lemma_below_another(last, from, c);
        }
        let all = categories_plan(m, n);
        assert forall|i: int| 0 <= i < all.len() implies !starts_with(
            #[trigger] all[i].0,
            c.spec_prefix(),
        ) by {
            if i < init.len() {
                assert(all[i] == init[i]);
            } else {
                assert(all[i] == last[i - init.len()]);
            }
        }
    }
}

/// None of the entries of the categories stands below the repository.
pub proof fn lemma_categories_outside_repository(m: Doc, n: nat)
    requires
        n <= categories().len(),
    ensures
        none_below(categories_plan(m, n), repository_prefix()),
    decreases n,
{
    if n > 0 {
        let from = categories()[n - 1];
        let init = categories_plan(m, (n - 1) as nat);
        let last = category_plan(from, collection(m, from));
        lemma_categories_outside_repository(m, (n - 1) as nat);
        lemma_category_plan_below(from, collection(m, from));
        let all = categories_plan(m, n);
        assert forall|i: int| 0 <= i < all.len() implies !starts_with(
            #[trigger] all[i].0,
            repository_prefix(),
        ) by {
            if i < init.len() {
                assert(all[i] == init[i]);
            } else {
                let name = last[i - init.len()].0;
                assert(all[i].0 == name);
                if starts_with(name, repository_prefix()) {
                    lemma_starts_with(name, repository_prefix());
                    lemma_starts_with(name, from.spec_prefix());
                    lemma_outside_directory(
                        from,
                        after(name, from.spec_prefix().len()),
                        after(name, repository_prefix().len()),
                    );
                }
            }
        }
    }
}

/// The list document that the archive of a manifest holds for a category:
/// none where the category has no items.
pub open spec fn listed(m: Doc, c: Category) -> Option<Content> {
    if collection(m, c).len() > 0 {
        Some(Content::Document(list_document(collection(m, c))))
    } else {
        None
    }
}

/// Under the name of a category's list, the entries of a category hold
/// that list, and those of another category nothing.
pub proof fn lemma_list_in_category_plan(from: Category, items: Seq<Doc>, c: Category)
    ensures
        lookup(category_plan(from, items), c.spec_list_path()) == if from == c && items.len() > 0 {
            Some(Content::Document(list_document(items)))
        } else {
            None
        },
{
    let plan = category_plan(from, items);
    if from == c {
        if items.len() > 0 {
            lemma_position_is(plan, c.spec_list_path(), 0);
        } else {
            lemma_position_none(plan, c.spec_list_path());
        }
    } else {
        lemma_category_plan_below(from, items);
        lemma_below_another(plan, from, c);
        lemma_starts_with_concat(c.spec_prefix(), "list"@);
        lemma_lookup_elsewhere(plan, c.spec_prefix(), c.spec_list_path());
    }
}

/// Under the name of a category's list, the plan of a manifest holds that
/// list, and nothing where the category has no items.
pub proof fn lemma_list_in_archive_plan(m: Doc, assets: Seq<(Seq<char>, Seq<u8>)>, c: Category)
    ensures
        lookup(archive_plan(m, assets), c.spec_list_path()) == listed(m, c),
{
    lemma_starts_with_concat(c.spec_prefix(), "list"@);
    lemma_lookup_in_archive_plan(m, assets, c, c.spec_list_path());
    lemma_list_in_category_plan(c, collection(m, c), c);
}

/// Under the name of the info, the plan of a manifest holds its info.
pub proof fn lemma_info_in_archive_plan(m: Doc, assets: Seq<(Seq<char>, Seq<u8>)>)
    ensures
        lookup(archive_plan(m, assets), info_path()) == Some(
            Content::Document(manifest_info(m)),
        ),
{
    lemma_position_is(archive_plan(m, assets), info_path(), 0);
}

/// No earlier item of the sequence has the name of the item at `i`.
pub open spec fn first_of_its_name(items: Seq<Doc>, i: int) -> bool {
    forall|k: int| 0 <= k < i ==> item_name(#[trigger] items[k]) != item_name(items[i])
}

/// An item that has a name, not empty, which no earlier item of its
/// category has.
pub open spec fn is_named(items: Seq<Doc>, i: int) -> bool {
    &&& 0 <= i < items.len()
    &&& item_name(items[i]) matches Some(name)
    &&& name.len() > 0
    &&& first_of_its_name(items, i)
}

/// The detail entries of items none of which has a name hold nothing under
/// that name.
pub proof fn lemma_no_detail_of_name(c: Category, items: Seq<Doc>, name: Seq<char>)
    requires
        forall|k: int| 0 <= k < items.len() ==> item_name(#[trigger] items[k]) != Some(name),
    ensures
        lookup(detail_entries(c, items), c.spec_item_path(name)) is None,
    decreases items.len(),
{
    let path = c.spec_item_path(name);
    if items.len() == 0 {
        lemma_position_none(detail_entries(c, items), path);
    } else {
        let init = items.drop_last();
        let last = items.last();
        assert(items =~= init.push(last));
        assert forall|k: int| 0 <= k < init.len() implies item_name(#[trigger] init[k]) != Some(
            name,
        ) by {
            assert(init[k] == items[k]);
        }
        lemma_no_detail_of_name(c, init, name);
        lemma_detail_entries_push(c, init, last);
        assert(item_name(items[items.len() - 1]) != Some(name));
        match detail_entry(c, last) {
            Some(e) => {
                lemma_lookup_push(detail_entries(c, init), e, path);
                if e.0 == path {
                    lemma_concat_cancel(
                        c.spec_prefix(),
                        item_name(last)->Some_0,
                        name,
                    );
                }
            },
            None => {},
        }
    }
}

/// The detail entries of the items hold, under the name of an item, the
/// detail of the first item of that name.
pub proof fn lemma_detail_lookup(c: Category, items: Seq<Doc>, i: int)
    requires
        is_named(items, i),
    ensures
        lookup(detail_entries(c, items), c.spec_item_path(item_name(items[i])->Some_0)) == Some(
            Content::Document(detail_document(c, items[i])),
        ),
    decreases items.len(),
{
    let name = item_name(items[i])->Some_0;
    let path = c.spec_item_path(name);
    let init = items.drop_last();
    let last = items.last();
    assert(items =~= init.push(last));
    lemma_detail_entries_push(c, init, last);
    if i < init.len() {
        assert(init[i] == items[i]);
        assert forall|k: int| 0 <= k < i implies item_name(#[trigger] init[k]) != item_name(
            init[i],
        ) by {
            assert(init[k] == items[k]);
        }
        lemma_detail_lookup(c, init, i);
        match detail_entry(c, last) {
            Some(e) => {
                lemma_lookup_push(detail_entries(c, init), e, path);
            },
            None => {},
        }
    } else {
        let e = detail_entry(c, last)->Some_0;
        assert forall|k: int| 0 <= k < init.len() implies item_name(#[trigger] init[k]) != Some(
            name,
        ) by {
            assert(init[k] == items[k]);
        }
        lemma_no_detail_of_name(c, init, name);
        lemma_lookup_push(detail_entries(c, init), e, path);
    }
}

/// Under the name of the first item of a name, a name that is not that of
/// the category's list, the plan of a manifest holds the item's detail.
pub proof fn lemma_detail_in_archive_plan(
    m: Doc,
    assets: Seq<(Seq<char>, Seq<u8>)>,
    c: Category,
    i: int,
)
    requires
        is_named(collection(m, c), i),
        item_name(collection(m, c)[i]) != Some("list"@),
    ensures
        lookup(
            archive_plan(m, assets),
            c.spec_item_path(item_name(collection(m, c)[i])->Some_0),
        ) == Some(Content::Document(detail_document(c, collection(m, c)[i]))),
{
    let items = collection(m, c);
    let name = item_name(items[i])->Some_0;
    let path = c.spec_item_path(name);
    lemma_starts_with_concat(c.spec_prefix(), name);
    lemma_lookup_in_archive_plan(m, assets, c, path);
    let head = seq![(c.spec_list_path(), Content::Document(list_document(items)))];
    let details = detail_entries(c, items);
    let tail = seq![(c.spec_info_path(), Content::Document(category_info_document()))];
    assert(category_plan(c, items) =~= (head + details) + tail);
    lemma_position_concat(head + details, tail, path);
    lemma_position_concat(head, details, path);
    if c.spec_list_path() == path {
        lemma_concat_cancel(c.spec_prefix(), "list"@, name);
    }
    lemma_lookup_one(head[0], path);
    lemma_detail_lookup(c, items, i);
}

} // verus!
