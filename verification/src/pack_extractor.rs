//! From the entries of an archive to a pack.

use crate::assoc::{lemma_position, lemma_position_is, lookup};
use crate::category::{categories, lemma_keys_distinct, Category};
use crate::codec::{decode, parsed};
use crate::entry::{copy_bytes, files, Entry};
use crate::error::ScpError;
use crate::item::{item_name, lemma_pack_item_well_formed, name_of, pack_item, to_pack};
use crate::json::{
    doc_fields, docs, group_json_view, lemma_field_well_formed, values_well_formed, Doc, Json,
};
use crate::layout::{
    info_entry_name, info_path, repository_directory, repository_entry_prefix,
    repository_file_name, repository_prefix,
};
use crate::text::{
    after, decimal, is_directory_name, same_text, split_name, starts_with, strip_prefix,
    to_decimal, trailing_segment,
};
use vstd::prelude::*;
use vstd::string::*;

verus! {

broadcast use group_json_view;

/// Why an archive cannot be turned into a pack.
pub enum Fault {
    /// A document that had to be read could not be.
    Document,
    /// A list document without a list of items.
    Format,
}

/// What is said of a list document that has no list of items.
pub open spec fn shapeless_list() -> Seq<char> {
    "list document without items"@
}

impl Fault {
    /// The error by which a fault is reported.
    pub open spec fn reported_as(self, e: ScpError) -> bool {
        match self {
            Fault::Document => e is Json,
            Fault::Format => match e {
                ScpError::InvalidFormat(m) => m@ == shapeless_list(),
                _ => false,
            },
        }
    }
}

/// The asset that an entry holds: an entry below the repository directory
/// that is no directory and has a last segment, under that segment.
pub open spec fn staged(entry: (Seq<char>, Seq<u8>)) -> Option<(Seq<char>, Seq<u8>)> {
    if starts_with(entry.0, repository_prefix()) && !is_directory_name(entry.0)
        && trailing_segment(entry.0).len() > 0 {
        Some((repository_directory() + trailing_segment(entry.0), entry.1))
    } else {
        None
    }
}

/// The assets of an archive, in the order of its entries.
pub open spec fn staged_assets(entries: Seq<(Seq<char>, Seq<u8>)>) -> Seq<(Seq<char>, Seq<u8>)> {
    entries.filter_map(|e: (Seq<char>, Seq<u8>)| staged(e))
}

/// The description that a detail document states: the text of its field
/// `description`.
pub open spec fn stated_description(detail: Doc) -> Option<Seq<char>> {
    match detail.field("description"@) {
        Some(Doc::Text(t)) => Some(t),
        _ => None,
    }
}

/// The name of the item whose detail an entry of the category holds: what
/// follows the category's directory, unless that is empty or the name of the
/// category's list or info.
pub open spec fn detail_name(c: Category, name: Seq<char>) -> Option<Seq<char>> {
    if starts_with(name, c.spec_prefix()) {
        let rest = after(name, c.spec_prefix().len());
        if rest.len() == 0 || rest == "list"@ || rest == "info"@ {
            None
        } else {
            Some(rest)
        }
    } else {
        None
    }
}

/// The description that an entry tells of an item of the category: the
/// item's name and the text, where the entry is the detail of an item, can
/// be read and states a description.
pub open spec fn described(c: Category, entry: (Seq<char>, Seq<u8>)) -> Option<
    (Seq<char>, Seq<char>),
> {
    match detail_name(c, entry.0) {
        Some(name) => match parsed(entry.1) {
            Some(detail) => match stated_description(detail) {
                Some(t) => Some((name, t)),
                None => None,
            },
            None => None,
        },
        None => None,
    }
}

/// The descriptions of the items of a category, in the order of the entries.
pub open spec fn descriptions(c: Category, entries: Seq<(Seq<char>, Seq<u8>)>) -> Seq<
    (Seq<char>, Seq<char>),
> {
    entries.filter_map(|e: (Seq<char>, Seq<u8>)| described(c, e))
}

/// A list item as a manifest holds it: in the pack shape, with the first
/// description that is told of its name.
pub open spec fn restored_item(item: Doc, told: Seq<(Seq<char>, Seq<char>)>) -> Doc {
    pack_item(
        item,
        match item_name(item) {
            Some(name) => lookup(told, name),
            None => None,
        },
    )
}

/// The items of a list document as a manifest holds them, where the
/// document has a list of items.
pub open spec fn restored_items(list: Doc, told: Seq<(Seq<char>, Seq<char>)>) -> Option<Seq<Doc>> {
    match list.field("items"@) {
        Some(Doc::List(items)) => Some(items.map_values(|item: Doc| restored_item(item, told))),
        _ => None,
    }
}

/// The items of a category as an archive holds them: none where it has no
/// list document for the category.
pub open spec fn category_items(c: Category, entries: Seq<(Seq<char>, Seq<u8>)>) -> Result<
    Seq<Doc>,
    Fault,
> {
    match lookup(entries, c.spec_list_path()) {
        None => Ok(Seq::empty()),
        Some(bytes) => match parsed(bytes) {
            None => Err(Fault::Document),
            Some(list) => match restored_items(list, descriptions(c, entries)) {
                Some(items) => Ok(items),
                None => Err(Fault::Format),
            },
        },
    }
}

/// The info of a manifest that has none of its own: an empty title.
pub open spec fn default_info() -> Doc {
    Doc::Record(seq![("title"@, Doc::Record(Seq::empty()))])
}

/// The info that an archive holds, and the default where it holds none.
pub open spec fn archive_info(entries: Seq<(Seq<char>, Seq<u8>)>) -> Result<Doc, Fault> {
    match lookup(entries, info_path()) {
        None => Ok(default_info()),
        Some(bytes) => match parsed(bytes) {
            Some(info) => Ok(info),
            None => Err(Fault::Document),
        },
    }
}

/// The info and the first `n` categories of the manifest of an archive, or
/// the first fault met on the way.
pub open spec fn manifest_fields(entries: Seq<(Seq<char>, Seq<u8>)>, n: nat) -> Result<
    Seq<(Seq<char>, Doc)>,
    Fault,
>
    decreases n,
{
    if n == 0 || n > categories().len() {
        match archive_info(entries) {
            Ok(info) => Ok(seq![("info"@, info)]),
            Err(fault) => Err(fault),
        }
    } else {
        let c = categories()[n - 1];
        match manifest_fields(entries, (n - 1) as nat) {
            Ok(fields) => match category_items(c, entries) {
                Ok(items) => Ok(fields.push((c.spec_key(), Doc::List(items)))),
                Err(fault) => Err(fault),
            },
            Err(fault) => Err(fault),
        }
    }
}

/// The manifest of an archive: its info and each of the nine categories.
pub open spec fn manifest_of(entries: Seq<(Seq<char>, Seq<u8>)>) -> Result<Doc, Fault> {
    match manifest_fields(entries, categories().len()) {
        Ok(fields) => Ok(Doc::Record(fields)),
        Err(fault) => Err(fault),
    }
}

/// The texts of a sequence of pairs of strings.
pub open spec fn texts(pairs: Seq<(String, String)>) -> Seq<(Seq<char>, Seq<char>)> {
    pairs.map_values(|p: (String, String)| (p.0@, p.1@))
}

/// The first entry of that name.
pub fn find_entry<'a>(entries: &'a Vec<Entry>, name: &str) -> (r: Option<&'a Entry>)
    ensures
        match r {
            Some(e) => e.name@ == name@ && lookup(files(entries@), name@) == Some(e.bytes@),
            None => lookup(files(entries@), name@) is None,
        },
{
    let mut i: usize = 0;
    while i < entries.len()
        invariant
            i <= entries@.len(),
            forall|j: int| 0 <= j < i ==> files(entries@)[j].0 != name@,
        decreases entries@.len() - i,
    {
        if same_text(entries[i].name.as_str(), name) {
            proof {
                lemma_position_is(files(entries@), name@, i as int);
            }
            return Some(&entries[i]);
        }
        i += 1;
    }
    proof {
        lemma_position(files(entries@), name@);
    }
    None
}

/// The assets of an archive.
pub fn stage_assets(entries: &Vec<Entry>) -> (r: Vec<Entry>)
    ensures
        files(r@) == staged_assets(files(entries@)),
{
    let prefix = repository_entry_prefix();
    let mut out: Vec<Entry> = Vec::new();
    let mut i: usize = 0;
    assert(files(out@) =~= staged_assets(files(entries@).take(0)));
    while i < entries.len()
        invariant
            i <= entries@.len(),
            prefix@ == repository_prefix(),
            files(out@) == staged_assets(files(entries@).take(i as int)),
        decreases entries@.len() - i,
    {
        let ghost all = files(entries@);
        let ghost sofar = files(out@);
        assert(all.take(i + 1).drop_last() =~= all.take(i as int));
        let entry = &entries[i];
        if strip_prefix(entry.name.as_str(), prefix.as_str()).is_some() {
            let (directory, segment) = split_name(entry.name.as_str());
            if !directory && !segment.as_str().is_empty() {
                out.push(
                    Entry {
                        name: repository_file_name(segment.as_str()),
                        bytes: copy_bytes(&entry.bytes),
                    },
                );
                assert(files(out@) =~= sofar + seq![staged(all[i as int]).unwrap()]);
            }
        }
        i += 1;
    }
    assert(files(entries@).take(entries@.len() as int) =~= files(entries@));
    out
}

/// The description that a detail document states.
pub fn stated_description_of<'a>(detail: &'a Json) -> (r: Option<&'a String>)
    ensures
        match r {
            Some(t) => stated_description(detail@) == Some(t@),
            None => stated_description(detail@) is None,
        },
{
    match detail.get("description") {
        Some(Json::String(t)) => Some(t),
        _ => None,
    }
}

/// The name of the item whose detail an entry of the category holds.
pub fn detail_name_of(c: Category, name: &str) -> (r: Option<String>)
    ensures
        match r {
            Some(rest) => detail_name(c, name@) == Some(rest@),
            None => detail_name(c, name@) is None,
        },
{
    match strip_prefix(name, c.prefix().as_str()) {
        Some(rest) => {
            if rest.as_str().is_empty() || same_text(rest.as_str(), "list") || same_text(
                rest.as_str(),
                "info",
            ) {
                None
            } else {
                Some(rest)
            }
        },
        None => None,
    }
}

/// The descriptions of the items of a category: one pass over the entries,
/// in which a detail that cannot be read or states no description tells
/// nothing.
pub fn recover_descriptions(c: Category, entries: &Vec<Entry>) -> (r: Vec<(String, String)>)
    ensures
        texts(r@) == descriptions(c, files(entries@)),
{
    let mut out: Vec<(String, String)> = Vec::new();
    let mut i: usize = 0;
    assert(texts(out@) =~= descriptions(c, files(entries@).take(0)));
    while i < entries.len()
        invariant
            i <= entries@.len(),
            texts(out@) == descriptions(c, files(entries@).take(i as int)),
        decreases entries@.len() - i,
    {
        let ghost all = files(entries@);
        let ghost sofar = texts(out@);
        assert(all.take(i + 1).drop_last() =~= all.take(i as int));
        let entry = &entries[i];
        match detail_name_of(c, entry.name.as_str()) {
            Some(name) => match decode(entry.bytes.as_slice()) {
                Ok(detail) => match stated_description_of(&detail) {
                    Some(t) => {
                        out.push((name, t.clone()));
                        assert(texts(out@) =~= sofar + seq![described(c, all[i as int]).unwrap()]);
                    },
                    None => {},
                },
                Err(_) => {},
            },
            None => {},
        }
        i += 1;
    }
    assert(files(entries@).take(entries@.len() as int) =~= files(entries@));
    out
}

/// The first description that is told of a name.
pub fn find_description<'a>(told: &'a Vec<(String, String)>, name: &str) -> (r: Option<
    &'a String,
>)
    ensures
        match r {
            Some(t) => lookup(texts(told@), name@) == Some(t@),
            None => lookup(texts(told@), name@) is None,
        },
{
    let mut i: usize = 0;
    while i < told.len()
        invariant
            i <= told@.len(),
            forall|j: int| 0 <= j < i ==> texts(told@)[j].0 != name@,
        decreases told@.len() - i,
    {
        if same_text(told[i].0.as_str(), name) {
            proof {
                lemma_position_is(texts(told@), name@, i as int);
            }
            return Some(&told[i].1);
        }
        i += 1;
    }
    proof {
        lemma_position(texts(told@), name@);
    }
    None
}

/// A list item as a manifest holds it.
pub fn restore_item(item: &Json, told: &Vec<(String, String)>) -> (r: Json)
    ensures
        r@ == restored_item(item@, texts(told@)),
{
    let description = match name_of(item) {
        Some(name) => find_description(told, name.as_str()),
        None => None,
    };
    to_pack(item, description)
}

/// The items of a list document as a manifest holds them. Fails where the
/// document has no list of items.
pub fn restore_items(list: &Json, told: &Vec<(String, String)>) -> (r: Result<Vec<Json>, ScpError>)
    ensures
        match r {
            Ok(items) => restored_items(list@, texts(told@)) == Some(docs(items@)) && (
            list@.well_formed() ==> Doc::List(docs(items@)).well_formed()),
            Err(ScpError::InvalidFormat(m)) => restored_items(list@, texts(told@)) is None && m@
                == shapeless_list(),
            Err(_) => false,
        },
{
    proof {
        if list@.well_formed() {
            lemma_restored_items_well_formed(list@, texts(told@));
        }
    }
    match list.get("items") {
        Some(Json::Array(items)) => {
            let mut out: Vec<Json> = Vec::new();
            let mut i: usize = 0;
            while i < items.len()
                invariant
                    i <= items@.len(),
                    out@.len() == i,
                    forall|k: int|
                        0 <= k < i ==> (#[trigger] out@[k])@ == restored_item(
                            items@[k]@,
                            texts(told@),
                        ),
                decreases items@.len() - i,
            {
                out.push(restore_item(&items[i], told));
                i += 1;
            }
            assert(docs(out@) =~= docs(items@).map_values(
                |item: Doc| restored_item(item, texts(told@)),
            ));
            Ok(out)
        },
        _ => Err(ScpError::InvalidFormat(String::from_str("list document without items"))),
    }
}

/// The items of a category as an archive holds them.
pub fn restore_category(c: Category, entries: &Vec<Entry>) -> (r: Result<Vec<Json>, ScpError>)
    ensures
        match r {
            Ok(items) => category_items(c, files(entries@)) == Ok::<Seq<Doc>, Fault>(docs(items@))
                && Doc::List(docs(items@)).well_formed(),
            Err(e) => category_items(c, files(entries@)) matches Err(fault) && fault.reported_as(
                e,
            ),
        },
{
    let told = recover_descriptions(c, entries);
    match find_entry(entries, c.list_path().as_str()) {
        None => {
            let items: Vec<Json> = Vec::new();
            assert(docs(items@) =~= Seq::empty());
            assert(Doc::List(docs(items@)).well_formed());
            Ok(items)
        },
        Some(entry) => match decode(entry.bytes.as_slice()) {
            Err(e) => Err(e),
            Ok(list) => restore_items(&list, &told),
        },
    }
}

/// The items of a well-formed list document are well formed as a manifest
/// holds them.
pub proof fn lemma_restored_items_well_formed(list: Doc, told: Seq<(Seq<char>, Seq<char>)>)
    requires
        list.well_formed(),
    ensures
        restored_items(list, told) matches Some(items) ==> Doc::List(items).well_formed(),
{
    match restored_items(list, told) {
        Some(items) => {
            lemma_field_well_formed(list, "items"@);
            let listed = list.field("items"@).unwrap()->List_0;
            assert forall|i: int| 0 <= i < items.len() implies (
            #[trigger] items[i]).well_formed() by {
                assert(listed[i].well_formed());
                lemma_pack_item_well_formed(
                    listed[i],
                    match item_name(listed[i]) {
                        Some(name) => lookup(told, name),
                        None => None,
                    },
                );
            }
        },
        None => {},
    }
}

/// A fault met among the first categories is the fault of the whole
/// manifest.
pub proof fn lemma_fault_stays(entries: Seq<(Seq<char>, Seq<u8>)>, n: nat, m: nat)
    requires
        n <= m <= categories().len(),
        manifest_fields(entries, n) is Err,
    ensures
        manifest_fields(entries, m) == manifest_fields(entries, n),
    decreases m,
{
    if n < m {
        lemma_fault_stays(entries, n, (m - 1) as nat);
    }
}

/// The default info is well formed.
pub proof fn lemma_default_info_well_formed()
    ensures
        default_info().well_formed(),
{
    let inner: Seq<(Seq<char>, Doc)> = Seq::empty();
    assert(Doc::Record(inner).well_formed());
    let outer = seq![("title"@, Doc::Record(inner))];
    assert(outer[0].1.well_formed());
    assert(values_well_formed(outer));
}

/// The info of a manifest that has none of its own.
pub fn build_default_info() -> (r: Json)
    ensures
        r@ == default_info(),
{
    let title: Vec<(String, Json)> = Vec::new();
    assert(doc_fields(title@) =~= Seq::empty());
    let mut fields: Vec<(String, Json)> = Vec::new();
    fields.push((String::from_str("title"), Json::Object(title)));
    assert(doc_fields(fields@) =~= default_info()->Record_0);
    Json::Object(fields)
}

/// The info that an archive holds.
pub fn restore_info(entries: &Vec<Entry>) -> (r: Result<Json, ScpError>)
    ensures
        match r {
            Ok(info) => archive_info(files(entries@)) == Ok::<Doc, Fault>(info@)
                && info@.well_formed(),
            Err(e) => archive_info(files(entries@)) matches Err(fault) && fault.reported_as(e),
        },
{
    proof {
        lemma_default_info_well_formed();
    }
    match find_entry(entries, info_entry_name().as_str()) {
        None => Ok(build_default_info()),
        Some(entry) => decode(entry.bytes.as_slice()),
    }
}

/// A pack in memory: its manifest and the files of its repository, each
/// under its path in the pack.
#[derive(Debug, PartialEq, Eq)]
pub struct Pack {
    pub manifest: Json,
    pub assets: Vec<Entry>,
}

/// `ZipError::FileNotFound` of the crate zip: the error of an archive that
/// lacks the entry asked for.
#[verifier::external_body]
fn file_not_found() -> (r: zip::result::ZipError) {
    zip::result::ZipError::FileNotFound
}

/// The line that lists an entry: its name, then its size in bytes in round
/// brackets.
pub open spec fn listing_line(entry: (Seq<char>, Seq<u8>)) -> Seq<char> {
    entry.0 + " ("@ + decimal(entry.1.len()) + " bytes)"@
}

/// Turns the entries of an archive into a pack.
pub struct PackExtractor;

impl PackExtractor {
    /// An extractor.
    pub fn new() -> (r: PackExtractor) {
        PackExtractor
    }

    /// The pack that an archive holds: the manifest put together from its
    /// documents, and its assets. Fails with the first document that had to
    /// be read and could not be, or that lacks its list of items.
    pub fn extract(&self, entries: &Vec<Entry>) -> (r: Result<Pack, ScpError>)
        ensures
            match r {
                Ok(pack) => manifest_of(files(entries@)) == Ok::<Doc, Fault>(pack.manifest@)
                    && files(pack.assets@) == staged_assets(files(entries@))
                    && pack.manifest@.well_formed(),
                Err(e) => manifest_of(files(entries@)) matches Err(fault) && fault.reported_as(e),
            },
    {
        let assets = stage_assets(entries);
        let mut fields: Vec<(String, Json)> = Vec::new();
        match restore_info(entries) {
            Ok(info) => {
                let ghost d = info@;
                fields.push((String::from_str("info"), info));
                assert(doc_fields(fields@) =~= seq![("info"@, d)]);
            },
            Err(e) => {
                proof {
                    lemma_fault_stays(files(entries@), 0, categories().len());
                }
                return Err(e);
            },
        }
        assert(doc_fields(fields@)[0].1.well_formed());
        let table = Category::all();
        let mut n: usize = 0;
        while n < table.len()
            invariant
                n <= table@.len(),
                table@ == categories(),
                manifest_fields(files(entries@), n as nat) == Ok::<Seq<(Seq<char>, Doc)>, Fault>(
                    doc_fields(fields@),
                ),
                fields@.len() == n + 1,
                doc_fields(fields@)[0].0 == "info"@,
                forall|k: int|
                    0 <= k < n ==> (#[trigger] doc_fields(fields@)[k + 1]).0
                        == categories()[k].spec_key(),
                values_well_formed(doc_fields(fields@)),
            decreases table@.len() - n,
        {
            let c = table[n];
            let ghost sofar = doc_fields(fields@);
            match restore_category(c, entries) {
                Ok(items) => {
                    fields.push((String::from_str(c.key()), Json::Array(items)));
                    assert(doc_fields(fields@) =~= sofar.push(
                        (c.spec_key(), Doc::List(docs(items@))),
                    ));
                },
                Err(e) => {
                    proof {
                        lemma_fault_stays(
                            files(entries@),
                            (n + 1) as nat,
                            categories().len(),
                        );
                    }
                    return Err(e);
                },
            }
            n += 1;
        }
        proof {
            let all = doc_fields(fields@);
            assert forall|i: int, j: int| 0 <= i < j < all.len() implies all[i].0 != all[j].0 by {
                assert(all[j].0 == (#[trigger] all[(j - 1) + 1]).0);
                if i == 0 {
                    lemma_keys_distinct(categories()[j - 1], categories()[j - 1]);
                } else {
                    assert(all[i].0 == (#[trigger] all[(i - 1) + 1]).0);
                    lemma_keys_distinct(categories()[i - 1], categories()[j - 1]);
                }
            }
        }
        Ok(Pack { manifest: Json::Object(fields), assets })
    }

    /// One line for each entry of an archive.
    pub fn list_contents(&self, entries: &Vec<Entry>) -> (r: Vec<String>)
        ensures
            r@.len() == entries@.len(),
            forall|i: int| 0 <= i < r@.len() ==> (#[trigger] r@[i])@ == listing_line(entries@[i]@),
    {
        let mut out: Vec<String> = Vec::new();
        let mut i: usize = 0;
        while i < entries.len()
            invariant
                i <= entries@.len(),
                out@.len() == i,
                forall|k: int| 0 <= k < i ==> (#[trigger] out@[k])@ == listing_line(entries@[k]@),
            decreases entries@.len() - i,
        {
            let entry = &entries[i];
            let line = String::from_str(entry.name.as_str()).concat(" (").concat(
                to_decimal(entry.bytes.len()).as_str(),
            ).concat(" bytes)");
            out.push(line);
            i += 1;
        }
        out
    }

    /// The content of the first entry of that name. Fails where the archive
    /// has none.
    pub fn read_file(&self, entries: &Vec<Entry>, file_path: &str) -> (r: Result<
        Vec<u8>,
        ScpError,
    >)
        ensures
            match r {
                Ok(bytes) => lookup(files(entries@), file_path@) == Some(bytes@),
                Err(e) => lookup(files(entries@), file_path@) is None && e is Zip,
            },
    {
        match find_entry(entries, file_path) {
            Some(entry) => Ok(copy_bytes(&entry.bytes)),
            None => Err(ScpError::Zip(file_not_found())),
        }
    }
}

} // verus!
