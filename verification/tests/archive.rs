use scp_pack::category::Category;
use scp_pack::codec::{decode, encode};
use scp_pack::entry::{Entry, Payload};
use scp_pack::error::ScpError;
use scp_pack::json::Json;
use scp_pack::pack_archiver::{
    build_category_info_document, build_detail_document, build_list_document, plan, PackArchiver,
};
use scp_pack::Converter;

fn entry(name: &str, bytes: &[u8]) -> Entry {
    Entry { name: name.to_string(), bytes: bytes.to_vec() }
}

fn doc(text: &str) -> Json {
    decode(text.as_bytes()).unwrap()
}

fn text_of(entries: &[Entry], name: &str) -> String {
    let found = entries.iter().find(|e| e.name == name).unwrap();
    String::from_utf8(found.bytes.clone()).unwrap()
}

const LEVEL_PACK: &str = r#"{"info":{"title":{"en":"T"}}, "levels":[{"name":"lv1","title":{"en":"Level 1"},"description":{"en":"desc"}}]}"#;

#[test]
fn pack_with_one_level_gives_its_five_entries() {
    let entries = Converter::new().pack_to_scp(LEVEL_PACK.as_bytes(), &Vec::new()).unwrap();
    let names: Vec<&str> = entries.iter().map(|e| e.name.as_str()).collect();
    assert_eq!(
        names,
        vec![
            "static/sonolus/info",
            "static/sonolus/package",
            "static/sonolus/levels/list",
            "static/sonolus/levels/lv1",
            "static/sonolus/levels/info",
        ]
    );
}

#[test]
fn list_document_holds_static_items_without_description() {
    let entries = Converter::new().pack_to_scp(LEVEL_PACK.as_bytes(), &Vec::new()).unwrap();
    assert_eq!(
        text_of(&entries, "static/sonolus/levels/list"),
        r#"{"pageCount":1,"items":[{"name":"lv1","title":"Level 1"}]}"#
    );
}

#[test]
fn detail_document_holds_item_and_description() {
    let entries = Converter::new().pack_to_scp(LEVEL_PACK.as_bytes(), &Vec::new()).unwrap();
    assert_eq!(
        text_of(&entries, "static/sonolus/levels/lv1"),
        concat_detail(r#"{"name":"lv1","title":"Level 1"}"#, "desc", "level")
    );
}

fn concat_detail(item: &str, description: &str, item_type: &str) -> String {
    format!(
        "{{\"item\":{},\"description\":\"{}\",\"actions\":[],\"hasCommunity\":false,\"leaderboards\":[],\"sections\":[{{\"title\":\"#RECOMMENDED\",\"icon\":\"star\",\"itemType\":\"{}\",\"items\":[]}}]}}",
        item, description, item_type
    )
}

#[test]
fn info_is_written_as_it_stands() {
    let entries = Converter::new().pack_to_scp(LEVEL_PACK.as_bytes(), &Vec::new()).unwrap();
    assert_eq!(text_of(&entries, "static/sonolus/info"), r#"{"title":{"en":"T"}}"#);
}

#[test]
fn package_is_an_empty_object() {
    let entries = Converter::new().pack_to_scp(LEVEL_PACK.as_bytes(), &Vec::new()).unwrap();
    assert_eq!(text_of(&entries, "static/sonolus/package"), "{}");
}

#[test]
fn category_info_is_a_search_without_options() {
    let entries = Converter::new().pack_to_scp(LEVEL_PACK.as_bytes(), &Vec::new()).unwrap();
    assert_eq!(text_of(&entries, "static/sonolus/levels/info"), r#"{"search":{"options":[]}}"#);
    assert_eq!(encode(&build_category_info_document()).unwrap(), br#"{"search":{"options":[]}}"#);
}

#[test]
fn missing_info_is_written_as_null() {
    let entries = Converter::new().pack_to_scp(b"{}", &Vec::new()).unwrap();
    assert_eq!(entries.len(), 2);
    assert_eq!(text_of(&entries, "static/sonolus/info"), "null");
}

#[test]
fn empty_and_missing_categories_give_no_entries() {
    let entries = Converter::new()
        .pack_to_scp(br#"{"info":{},"skins":[],"posts":"none"}"#, &Vec::new())
        .unwrap();
    let names: Vec<&str> = entries.iter().map(|e| e.name.as_str()).collect();
    assert_eq!(names, vec!["static/sonolus/info", "static/sonolus/package"]);
}

#[test]
fn only_levels_gives_entries_of_levels_only() {
    let entries = Converter::new().pack_to_scp(LEVEL_PACK.as_bytes(), &Vec::new()).unwrap();
    for c in Category::all() {
        let prefix = c.prefix();
        let count = entries.iter().filter(|e| e.name.starts_with(&prefix)).count();
        if c == Category::Levels {
            assert_eq!(count, 3);
        } else {
            assert_eq!(count, 0);
        }
    }
}

#[test]
fn assets_are_copied_in_their_order() {
    let assets = vec![entry("ffee", &[0, 159, 146, 150]), entry("0a1b", b"plain")];
    let entries = Converter::new().pack_to_scp(b"{}", &assets).unwrap();
    assert_eq!(entries.len(), 4);
    assert_eq!(entries[2], entry("static/sonolus/repository/ffee", &[0, 159, 146, 150]));
    assert_eq!(entries[3], entry("static/sonolus/repository/0a1b", b"plain"));
}

#[test]
fn categories_come_in_the_order_of_the_table() {
    let manifest = br#"{"posts":[{"name":"p"}],"skins":[{"name":"s"}]}"#;
    let entries = Converter::new().pack_to_scp(manifest, &Vec::new()).unwrap();
    let names: Vec<&str> = entries.iter().map(|e| e.name.as_str()).collect();
    assert_eq!(
        names,
        vec![
            "static/sonolus/info",
            "static/sonolus/package",
            "static/sonolus/skins/list",
            "static/sonolus/skins/s",
            "static/sonolus/skins/info",
            "static/sonolus/posts/list",
            "static/sonolus/posts/p",
            "static/sonolus/posts/info",
        ]
    );
}

#[test]
fn items_without_a_name_are_listed_but_have_no_detail() {
    let manifest = br#"{"effects":[{"title":{"en":"A"}},{"name":""},{"name":7},{"name":"e"}]}"#;
    let entries = Converter::new().pack_to_scp(manifest, &Vec::new()).unwrap();
    let names: Vec<&str> = entries.iter().map(|e| e.name.as_str()).collect();
    assert_eq!(
        names,
        vec![
            "static/sonolus/info",
            "static/sonolus/package",
            "static/sonolus/effects/list",
            "static/sonolus/effects/e",
            "static/sonolus/effects/info",
        ]
    );
    assert_eq!(
        text_of(&entries, "static/sonolus/effects/list"),
        r#"{"pageCount":1,"items":[{"title":"A"},{"name":""},{"name":7},{"name":"e"}]}"#
    );
}

#[test]
fn detail_of_an_item_without_description_states_the_empty_text() {
    let item = doc(r#"{"name":"x","author":{"en":"me"},"version":3}"#);
    let detail = build_detail_document(Category::Skins, &item);
    assert_eq!(
        String::from_utf8(encode(&detail).unwrap()).unwrap(),
        concat_detail(r#"{"name":"x","author":"me","version":3}"#, "", "skin")
    );
}

#[test]
fn detail_names_the_singular_of_each_category() {
    let expected = [
        "skin", "background", "effect", "particle", "engine", "level", "replay", "playlist",
        "post",
    ];
    let item = doc(r#"{"name":"x"}"#);
    for (c, singular) in Category::all().into_iter().zip(expected) {
        assert_eq!(c.item_type(), singular);
        let detail = build_detail_document(c, &item);
        assert_eq!(
            String::from_utf8(encode(&detail).unwrap()).unwrap(),
            concat_detail(r#"{"name":"x"}"#, "", singular)
        );
    }
}

#[test]
fn list_document_of_no_items() {
    let list = build_list_document(&Vec::new());
    assert_eq!(encode(&list).unwrap(), br#"{"pageCount":1,"items":[]}"#);
}

#[test]
fn plan_keeps_documents_in_memory() {
    let manifest = doc(LEVEL_PACK);
    let planned = plan(&manifest, &vec![entry("aa", b"x")]);
    assert_eq!(planned.len(), 6);
    assert_eq!(planned[0].payload, Payload::Document(doc(r#"{"title":{"en":"T"}}"#)));
    assert_eq!(planned[1].payload, Payload::Raw(b"{}".to_vec()));
    assert_eq!(planned[2].name, "static/sonolus/repository/aa");
    assert_eq!(planned[2].payload, Payload::Raw(b"x".to_vec()));
    assert_eq!(
        planned[3].payload,
        Payload::Document(doc(r#"{"pageCount":1,"items":[{"name":"lv1","title":"Level 1"}]}"#))
    );
}

#[test]
fn archiver_and_converter_agree() {
    let manifest = doc(LEVEL_PACK);
    let assets = vec![entry("aa", b"x")];
    let direct = PackArchiver::new().archive(&manifest, &assets).unwrap();
    let through = Converter::new().pack_to_scp(LEVEL_PACK.as_bytes(), &assets).unwrap();
    assert_eq!(direct, through);
}

#[test]
fn unreadable_manifest_is_a_json_error() {
    let r = Converter::new().pack_to_scp(b"{\"info\":", &Vec::new());
    assert!(matches!(r, Err(ScpError::Json(_))));
}

#[test]
fn compression_level_defaults_to_six() {
    assert_eq!(PackArchiver::new().compression_level(), 6);
    assert_eq!(Converter::new().compression_level(), 6);
    assert_eq!(Converter::default().compression_level(), 6);
}

#[test]
fn compression_level_can_be_set() {
    assert_eq!(PackArchiver::new().with_compression_level(9).compression_level(), 9);
    assert_eq!(Converter::new().with_compression_level(0).compression_level(), 0);
    assert_eq!(Converter::new().with_compression_level(-3).compression_level(), -3);
}
