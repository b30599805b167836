use scp_pack::category::Category;
use scp_pack::codec::{decode, encode};
use scp_pack::entry::Entry;
use scp_pack::error::ScpError;
use scp_pack::json::Json;
use scp_pack::pack_extractor::{
    detail_name_of, find_description, recover_descriptions, restore_items, stage_assets,
    PackExtractor,
};
use scp_pack::Converter;

fn entry(name: &str, bytes: &[u8]) -> Entry {
    Entry { name: name.to_string(), bytes: bytes.to_vec() }
}

fn doc(text: &str) -> Json {
    decode(text.as_bytes()).unwrap()
}

fn written(j: &Json) -> String {
    String::from_utf8(encode(j).unwrap()).unwrap()
}

const EMPTY_MANIFEST: &str = r#"{"info":{"title":{}},"skins":[],"backgrounds":[],"effects":[],"particles":[],"engines":[],"levels":[],"replays":[],"playlists":[],"posts":[]}"#;

#[test]
fn empty_archive_gives_the_default_manifest() {
    let pack = PackExtractor::new().extract(&Vec::new()).unwrap();
    assert_eq!(written(&pack.manifest), EMPTY_MANIFEST);
    assert!(pack.assets.is_empty());
}

#[test]
fn missing_posts_give_an_empty_list() {
    let entries = vec![
        entry("static/sonolus/info", br#"{"title":"T"}"#),
        entry("static/sonolus/levels/list", br#"{"pageCount":1,"items":[{"name":"a"}]}"#),
    ];
    let pack = PackExtractor::new().extract(&entries).unwrap();
    assert_eq!(pack.manifest.get("posts"), Some(&Json::Array(Vec::new())));
    assert_eq!(pack.manifest.get("levels"), Some(&doc(r#"[{"name":"a"}]"#)));
}

#[test]
fn info_is_read_as_it_stands() {
    let entries = vec![entry("static/sonolus/info", br#"{"title":"T","banner":null}"#)];
    let pack = PackExtractor::new().extract(&entries).unwrap();
    assert_eq!(pack.manifest.get("info"), Some(&doc(r#"{"title":"T","banner":null}"#)));
}

#[test]
fn list_items_return_to_the_pack_shape() {
    let entries = vec![entry(
        "static/sonolus/skins/list",
        br#"{"pageCount":1,"items":[{"name":"s","title":"T","subtitle":"S","author":"A","tags":["x"],"version":4}]}"#,
    )];
    let pack = PackExtractor::new().extract(&entries).unwrap();
    assert_eq!(
        written(pack.manifest.get("skins").unwrap()),
        r#"[{"name":"s","title":{"en":"T"},"subtitle":{"en":"S"},"author":{"en":"A"},"tags":["x"],"version":4}]"#
    );
}

#[test]
fn fields_that_are_no_text_stay_untouched() {
    let entries = vec![entry(
        "static/sonolus/skins/list",
        br#"{"items":[{"name":"s","title":{"en":"T"},"subtitle":5,"author":null}]}"#,
    )];
    let pack = PackExtractor::new().extract(&entries).unwrap();
    assert_eq!(
        written(pack.manifest.get("skins").unwrap()),
        r#"[{"name":"s","title":{"en":"T"},"subtitle":5,"author":null}]"#
    );
}

#[test]
fn description_is_taken_from_the_detail() {
    let entries = vec![
        entry("static/sonolus/levels/list", br#"{"items":[{"name":"a"},{"name":"b"},{"name":"c"}]}"#),
        entry("static/sonolus/levels/a", br#"{"item":{},"description":"about a"}"#),
        entry("static/sonolus/levels/b", br#"{"item":{},"description":""}"#),
        entry("static/sonolus/levels/info", br#"{"description":"not an item"}"#),
    ];
    let pack = PackExtractor::new().extract(&entries).unwrap();
    assert_eq!(
        written(pack.manifest.get("levels").unwrap()),
        r#"[{"name":"a","description":{"en":"about a"}},{"name":"b"},{"name":"c"}]"#
    );
}

#[test]
fn unreadable_detail_is_tolerated() {
    let entries = vec![
        entry("static/sonolus/levels/list", br#"{"items":[{"name":"a"},{"name":"b"}]}"#),
        entry("static/sonolus/levels/a", b"\x00\x01 not a document"),
        entry("static/sonolus/levels/b", br#"{"description":7}"#),
    ];
    let pack = PackExtractor::new().extract(&entries).unwrap();
    assert_eq!(written(pack.manifest.get("levels").unwrap()), r#"[{"name":"a"},{"name":"b"}]"#);
}

#[test]
fn description_of_another_category_is_not_used() {
    let entries = vec![
        entry("static/sonolus/levels/list", br#"{"items":[{"name":"a"}]}"#),
        entry("static/sonolus/skins/a", br#"{"description":"of a skin"}"#),
    ];
    let pack = PackExtractor::new().extract(&entries).unwrap();
    assert_eq!(written(pack.manifest.get("levels").unwrap()), r#"[{"name":"a"}]"#);
}

#[test]
fn unreadable_list_is_a_json_error() {
    let entries = vec![entry("static/sonolus/levels/list", b"{")];
    assert!(matches!(PackExtractor::new().extract(&entries), Err(ScpError::Json(_))));
}

#[test]
fn unreadable_info_is_a_json_error() {
    let entries = vec![entry("static/sonolus/info", b"")];
    assert!(matches!(PackExtractor::new().extract(&entries), Err(ScpError::Json(_))));
}

#[test]
fn list_without_items_is_an_invalid_format() {
    let entries = vec![entry("static/sonolus/levels/list", br#"{"pageCount":1}"#)];
    let r = PackExtractor::new().extract(&entries);
    assert!(matches!(r, Err(ScpError::InvalidFormat(_))));
    let told = Vec::new();
    match restore_items(&doc("[]"), &told) {
        Err(ScpError::InvalidFormat(m)) => assert_eq!(m, "list document without items"),
        _ => panic!("a list without items was accepted"),
    }
    assert!(matches!(
        restore_items(&doc(r#"{"items":{}}"#), &told),
        Err(ScpError::InvalidFormat(_))
    ));
}

#[test]
fn assets_are_staged_under_their_last_segment() {
    let entries = vec![
        entry("static/sonolus/repository/", b""),
        entry("static/sonolus/repository/abc", b"one"),
        entry("static/sonolus/repository/sub/", b""),
        entry("static/sonolus/repository/sub/def", b"two"),
        entry("static/sonolus/repository/back\\", b"three"),
        entry("static/sonolus/repositoryx", b"four"),
        entry("repository/ghi", b"five"),
    ];
    let assets = stage_assets(&entries);
    assert_eq!(assets, vec![entry("repository/abc", b"one"), entry("repository/def", b"two")]);
    let pack = PackExtractor::new().extract(&entries).unwrap();
    assert_eq!(pack.assets, assets);
}

#[test]
fn unknown_entries_are_dropped() {
    let entries = vec![
        entry("static/sonolus/unknown/list", br#"{"items":[{"name":"a"}]}"#),
        entry("README", b"hello"),
    ];
    let pack = PackExtractor::new().extract(&entries).unwrap();
    assert_eq!(written(&pack.manifest), EMPTY_MANIFEST);
    assert!(pack.assets.is_empty());
}

#[test]
fn detail_names_leave_out_list_and_info() {
    let c = Category::Levels;
    assert_eq!(detail_name_of(c, "static/sonolus/levels/lv1"), Some("lv1".to_string()));
    assert_eq!(detail_name_of(c, "static/sonolus/levels/a/b"), Some("a/b".to_string()));
    assert_eq!(detail_name_of(c, "static/sonolus/levels/list"), None);
    assert_eq!(detail_name_of(c, "static/sonolus/levels/info"), None);
    assert_eq!(detail_name_of(c, "static/sonolus/levels/"), None);
    assert_eq!(detail_name_of(c, "static/sonolus/levels"), None);
    assert_eq!(detail_name_of(c, "static/sonolus/skins/lv1"), None);
    assert_eq!(detail_name_of(c, "static/sonolus/levels/lists"), Some("lists".to_string()));
}

#[test]
fn descriptions_are_recovered_in_the_order_of_the_entries() {
    let entries = vec![
        entry("static/sonolus/posts/b", br#"{"description":"second"}"#),
        entry("static/sonolus/posts/list", br#"{"description":"list"}"#),
        entry("static/sonolus/posts/a", br#"{"description":"first"}"#),
        entry("static/sonolus/posts/c", br#"{"item":{"description":"inner"}}"#),
    ];
    let told = recover_descriptions(Category::Posts, &entries);
    assert_eq!(
        told,
        vec![("b".to_string(), "second".to_string()), ("a".to_string(), "first".to_string())]
    );
    assert_eq!(find_description(&told, "a"), Some(&"first".to_string()));
    assert_eq!(find_description(&told, "c"), None);
}

#[test]
fn listing_gives_one_line_for_each_entry() {
    let entries = Converter::new()
        .pack_to_scp(br#"{"levels":[{"name":"lv1"}]}"#, &vec![entry("aa", b"0123456789ab")])
        .unwrap();
    let lines = PackExtractor::new().list_contents(&entries);
    assert_eq!(
        lines,
        vec![
            "static/sonolus/info (4 bytes)",
            "static/sonolus/package (2 bytes)",
            "static/sonolus/repository/aa (12 bytes)",
            "static/sonolus/levels/list (40 bytes)",
            "static/sonolus/levels/lv1 (174 bytes)",
            "static/sonolus/levels/info (25 bytes)",
        ]
    );
}

#[test]
fn read_file_finds_an_entry_by_its_name() {
    let entries = vec![entry("a", b"first"), entry("b", b"second"), entry("a", b"third")];
    let extractor = PackExtractor::new();
    assert_eq!(extractor.read_file(&entries, "b").unwrap(), b"second");
    assert_eq!(extractor.read_file(&entries, "a").unwrap(), b"first");
}

#[test]
fn read_file_of_a_missing_entry_is_a_zip_error() {
    let r = PackExtractor::new().read_file(&vec![entry("a", b"x")], "c");
    match r {
        Err(e) => {
            assert!(matches!(e, ScpError::Zip(_)));
            assert_eq!(e.message(), "ZIP error: specified file not found in archive");
        }
        Ok(_) => panic!("found an entry that is not there"),
    }
}

#[test]
fn archive_turns_into_the_files_of_a_pack() {
    let entries = vec![
        entry("static/sonolus/info", br#"{"title":"T"}"#),
        entry("static/sonolus/repository/abc", b"one"),
    ];
    let files = Converter::new().scp_to_pack(&entries).unwrap();
    assert_eq!(files.len(), 2);
    assert_eq!(files[0].name, "db.json");
    assert_eq!(
        String::from_utf8(files[0].bytes.clone()).unwrap(),
        r#"{"info":{"title":"T"},"skins":[],"backgrounds":[],"effects":[],"particles":[],"engines":[],"levels":[],"replays":[],"playlists":[],"posts":[]}"#
    );
    assert_eq!(files[1], entry("repository/abc", b"one"));
}
