use scp_pack::category::Category;
use scp_pack::codec::{decode, encode};
use scp_pack::error::ScpError;
use scp_pack::item::{description_of, localize, name_of, text_in, text_key, to_pack, to_static};
use scp_pack::json::{find_field, has_distinct_keys, set_field, Json};

fn doc(text: &str) -> Json {
    decode(text.as_bytes()).unwrap()
}

fn written(j: &Json) -> String {
    String::from_utf8(encode(j).unwrap()).unwrap()
}

#[test]
fn decode_reads_each_kind_of_value() {
    let j = doc(r#"{"a":null,"b":true,"c":12,"d":"text","e":[1,"x"],"f":{"g":false}}"#);
    assert_eq!(
        j,
        Json::Object(vec![
            ("a".to_string(), Json::Null),
            ("b".to_string(), Json::Bool(true)),
            ("c".to_string(), Json::Number(serde_json::Number::from(12u64))),
            ("d".to_string(), Json::String("text".to_string())),
            (
                "e".to_string(),
                Json::Array(vec![
                    Json::Number(serde_json::Number::from(1u64)),
                    Json::String("x".to_string()),
                ]),
            ),
            ("f".to_string(), Json::Object(vec![("g".to_string(), Json::Bool(false))])),
        ])
    );
}

#[test]
fn decode_keeps_the_order_of_fields() {
    let j = doc(r#"{"z":1,"a":2,"m":3}"#);
    assert_eq!(written(&j), r#"{"z":1,"a":2,"m":3}"#);
}

#[test]
fn decode_refuses_what_is_no_document() {
    assert!(matches!(decode(b"{\"a\":}"), Err(ScpError::Json(_))));
    assert!(matches!(decode(b""), Err(ScpError::Json(_))));
    assert!(matches!(decode(b"{} {}"), Err(ScpError::Json(_))));
}

#[test]
fn encode_writes_each_kind_of_value() {
    let j = Json::Object(vec![
        ("n".to_string(), Json::Null),
        ("t".to_string(), Json::text("a \"quoted\" text")),
        ("w".to_string(), Json::whole(18446744073709551615)),
        ("l".to_string(), Json::Array(vec![Json::Bool(false), Json::Array(Vec::new())])),
    ]);
    assert_eq!(
        written(&j),
        r#"{"n":null,"t":"a \"quoted\" text","w":18446744073709551615,"l":[false,[]]}"#
    );
}

#[test]
fn whole_number_one() {
    assert_eq!(Json::whole(1), Json::Number(serde_json::Number::from(1u64)));
    assert_eq!(written(&Json::whole(1)), "1");
}

#[test]
fn duplicate_copies_the_whole_tree() {
    let j = doc(r#"{"a":[1,{"b":[null,"x",2.5]}],"c":{}}"#);
    assert_eq!(j.duplicate(), j);
    assert_eq!(j.clone(), j);
}

#[test]
fn get_finds_the_first_field_of_a_name() {
    let j = Json::Object(vec![
        ("a".to_string(), Json::whole(1)),
        ("b".to_string(), Json::whole(2)),
        ("a".to_string(), Json::whole(3)),
    ]);
    assert_eq!(j.get("a"), Some(&Json::whole(1)));
    assert_eq!(j.get("b"), Some(&Json::whole(2)));
    assert_eq!(j.get("c"), None);
    assert_eq!(Json::Null.get("a"), None);
    assert_eq!(Json::Array(vec![j.duplicate()]).get("a"), None);
}

#[test]
fn as_text_and_as_items() {
    assert_eq!(Json::text("x").as_text(), Some(&"x".to_string()));
    assert_eq!(Json::Null.as_text(), None);
    assert_eq!(doc("[1]").as_items(), Some(&vec![Json::whole(1)]));
    assert_eq!(doc("{}").as_items(), None);
}

#[test]
fn set_field_replaces_in_place_or_appends() {
    let mut fields = vec![("a".to_string(), Json::whole(1)), ("b".to_string(), Json::whole(2))];
    set_field(&mut fields, "a", Json::Null);
    set_field(&mut fields, "c", Json::Bool(true));
    assert_eq!(written(&Json::Object(fields.clone())), r#"{"a":null,"b":2,"c":true}"#);
    assert_eq!(find_field(&fields, "b"), Some(1));
    assert_eq!(find_field(&fields, "d"), None);
}

#[test]
fn text_is_read_in_either_shape() {
    assert_eq!(text_in(&doc(r#""bare""#)), Some(&"bare".to_string()));
    assert_eq!(text_in(&doc(r#"{"en":"packed","ja":"x"}"#)), Some(&"packed".to_string()));
    assert_eq!(text_in(&doc(r#"{"ja":"x"}"#)), None);
    assert_eq!(text_in(&doc(r#"{"en":5}"#)), None);
    assert_eq!(text_in(&doc("5")), None);
}

#[test]
fn text_keys_are_title_subtitle_and_author() {
    assert!(text_key("title"));
    assert!(text_key("subtitle"));
    assert!(text_key("author"));
    assert!(!text_key("description"));
    assert!(!text_key("name"));
    assert!(!text_key("Title"));
}

#[test]
fn static_item_has_bare_texts_and_no_description() {
    let item = doc(
        r#"{"name":"n","title":{"en":"T"},"subtitle":"already","author":{"ja":"x"},"description":{"en":"d"},"cover":{"en":"kept"}}"#,
    );
    assert_eq!(
        written(&to_static(&item)),
        r#"{"name":"n","title":"T","subtitle":"already","author":{"ja":"x"},"cover":{"en":"kept"}}"#
    );
}

#[test]
fn static_item_of_what_is_no_record_is_the_value() {
    assert_eq!(to_static(&doc("[1,2]")), doc("[1,2]"));
    assert_eq!(to_static(&doc(r#""x""#)), doc(r#""x""#));
}

#[test]
fn pack_item_has_localized_texts() {
    let item = doc(r#"{"name":"n","title":"T","subtitle":{"en":"S"},"author":3,"cover":"c"}"#);
    assert_eq!(
        written(&to_pack(&item, None)),
        r#"{"name":"n","title":{"en":"T"},"subtitle":{"en":"S"},"author":3,"cover":"c"}"#
    );
}

#[test]
fn pack_item_takes_a_description_that_is_not_empty() {
    let item = doc(r#"{"name":"n"}"#);
    let text = "about".to_string();
    let empty = String::new();
    assert_eq!(
        written(&to_pack(&item, Some(&text))),
        r#"{"name":"n","description":{"en":"about"}}"#
    );
    assert_eq!(written(&to_pack(&item, Some(&empty))), r#"{"name":"n"}"#);
    let described = doc(r#"{"description":"old","name":"n"}"#);
    assert_eq!(
        written(&to_pack(&described, Some(&text))),
        r#"{"description":{"en":"about"},"name":"n"}"#
    );
    assert_eq!(to_pack(&doc("7"), Some(&text)), doc("7"));
}

#[test]
fn localize_puts_a_text_under_en() {
    assert_eq!(written(&localize("x")), r#"{"en":"x"}"#);
}

#[test]
fn name_and_description_of_an_item() {
    let item = doc(r#"{"name":"n","description":{"en":"d"}}"#);
    assert_eq!(name_of(&item), Some(&"n".to_string()));
    assert_eq!(description_of(&item), "d");
    assert_eq!(description_of(&doc(r#"{"description":"bare"}"#)), "bare");
    assert_eq!(description_of(&doc(r#"{"description":{"ja":"x"}}"#)), "");
    assert_eq!(description_of(&doc(r#"{"name":"n"}"#)), "");
    assert_eq!(name_of(&doc(r#"{"name":5}"#)), None);
    assert_eq!(name_of(&doc("[]")), None);
}

#[test]
fn category_table() {
    let keys: Vec<&str> = Category::all().into_iter().map(|c| c.key()).collect();
    assert_eq!(
        keys,
        vec![
            "skins",
            "backgrounds",
            "effects",
            "particles",
            "engines",
            "levels",
            "replays",
            "playlists",
            "posts"
        ]
    );
    for c in Category::all() {
        assert_eq!(format!("{}s", c.item_type()), c.key());
    }
}

#[test]
fn category_paths() {
    let c = Category::Backgrounds;
    assert_eq!(c.prefix(), "static/sonolus/backgrounds/");
    assert_eq!(c.list_path(), "static/sonolus/backgrounds/list");
    assert_eq!(c.info_path(), "static/sonolus/backgrounds/info");
    assert_eq!(c.item_path("bg 1"), "static/sonolus/backgrounds/bg 1");
}

#[test]
fn well_formed_documents_name_each_field_once() {
    assert!(doc(r#"{"a":[{"b":1,"c":2}],"d":{"a":null}}"#).is_well_formed());
    assert!(Json::Null.is_well_formed());
    assert!(Json::Array(Vec::new()).is_well_formed());
    let twice =
        Json::Object(vec![("a".to_string(), Json::Null), ("a".to_string(), Json::Bool(true))]);
    assert!(!twice.is_well_formed());
    let inner = Json::Array(vec![Json::Null, twice.duplicate()]);
    assert!(!inner.is_well_formed());
    let deeper = Json::Object(vec![("x".to_string(), inner)]);
    assert!(!deeper.is_well_formed());
}

#[test]
fn has_distinct_keys_compares_every_pair() {
    let fields = |names: &[&str]| -> Vec<(String, Json)> {
        names.iter().map(|n| (n.to_string(), Json::Null)).collect()
    };
    assert!(has_distinct_keys(&fields(&[])));
    assert!(has_distinct_keys(&fields(&["a"])));
    assert!(has_distinct_keys(&fields(&["a", "b", "c"])));
    assert!(!has_distinct_keys(&fields(&["a", "b", "a"])));
    assert!(!has_distinct_keys(&fields(&["b", "a", "a"])));
}

#[test]
fn decoded_documents_are_well_formed() {
    assert!(doc(r#"{"a":1,"a":2}"#).is_well_formed());
    assert_eq!(written(&doc(r#"{"a":1,"b":0,"a":2}"#)), r#"{"a":2,"b":0}"#);
}
