use scp_pack::codec::decode;
use scp_pack::entry::Entry;
use scp_pack::json::Json;
use scp_pack::pack_extractor::PackExtractor;
use scp_pack::Converter;

fn entry(name: &str, bytes: &[u8]) -> Entry {
    Entry { name: name.to_string(), bytes: bytes.to_vec() }
}

fn doc(text: &str) -> Json {
    decode(text.as_bytes()).unwrap()
}

fn there_and_back(manifest: &str, assets: &Vec<Entry>) -> (Json, Vec<Entry>) {
    let entries = Converter::new().pack_to_scp(manifest.as_bytes(), assets).unwrap();
    let pack = PackExtractor::new().extract(&entries).unwrap();
    (pack.manifest, pack.assets)
}

#[test]
fn title_comes_back_in_the_pack_shape() {
    let (manifest, _) =
        there_and_back(r#"{"info":{},"skins":[{"name":"s","title":{"en":"X"}}]}"#, &Vec::new());
    let skins = manifest.get("skins").unwrap();
    assert_eq!(skins, &doc(r#"[{"name":"s","title":{"en":"X"}}]"#));
}

#[test]
fn description_comes_back_from_the_detail() {
    let (manifest, _) = there_and_back(
        r#"{"info":{},"engines":[{"name":"e","description":{"en":"what it does"},"title":{"en":"E"}}]}"#,
        &Vec::new(),
    );
    let engines = manifest.get("engines").unwrap();
    assert_eq!(
        engines,
        &doc(r#"[{"name":"e","title":{"en":"E"},"description":{"en":"what it does"}}]"#)
    );
}

#[test]
fn other_categories_come_back_empty() {
    let (manifest, _) = there_and_back(r#"{"info":{},"levels":[{"name":"l"}]}"#, &Vec::new());
    for key in
        ["skins", "backgrounds", "effects", "particles", "engines", "replays", "playlists", "posts"]
    {
        assert_eq!(manifest.get(key), Some(&Json::Array(Vec::new())));
    }
    assert_eq!(manifest.get("levels"), Some(&doc(r#"[{"name":"l"}]"#)));
}

#[test]
fn assets_come_back_byte_for_byte() {
    let assets = vec![entry("00ff", &[0, 255, 10, 13]), entry("abcd", b"")];
    let (_, back) = there_and_back("{}", &assets);
    assert_eq!(back, vec![entry("repository/00ff", &[0, 255, 10, 13]), entry("repository/abcd", b"")]);
}

#[test]
fn info_comes_back_unchanged() {
    let info = r#"{"title":{"en":"T","ja":"J"},"banner":{"hash":"aa","url":"/x"},"n":[1,-2,3.5,1e+300]}"#;
    let manifest = format!(r#"{{"info":{}}}"#, info);
    let (back, _) = there_and_back(&manifest, &Vec::new());
    assert_eq!(back.get("info"), Some(&doc(info)));
    let files = Converter::new()
        .scp_to_pack(&Converter::new().pack_to_scp(manifest.as_bytes(), &Vec::new()).unwrap())
        .unwrap();
    let written = String::from_utf8(files[0].bytes.clone()).unwrap();
    let expected = format!(r#"{{"info":{},"skins":[]"#, info);
    assert_eq!(&written[..expected.len()], expected);
}

#[test]
fn order_of_items_is_kept() {
    let (manifest, _) = there_and_back(
        r#"{"playlists":[{"name":"c"},{"name":"a"},{"name":"b","title":{"en":"B"}}]}"#,
        &Vec::new(),
    );
    assert_eq!(
        manifest.get("playlists"),
        Some(&doc(r#"[{"name":"c"},{"name":"a"},{"name":"b","title":{"en":"B"}}]"#))
    );
}

#[test]
fn whole_pack_survives_two_round_trips() {
    let manifest = r#"{"info":{"title":{"en":"T"}},"skins":[{"name":"s","title":{"en":"S"},"description":{"en":"d"}}],"backgrounds":[],"effects":[],"particles":[],"engines":[],"levels":[{"name":"l","author":{"en":"A"}}],"replays":[],"playlists":[],"posts":[]}"#;
    let converter = Converter::new();
    let assets = vec![entry("aa", b"one")];
    let first = converter
        .scp_to_pack(&converter.pack_to_scp(manifest.as_bytes(), &assets).unwrap())
        .unwrap();
    assert_eq!(first[0].name, "db.json");
    assert_eq!(first[1], entry("repository/aa", b"one"));
    let second = converter
        .scp_to_pack(&converter.pack_to_scp(&first[0].bytes, &assets).unwrap())
        .unwrap();
    assert_eq!(first, second);
    assert_eq!(doc(std::str::from_utf8(&first[0].bytes).unwrap()), doc(manifest));
}
