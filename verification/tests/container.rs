use std::io::{Cursor, Read, Write};

use scp_pack::entry::Entry;
use scp_pack::Converter;
use zip::write::SimpleFileOptions;
use zip::{CompressionMethod, ZipArchive, ZipWriter};

fn entry(name: &str, bytes: &[u8]) -> Entry {
    Entry { name: name.to_string(), bytes: bytes.to_vec() }
}

fn into_container(entries: &[Entry], level: i64) -> Vec<u8> {
    let mut zip = ZipWriter::new(Cursor::new(Vec::new()));
    let options = SimpleFileOptions::default()
        .compression_method(CompressionMethod::Deflated)
        .compression_level(Some(level));
    for e in entries {
        zip.start_file(e.name.as_str(), options).unwrap();
        zip.write_all(&e.bytes).unwrap();
    }
    zip.finish().unwrap().into_inner()
}

fn out_of_container(bytes: Vec<u8>) -> Vec<Entry> {
    let mut archive = ZipArchive::new(Cursor::new(bytes)).unwrap();
    let mut entries = Vec::new();
    for i in 0..archive.len() {
        let mut file = archive.by_index(i).unwrap();
        let mut bytes = Vec::new();
        file.read_to_end(&mut bytes).unwrap();
        entries.push(Entry { name: file.name().to_string(), bytes });
    }
    entries
}

#[test]
fn entries_survive_the_container() {
    let converter = Converter::new();
    let manifest = br#"{"info":{"title":{"en":"T"}},"levels":[{"name":"lv1","title":{"en":"Level 1"},"description":{"en":"desc"}}]}"#;
    let assets = vec![entry("00ff", &[0, 255, 1, 2]), entry("abcd", b"asset")];
    let entries = converter.pack_to_scp(manifest, &assets).unwrap();
    let back = out_of_container(into_container(&entries, converter.compression_level()));
    assert_eq!(back, entries);
}

#[test]
fn pack_survives_archive_and_container() {
    let converter = Converter::new().with_compression_level(9);
    let manifest = br#"{"info":{"title":{"en":"T"}},"skins":[],"backgrounds":[],"effects":[],"particles":[],"engines":[],"levels":[{"name":"lv1","title":{"en":"Level 1"},"description":{"en":"desc"}}],"replays":[],"playlists":[],"posts":[]}"#;
    let assets = vec![entry("00ff", &[0, 255, 1, 2])];
    let entries = converter.pack_to_scp(manifest, &assets).unwrap();
    let read = out_of_container(into_container(&entries, converter.compression_level()));
    let pack = converter.scp_to_pack(&read).unwrap();
    assert_eq!(pack, vec![entry("db.json", manifest), entry("repository/00ff", &[0, 255, 1, 2])]);
}

#[test]
fn listing_counts_every_entry_of_the_container() {
    let converter = Converter::new();
    let manifest = br#"{"info":{},"posts":[{"name":"a"},{"name":"b"}]}"#;
    let entries = converter.pack_to_scp(manifest, &vec![entry("aa", b"x")]).unwrap();
    let read = out_of_container(into_container(&entries, 6));
    let lines = converter.list_scp_contents("pack.scp", &read);
    assert_eq!(lines.len(), 1 + 7);
    assert_eq!(lines[0], "Contents of pack.scp:");
    assert_eq!(lines[1], "  1: static/sonolus/info (2 bytes)");
    assert_eq!(lines[3], "  3: static/sonolus/repository/aa (1 bytes)");
    assert_eq!(lines[7], "  7: static/sonolus/posts/info (25 bytes)");
}
