use scp_pack::entry::Entry;
use scp_pack::error::ScpError;
use scp_pack::text::{decode_text, same_text, split_name, strip_prefix, to_decimal};
use scp_pack::utils::{
    check_scp_file, normalize_path, relative_path, validate_pack_dir, validate_scp_file,
    with_slashes,
};
use scp_pack::Converter;

#[test]
fn normalize_path_strips_the_base() {
    assert_eq!(normalize_path("/pack/repository/abc", "/pack").unwrap(), "repository/abc");
    assert_eq!(normalize_path("pack/db.json", "pack").unwrap(), "db.json");
    assert_eq!(normalize_path("/pack", "/pack").unwrap(), "");
}

#[test]
fn normalize_path_refuses_a_path_outside_the_base() {
    match normalize_path("/other/file", "/pack") {
        Err(ScpError::InvalidPath(p)) => assert_eq!(p, "/other/file"),
        _ => panic!("a path outside the base was accepted"),
    }
    assert!(matches!(normalize_path("/packed/file", "/pack"), Err(ScpError::InvalidPath(_))));
}

#[test]
fn relative_path_turns_backslashes_into_slashes() {
    assert_eq!(relative_path("p", Some("a\\b\\c.txt".to_string())).unwrap(), "a/b/c.txt");
    assert!(matches!(relative_path("p", None), Err(ScpError::InvalidPath(_))));
}

#[test]
fn with_slashes_replaces_every_backslash() {
    assert_eq!(with_slashes(""), "");
    assert_eq!(with_slashes("\\"), "/");
    assert_eq!(with_slashes("a\\\\b/c\\"), "a//b/c/");
    assert_eq!(with_slashes("päck\\ü"), "päck/ü");
}

#[test]
fn pack_dir_must_exist() {
    match validate_pack_dir("some/dir", false, false) {
        Err(ScpError::InvalidPath(p)) => {
            assert_eq!(p, "Pack directory does not exist: some/dir")
        }
        _ => panic!("a missing directory was accepted"),
    }
    assert!(matches!(validate_pack_dir("some/dir", false, true), Err(ScpError::InvalidPath(_))));
}

#[test]
fn pack_dir_must_hold_a_manifest() {
    match validate_pack_dir("some/dir", true, false) {
        Err(ScpError::InvalidFormat(m)) => assert_eq!(m, "db.json not found in pack directory"),
        _ => panic!("a directory without manifest was accepted"),
    }
    assert!(validate_pack_dir("some/dir", true, true).is_ok());
}

#[test]
fn scp_file_must_exist() {
    match validate_scp_file("a/b.scp", false) {
        Err(ScpError::InvalidPath(p)) => assert_eq!(p, "SCP file does not exist: a/b.scp"),
        _ => panic!("a missing file was accepted"),
    }
}

#[test]
fn scp_file_must_have_the_extension() {
    assert!(validate_scp_file("a/b.scp", true).is_ok());
    assert!(validate_scp_file("b.tar.scp", true).is_ok());
    for name in ["a/b.zip", "a/b", "a/scp", ".scp", "a.scp/b", "b.SCP", "b.scp.bak"] {
        match validate_scp_file(name, true) {
            Err(ScpError::InvalidFormat(m)) => assert_eq!(m, "File must have .scp extension"),
            _ => panic!("a file without the extension was accepted"),
        }
    }
}

#[test]
fn check_scp_file_goes_by_the_extension_given() {
    assert!(check_scp_file("x", true, Some("scp")).is_ok());
    assert!(matches!(check_scp_file("x", true, Some("sc")), Err(ScpError::InvalidFormat(_))));
    assert!(matches!(check_scp_file("x", true, None), Err(ScpError::InvalidFormat(_))));
    assert!(matches!(check_scp_file("x", false, Some("scp")), Err(ScpError::InvalidPath(_))));
}

#[test]
fn messages_of_errors() {
    assert_eq!(ScpError::InvalidPath("p".to_string()).message(), "Invalid path: p");
    assert_eq!(ScpError::InvalidFormat("m".to_string()).message(), "Invalid format: m");
    let io = ScpError::from(std::io::Error::new(std::io::ErrorKind::Other, "disk on fire"));
    assert!(matches!(io, ScpError::Io(_)));
    assert_eq!(io.message(), "IO error: disk on fire");
    let zip = ScpError::from(zip::result::ZipError::FileNotFound);
    assert!(matches!(zip, ScpError::Zip(_)));
    assert_eq!(zip.message(), "ZIP error: specified file not found in archive");
    let json = ScpError::from(serde_json::from_str::<serde_json::Value>("{").unwrap_err());
    assert!(matches!(json, ScpError::Json(_)));
    assert_eq!(json.message(), "JSON error: EOF while parsing an object at line 1 column 1");
}

#[test]
fn decimal_digits() {
    assert_eq!(to_decimal(0), "0");
    assert_eq!(to_decimal(7), "7");
    assert_eq!(to_decimal(10), "10");
    assert_eq!(to_decimal(1234567890), "1234567890");
    assert_eq!(to_decimal(usize::MAX), usize::MAX.to_string());
}

#[test]
fn same_text_compares_characters() {
    assert!(same_text("", ""));
    assert!(same_text("päck", "päck"));
    assert!(!same_text("pack", "päck"));
    assert!(!same_text("pack", "pack "));
}

#[test]
fn strip_prefix_gives_the_rest() {
    assert_eq!(strip_prefix("static/x", "static/"), Some("x".to_string()));
    assert_eq!(strip_prefix("static/", "static/"), Some(String::new()));
    assert_eq!(strip_prefix("stätic/ü", "stätic/"), Some("ü".to_string()));
    assert_eq!(strip_prefix("static", "static/"), None);
    assert_eq!(strip_prefix("xstatic/", "static/"), None);
}

#[test]
fn split_name_finds_directory_and_last_segment() {
    assert_eq!(split_name("a/b/c"), (false, "c".to_string()));
    assert_eq!(split_name("a/b/"), (true, String::new()));
    assert_eq!(split_name("a/b\\"), (true, "b\\".to_string()));
    assert_eq!(split_name("plain"), (false, "plain".to_string()));
    assert_eq!(split_name(""), (false, String::new()));
    assert_eq!(split_name("ä/ö"), (false, "ö".to_string()));
}

#[test]
fn decode_text_accepts_utf8_only() {
    assert_eq!(decode_text("héllo".as_bytes()), Some("héllo".to_string()));
    assert_eq!(decode_text(b""), Some(String::new()));
    assert_eq!(decode_text(&[0xff, 0xfe]), None);
}

#[test]
fn show_file_shows_text_as_text() {
    let lines = Converter::new().show_file("pack.scp", "static/sonolus/package", b"{}");
    assert_eq!(lines, vec!["Content of static/sonolus/package in pack.scp:", "{}"]);
}

#[test]
fn show_file_gives_the_size_of_what_is_no_text() {
    let lines = Converter::new().show_file("pack.scp", "static/sonolus/repository/aa", &[0xff, 0, 1]);
    assert_eq!(lines, vec!["File static/sonolus/repository/aa is binary (3 bytes)"]);
}

#[test]
fn list_scp_contents_numbers_the_lines() {
    let entries = vec![
        Entry { name: "a".to_string(), bytes: b"xyz".to_vec() },
        Entry { name: "b/c".to_string(), bytes: Vec::new() },
    ];
    let lines = Converter::new().list_scp_contents("pack.scp", &entries);
    assert_eq!(lines, vec!["Contents of pack.scp:", "  1: a (3 bytes)", "  2: b/c (0 bytes)"]);
}
