use diskspice_scanner::classify::detect_file_type;
use diskspice_scanner::encode::encode_message;
use diskspice_scanner::messages::{FileEntry, ScanMessage};
use serde_json::Value;

#[test]
fn entry_encodes_every_field() {
    let m = ScanMessage::Entry(FileEntry {
        path: "/tmp/x/a.mp4".to_string(),
        name: "a.mp4".to_string(),
        size: 1234,
        is_dir: false,
        is_symlink: false,
        modified: Some(42),
        item_count: 1,
        file_type: "video".to_string(),
    });
    let line = encode_message(&m);
    assert_eq!(
        line,
        "{\"type\":\"entry\",\"path\":\"/tmp/x/a.mp4\",\"name\":\"a.mp4\",\"size\":1234,\
         \"is_dir\":false,\"is_symlink\":false,\"modified\":42,\"item_count\":1,\
         \"file_type\":\"video\"}"
    );
}

#[test]
fn absent_modified_encodes_as_null() {
    let m = ScanMessage::Entry(FileEntry {
        path: "p".to_string(),
        name: "p".to_string(),
        size: 0,
        is_dir: true,
        is_symlink: false,
        modified: None,
        item_count: 3,
        file_type: "other".to_string(),
    });
    let v: Value = serde_json::from_str(&encode_message(&m)).unwrap();
    assert_eq!(v.get("modified").unwrap(), &Value::Null);
    assert_eq!(v.get("is_dir").unwrap(), true);
    assert_eq!(v.get("item_count").unwrap().as_u64(), Some(3));
}

#[test]
fn strings_are_escaped_like_json() {
    let m = ScanMessage::Error {
        path: "/tmp/we\"ird\\name\npath\ttab".to_string(),
        message: "ctl\u{1}char".to_string(),
    };
    let line = encode_message(&m);
    let v: Value = serde_json::from_str(&line).unwrap();
    assert_eq!(v.get("path").unwrap(), "/tmp/we\"ird\\name\npath\ttab");
    assert_eq!(v.get("message").unwrap(), "ctl\u{1}char");
    assert!(line.contains("\\u0001"));
}

#[test]
fn non_ascii_paths_survive_the_wire() {
    let m = ScanMessage::FolderComplete {
        path: "/tmp/földer/写真".to_string(),
        total_size: 18446744073709551615,
    };
    let v: Value = serde_json::from_str(&encode_message(&m)).unwrap();
    assert_eq!(v.get("path").unwrap(), "/tmp/földer/写真");
    assert_eq!(v.get("total_size").unwrap().as_u64(), Some(u64::MAX));
}

#[test]
fn status_and_done_encode_exactly() {
    let s = ScanMessage::Status { status: "paused".to_string() };
    assert_eq!(encode_message(&s), "{\"type\":\"status\",\"status\":\"paused\"}");
    let d = ScanMessage::Done { total_size: 30, total_items: 2 };
    assert_eq!(encode_message(&d), "{\"type\":\"done\",\"total_size\":30,\"total_items\":2}");
}

#[test]
fn file_types_follow_the_taxonomy() {
    assert_eq!(detect_file_type("movie.mp4"), "video");
    assert_eq!(detect_file_type("SONG.FLAC"), "audio");
    assert_eq!(detect_file_type("photo.jpeg"), "image");
    assert_eq!(detect_file_type("main.rs"), "code");
    assert_eq!(detect_file_type("bundle.tar"), "archive");
    assert_eq!(detect_file_type("tool.exe"), "application");
    assert_eq!(detect_file_type("config.plist"), "system");
    assert_eq!(detect_file_type("build.log"), "cache");
    assert_eq!(detect_file_type("notes.txt"), "document");
    assert_eq!(detect_file_type("archive.tar.gz"), "archive");
    assert_eq!(detect_file_type("README"), "other");
    assert_eq!(detect_file_type(".gitignore"), "other");
    assert_eq!(detect_file_type("odd."), "other");
    assert_eq!(detect_file_type("what.xyz"), "other");
}
