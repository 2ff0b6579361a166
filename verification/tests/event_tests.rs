use diskspice_scanner::messages::ControlCommand;
use diskspice_scanner::scanner::Scanner;
use diskspice_scanner::tree::{FsNode, NodeKind};
use serde_json::Value;

fn file(path: &str, name: &str, size: u64) -> FsNode {
    FsNode {
        path: path.to_string(),
        name: name.to_string(),
        size,
        modified: Some(1_700_000_000),
        kind: NodeKind::File,
    }
}

fn dir(path: &str, name: &str, children: Vec<FsNode>) -> FsNode {
    FsNode {
        path: path.to_string(),
        name: name.to_string(),
        size: 0,
        modified: None,
        kind: NodeKind::DirListed(children),
    }
}

fn parsed(scanner: &Scanner) -> Vec<Value> {
    scanner
        .emitted
        .iter()
        .map(|line| serde_json::from_str(line).expect("every emitted line is valid JSON"))
        .collect()
}

fn sample_tree() -> FsNode {
    dir(
        "/tmp/r",
        "r",
        vec![
            file("/tmp/r/a.txt", "a.txt", 10),
            dir("/tmp/r/sub", "sub", vec![file("/tmp/r/sub/b.bin", "b.bin", 20)]),
        ],
    )
}

#[test]
fn scan_streams_entries_then_complete_then_done() {
    let mut scanner = Scanner::new();
    scanner.scan("/tmp/r", Some(&sample_tree()));
    let events = parsed(&scanner);

    let kinds: Vec<&str> = events
        .iter()
        .map(|e| e.get("type").unwrap().as_str().unwrap())
        .collect();
    assert_eq!(kinds, vec!["entry", "entry", "complete", "entry", "complete", "done"]);

    // a.txt first, in listing order
    assert_eq!(events[0].get("path").unwrap(), "/tmp/r/a.txt");
    assert_eq!(events[0].get("size").unwrap().as_u64(), Some(10));
    assert_eq!(events[0].get("is_dir").unwrap(), false);
    assert_eq!(events[0].get("item_count").unwrap().as_u64(), Some(1));
    assert_eq!(events[0].get("file_type").unwrap(), "document");
    assert_eq!(events[0].get("modified").unwrap().as_u64(), Some(1_700_000_000));

    // the subdirectory's child precedes the subdirectory's completion,
    // which precedes the subdirectory's own entry
    assert_eq!(events[1].get("path").unwrap(), "/tmp/r/sub/b.bin");
    assert_eq!(events[2].get("path").unwrap(), "/tmp/r/sub");
    assert_eq!(events[2].get("total_size").unwrap().as_u64(), Some(20));
    assert_eq!(events[3].get("path").unwrap(), "/tmp/r/sub");
    assert_eq!(events[3].get("is_dir").unwrap(), true);
    assert_eq!(events[3].get("item_count").unwrap().as_u64(), Some(1));
    assert_eq!(events[3].get("modified").unwrap(), &Value::Null);

    // the root completes after everything, with the full size
    assert_eq!(events[4].get("path").unwrap(), "/tmp/r");
    assert_eq!(events[4].get("total_size").unwrap().as_u64(), Some(30));

    // the terminal event carries the totals
    assert_eq!(events[5].get("total_size").unwrap().as_u64(), Some(30));
    assert_eq!(events[5].get("total_items").unwrap().as_u64(), Some(2));
}

#[test]
fn missing_root_emits_single_error_and_no_done() {
    let mut scanner = Scanner::new();
    scanner.scan("/does/not/exist", None);
    let events = parsed(&scanner);
    assert_eq!(events.len(), 1);
    assert_eq!(events[0].get("type").unwrap(), "error");
    assert_eq!(events[0].get("path").unwrap(), "/does/not/exist");
    assert_eq!(events[0].get("message").unwrap(), "Path does not exist");
}

#[test]
fn cancel_before_scan_suppresses_all_entries() {
    let (mut scanner, tx) = Scanner::with_control_channel();
    tx.send(ControlCommand::Cancel).unwrap();
    scanner.scan("/tmp/r", Some(&sample_tree()));
    let events = parsed(&scanner);

    let kinds: Vec<&str> = events
        .iter()
        .map(|e| e.get("type").unwrap().as_str().unwrap())
        .collect();
    assert_eq!(kinds, vec!["status", "done"]);
    assert_eq!(events[0].get("status").unwrap(), "cancelled");
    // the terminal event reflects only the work completed before cancellation
    assert_eq!(events[1].get("total_size").unwrap().as_u64(), Some(0));
    assert_eq!(events[1].get("total_items").unwrap().as_u64(), Some(0));
}

#[test]
fn pause_then_resume_keeps_totals_identical() {
    let mut plain = Scanner::new();
    plain.scan("/tmp/r", Some(&sample_tree()));
    let plain_done = parsed(&plain).pop().unwrap();

    let (mut controlled, tx) = Scanner::with_control_channel();
    tx.send(ControlCommand::Pause).unwrap();
    tx.send(ControlCommand::Resume).unwrap();
    controlled.scan("/tmp/r", Some(&sample_tree()));
    let events = parsed(&controlled);

    let statuses: Vec<&str> = events
        .iter()
        .filter(|e| e.get("type").unwrap() == "status")
        .map(|e| e.get("status").unwrap().as_str().unwrap())
        .collect();
    assert_eq!(statuses, vec!["paused", "resumed"]);

    let done = events.last().unwrap();
    assert_eq!(done.get("type").unwrap(), "done");
    assert_eq!(
        done.get("total_size").unwrap().as_u64(),
        plain_done.get("total_size").unwrap().as_u64()
    );
    assert_eq!(
        done.get("total_items").unwrap().as_u64(),
        plain_done.get("total_items").unwrap().as_u64()
    );
}

#[test]
fn disconnected_controller_ends_pause_with_resumed_ack() {
    let (mut scanner, tx) = Scanner::with_control_channel();
    tx.send(ControlCommand::Pause).unwrap();
    drop(tx);
    scanner.scan("/tmp/r", Some(&sample_tree()));
    let events = parsed(&scanner);

    let statuses: Vec<&str> = events
        .iter()
        .filter(|e| e.get("type").unwrap() == "status")
        .map(|e| e.get("status").unwrap().as_str().unwrap())
        .collect();
    assert_eq!(statuses, vec!["paused", "resumed"]);
    let done = events.last().unwrap();
    assert_eq!(done.get("type").unwrap(), "done");
    assert_eq!(done.get("total_size").unwrap().as_u64(), Some(30));
    assert_eq!(done.get("total_items").unwrap().as_u64(), Some(2));
}

#[test]
fn refresh_is_acknowledged_but_changes_nothing() {
    let (mut scanner, tx) = Scanner::with_control_channel();
    tx.send(ControlCommand::Refresh("/tmp/r/sub".to_string())).unwrap();
    scanner.scan("/tmp/r", Some(&sample_tree()));
    let events = parsed(&scanner);

    assert_eq!(events[0].get("type").unwrap(), "status");
    assert_eq!(events[0].get("status").unwrap(), "refreshing:/tmp/r/sub");
    let done = events.last().unwrap();
    assert_eq!(done.get("total_size").unwrap().as_u64(), Some(30));
    assert_eq!(done.get("total_items").unwrap().as_u64(), Some(2));
}

#[test]
fn unreadable_directory_reported_and_siblings_survive() {
    let root = dir(
        "/tmp/e",
        "e",
        vec![
            FsNode {
                path: "/tmp/e/locked".to_string(),
                name: "locked".to_string(),
                size: 0,
                modified: None,
                kind: NodeKind::DirUnreadable("permission denied".to_string()),
            },
            file("/tmp/e/ok.txt", "ok.txt", 9),
        ],
    );
    let mut scanner = Scanner::new();
    scanner.scan("/tmp/e", Some(&root));
    let events = parsed(&scanner);

    assert_eq!(events[0].get("type").unwrap(), "error");
    assert_eq!(events[0].get("path").unwrap(), "/tmp/e/locked");
    assert_eq!(events[0].get("message").unwrap(), "permission denied");
    // the unreadable directory is still announced as an entry with zero size
    assert_eq!(events[1].get("type").unwrap(), "entry");
    assert_eq!(events[1].get("path").unwrap(), "/tmp/e/locked");
    assert_eq!(events[1].get("size").unwrap().as_u64(), Some(0));
    assert_eq!(events[1].get("is_dir").unwrap(), true);
    // the sibling is unaffected
    let done = events.last().unwrap();
    assert_eq!(done.get("total_size").unwrap().as_u64(), Some(9));
    assert_eq!(done.get("total_items").unwrap().as_u64(), Some(1));
}

#[test]
fn symlink_emits_one_entry_and_no_nested_events() {
    let root = dir(
        "/tmp/l",
        "l",
        vec![FsNode {
            path: "/tmp/l/link".to_string(),
            name: "link".to_string(),
            size: 6,
            modified: None,
            kind: NodeKind::Symlink,
        }],
    );
    let mut scanner = Scanner::new();
    scanner.scan("/tmp/l", Some(&root));
    let events = parsed(&scanner);

    let kinds: Vec<&str> = events
        .iter()
        .map(|e| e.get("type").unwrap().as_str().unwrap())
        .collect();
    assert_eq!(kinds, vec!["entry", "complete", "done"]);
    assert_eq!(events[0].get("is_symlink").unwrap(), true);
    assert_eq!(events[0].get("is_dir").unwrap(), false);
    assert_eq!(events[0].get("item_count").unwrap().as_u64(), Some(1));
}
