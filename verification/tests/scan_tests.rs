use diskspice_scanner::messages::ScanError;
use diskspice_scanner::scanner::{compute_directory_totals, Scanner};
use diskspice_scanner::tree::{FsNode, NodeKind};

fn file(path: &str, name: &str, size: u64) -> FsNode {
    FsNode {
        path: path.to_string(),
        name: name.to_string(),
        size,
        modified: Some(1_600_000_000),
        kind: NodeKind::File,
    }
}

fn dir(path: &str, name: &str, children: Vec<FsNode>) -> FsNode {
    FsNode {
        path: path.to_string(),
        name: name.to_string(),
        size: 0,
        modified: None,
        kind: NodeKind::DirListed(children),
    }
}

fn symlink(path: &str, name: &str, size: u64) -> FsNode {
    FsNode {
        path: path.to_string(),
        name: name.to_string(),
        size,
        modified: Some(1_600_000_000),
        kind: NodeKind::Symlink,
    }
}

#[test]
fn scan_directory_sums_nested_files() {
    let root = dir(
        "/tmp/nested",
        "nested",
        vec![
            file("/tmp/nested/a.txt", "a.txt", 10),
            dir(
                "/tmp/nested/sub",
                "sub",
                vec![file("/tmp/nested/sub/b.bin", "b.bin", 20)],
            ),
        ],
    );

    let mut scanner = Scanner::new();
    let (total_size, total_items) = scanner.scan_directory(&root, false);

    assert_eq!(total_size, 30);
    assert_eq!(total_items, 2);
}

#[test]
fn scan_directory_does_not_recurse_symlinked_dir() {
    let root = dir(
        "/tmp/symlink",
        "symlink",
        vec![
            dir(
                "/tmp/symlink/target",
                "target",
                vec![file("/tmp/symlink/target/inside.txt", "inside.txt", 8)],
            ),
            symlink("/tmp/symlink/link", "link", 6),
        ],
    );

    let mut scanner = Scanner::new();
    let (_total_size, total_items) = scanner.scan_directory(&root, false);

    assert_eq!(total_items, 2, "counts only file + symlink entry");
}

#[test]
fn compute_directory_totals_requires_existing_path() {
    let result = compute_directory_totals(None);
    assert!(result.is_err());
    assert_eq!(result.unwrap_err(), ScanError::PathNotFound);
}

#[test]
fn compute_totals_matches_simple_tree() {
    let root = dir(
        "/tmp/t",
        "t",
        vec![
            file("/tmp/t/a.txt", "a.txt", 10),
            dir("/tmp/t/sub", "sub", vec![file("/tmp/t/sub/b.bin", "b.bin", 20)]),
        ],
    );
    let totals = compute_directory_totals(Some(&root)).unwrap();
    assert_eq!(totals.total_size, 30);
    assert_eq!(totals.total_items, 2);
}

#[test]
fn symlink_target_not_double_counted() {
    let root = dir(
        "/tmp/s",
        "s",
        vec![
            dir(
                "/tmp/s/target",
                "target",
                vec![file("/tmp/s/target/inside.txt", "inside.txt", 8)],
            ),
            symlink("/tmp/s/link", "link", 4),
        ],
    );
    let totals = compute_directory_totals(Some(&root)).unwrap();
    // the symlink contributes its own on-disk size, never its target's bytes
    assert_eq!(totals.total_size, 8 + 4);
    assert_eq!(totals.total_items, 2);
}

#[test]
fn unreadable_directory_contributes_nothing() {
    let root = dir(
        "/tmp/u",
        "u",
        vec![
            file("/tmp/u/ok.txt", "ok.txt", 5),
            FsNode {
                path: "/tmp/u/locked".to_string(),
                name: "locked".to_string(),
                size: 0,
                modified: None,
                kind: NodeKind::DirUnreadable("permission denied".to_string()),
            },
        ],
    );
    let totals = compute_directory_totals(Some(&root)).unwrap();
    assert_eq!(totals.total_size, 5);
    assert_eq!(totals.total_items, 1);
}

#[test]
fn entry_without_metadata_is_skipped() {
    let root = dir(
        "/tmp/m",
        "m",
        vec![
            FsNode {
                path: "/tmp/m/ghost".to_string(),
                name: "ghost".to_string(),
                size: 0,
                modified: None,
                kind: NodeKind::MetaUnavailable("io error".to_string()),
            },
            file("/tmp/m/real.txt", "real.txt", 7),
        ],
    );
    let totals = compute_directory_totals(Some(&root)).unwrap();
    assert_eq!(totals.total_size, 7);
    assert_eq!(totals.total_items, 1);
}

#[test]
fn totals_clamp_instead_of_wrapping() {
    let root = dir(
        "/tmp/big",
        "big",
        vec![
            file("/tmp/big/a", "a", u64::MAX),
            file("/tmp/big/b", "b", 100),
        ],
    );
    let totals = compute_directory_totals(Some(&root)).unwrap();
    assert_eq!(totals.total_size, u64::MAX);
    assert_eq!(totals.total_items, 2);
}

#[test]
fn totals_only_scan_emits_nothing() {
    let root = dir("/tmp/q", "q", vec![file("/tmp/q/a.txt", "a.txt", 3)]);
    let mut scanner = Scanner::new();
    let _ = scanner.scan_directory(&root, false);
    assert!(scanner.emitted.is_empty());
}
