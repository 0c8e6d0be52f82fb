use exarare::diff::{compare, render, unified_body, unified_exec, Change, Listing};
use exarare::snapshot::{Blobs, Content, Entry};

fn file(path: &str, hash: &str, mode: u32) -> Entry {
    Entry {
        path: path.to_string(),
        content: Content::File {
            size: 1,
            hash: hash.into(),
            blob: false,
            masked: false,
        },
        mode,
        uid: 0,
        gid: 0,
    }
}

fn text_file(path: &str, hash: &str) -> Entry {
    Entry {
        path: path.to_string(),
        content: Content::File {
            size: 1,
            hash: hash.into(),
            blob: true,
            masked: false,
        },
        mode: 0o644,
        uid: 0,
        gid: 0,
    }
}

fn listing(entries: Vec<Entry>) -> Listing {
    let mut l = Listing::new();
    for e in entries {
        l.insert(e);
    }
    l
}

#[test]
fn classifies_changes() {
    let before = listing(vec![
        file("/etc/a", "h1", 0o644),
        file("/etc/b", "h2", 0o644),
        file("/etc/c", "h3", 0o644),
    ]);
    let after = listing(vec![
        file("/etc/a", "h9", 0o644),
        file("/etc/b", "h2", 0o600),
        file("/etc/d", "h4", 0o644),
    ]);

    let changes = compare(&before, &after);
    let summary: Vec<(&str, String)> = changes
        .iter()
        .map(|c| (c.label(), c.path().to_string()))
        .collect();
    assert_eq!(
        summary,
        vec![
            ("modified", "/etc/a".to_string()),
            ("permissions", "/etc/b".to_string()),
            ("removed", "/etc/c".to_string()),
            ("added", "/etc/d".to_string()),
        ]
    );
}

#[test]
fn renders_unified_diff() {
    let body = unified_exec("/etc/hosts", "one\ntwo\n", "one\nthree\n");
    assert!(body.contains("a/etc/hosts"));
    assert!(body.contains("-two"));
    assert!(body.contains("+three"));
}

#[test]
fn a_listing_compared_with_itself_has_no_changes() {
    let l = listing(vec![file("/etc/a", "h1", 0o644), file("/etc/b", "h2", 0o600)]);
    assert!(compare(&l, &l).is_empty());
}

#[test]
fn listings_keep_one_entry_per_path_in_path_order() {
    let l = listing(vec![
        file("/etc/b", "h1", 0o644),
        file("/etc/a", "h2", 0o644),
        file("/etc/a/x", "h3", 0o644),
        file("/etc/a-b", "h4", 0o644),
        file("/etc/b", "h5", 0o600),
    ]);
    let paths: Vec<&str> = l.entries().iter().map(|e| e.path.as_str()).collect();
    // A path sorts before the paths below it, as `Path` orders them.
    assert_eq!(paths, vec!["/etc/a", "/etc/a/x", "/etc/a-b", "/etc/b"]);
    assert_eq!(l.entries()[3].mode, 0o600);
}

#[test]
fn reports_changes_with_their_content() {
    let mut blobs = Blobs::new();
    blobs.insert("h1".to_string(), "one\ntwo\n".to_string());
    blobs.insert("h2".to_string(), "one\nthree\n".to_string());
    let before = listing(vec![text_file("/etc/hosts", "h1"), file("/etc/mode", "m", 0o644)]);
    let after = listing(vec![text_file("/etc/hosts", "h2"), file("/etc/mode", "m", 0o600)]);
    let changes = compare(&before, &after);
    let report = render(&changes, &blobs);
    assert!(report.starts_with("modified     /etc/hosts\n"), "{report}");
    assert!(report.contains("  -two\n"), "{report}");
    assert!(report.contains("  +three\n"), "{report}");
    assert!(report.contains("permissions  /etc/mode\n  mode 644 -> 600, owner 0:0 -> 0:0\n"), "{report}");
    assert_eq!(render(&Vec::new(), &blobs), "no file changes\n");
}

#[test]
fn a_file_without_recorded_content_gets_a_note() {
    let blobs = Blobs::new();
    let mut secret = file("/etc/shadow", "s1", 0o000);
    secret.content = Content::File { size: 1, hash: "s1".into(), blob: false, masked: true };
    let mut secret2 = secret.clone();
    secret2.content = Content::File { size: 1, hash: "s2".into(), blob: false, masked: true };
    let change = Change::Modified { before: secret, after: secret2 };
    let report = render(&vec![change.clone()], &blobs);
    assert!(report.contains("(content not recorded: the path matched a secret pattern)"), "{report}");
    assert!(unified_body(&change, &blobs).is_none());
}

#[test]
fn an_added_text_file_diffs_against_nothing() {
    let mut blobs = Blobs::new();
    blobs.insert("h1".to_string(), "listen 80\n".to_string());
    let change = Change::Added(text_file("/etc/app.conf", "h1"));
    let body = unified_body(&change, &blobs).unwrap();
    assert!(body.contains("+++ b/etc/app.conf"), "{body}");
    assert!(body.contains("+listen 80"), "{body}");
}

#[test]
fn reports_only_the_paths_that_changed() {
    let before = listing(vec![
        file("/etc/keep.conf", "k", 0o644),
        file("/etc/edit.conf", "a", 0o644),
        file("/etc/gone.conf", "g", 0o644),
        file("/etc/chmod.conf", "c", 0o644),
        file("/etc/a/deep.conf", "d", 0o644),
    ]);
    let after = listing(vec![
        file("/etc/chmod.conf", "c", 0o600),
        file("/etc/added.conf", "n", 0o644),
        file("/etc/edit.conf", "b", 0o644),
        file("/etc/keep.conf", "k", 0o644),
        file("/etc/a/deep.conf", "d", 0o644),
    ]);
    let changes = compare(&before, &after);
    let reported: Vec<(&str, &str)> = changes.iter().map(|c| (c.label(), c.path())).collect();
    assert_eq!(
        reported,
        vec![
            ("added", "/etc/added.conf"),
            ("permissions", "/etc/chmod.conf"),
            ("modified", "/etc/edit.conf"),
            ("removed", "/etc/gone.conf"),
        ]
    );
    // Inserting in any order keeps a listing sorted, with a path once.
    assert_eq!(after.len(), 5);
    let paths: Vec<&str> = after.entries().iter().map(|e| e.path.as_str()).collect();
    assert_eq!(
        paths,
        vec!["/etc/a/deep.conf", "/etc/added.conf", "/etc/chmod.conf", "/etc/edit.conf", "/etc/keep.conf"]
    );
}
