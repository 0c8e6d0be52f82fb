use exarare::session::{data_dir_of, default_snapshot_roots, snapshot_roots, status_of, watch_roots, Meta, Session, Status};

fn session(shell_pid: Option<u32>, ended: bool) -> Session {
    Session {
        dir: "/nonexistent".to_string(),
        meta: Meta {
            id: "20260912-000000-0001".into(),
            name: None,
            hostname: None,
            user: None,
            shell: "/bin/bash".into(),
            snapshot_roots: default_snapshot_roots(),
            watch_roots: Vec::new(),
            started_at: 0,
            ended_at: if ended { Some(0) } else { None },
            shell_pid,
        },
    }
}

#[test]
fn a_session_without_a_pid_is_still_recording() {
    assert_eq!(session(None, false).status(), Status::Recording);
}

#[test]
fn status_follows_the_shell() {
    assert_eq!(session(Some(1), true).status(), Status::Finished);
    assert_eq!(session(None, true).status(), Status::Finished);
    // Above pid_max, so no such process exists.
    assert_eq!(session(Some(i32::MAX as u32), false).status(), Status::Aborted);
    assert_eq!(status_of(false, Some(7), true), Status::Recording);
    assert_eq!(status_of(false, Some(7), false), Status::Aborted);
    assert_eq!(Status::Aborted.name(), "aborted");
}

#[test]
fn places_the_files_of_a_session() {
    let s = session(None, false);
    assert_eq!(s.snapshot_path("before"), "/nonexistent/snapshots/before.jsonl");
    assert_eq!(s.packages_path("after"), "/nonexistent/packages/after.json");
    assert_eq!(s.state_path("before"), "/nonexistent/state/before.json");
    assert_eq!(s.blobs_dir(), "/nonexistent/blobs");
    assert_eq!(s.touched_path(), "/nonexistent/touched.json");
    let mut t = session(None, false);
    t.dir = "/data/".to_string();
    assert_eq!(t.blobs_dir(), "/data/blobs");
    assert_eq!(default_snapshot_roots(), vec!["/etc".to_string()]);
}

#[test]
fn chooses_the_roots_of_a_new_session() {
    assert_eq!(snapshot_roots(Vec::new()), vec!["/etc"]);
    assert_eq!(snapshot_roots(vec!["/srv/app".to_string()]), vec!["/srv/app"]);

    let present = [false, true, false, true, false, true];
    assert_eq!(watch_roots(Vec::new(), false, &present), vec!["/usr/local", "/var/www", "/home"]);
    assert_eq!(watch_roots(vec!["/data".to_string()], false, &present), vec!["/data"]);
    assert!(watch_roots(vec!["/data".to_string()], true, &present).is_empty());
    assert!(watch_roots(Vec::new(), true, &present).is_empty());
}

#[test]
fn places_the_data_directory() {
    assert_eq!(data_dir_of(Some("/data/x"), Some("/xdg"), Some("/home/u")), Some("/data/x".to_string()));
    assert_eq!(data_dir_of(None, Some("/xdg"), Some("/home/u")), Some("/xdg/exarare".to_string()));
    assert_eq!(data_dir_of(None, None, Some("/home/u")), Some("/home/u/.local/share/exarare".to_string()));
    assert_eq!(data_dir_of(None, Some("/xdg/"), None), Some("/xdg/exarare".to_string()));
    assert_eq!(data_dir_of(None, None, None), None);
}
