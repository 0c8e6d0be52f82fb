use exarare::watcher::{default_roots, is_touch, observe, record, report, FsEvent, Rules, Touched, MAX_PATHS};

fn rules() -> Rules {
    Rules::new(Some("/var/lib/exarare".to_string())).unwrap()
}

const SECOND: i128 = 1_000_000_000;

#[test]
fn excludes_runtime_and_noise() {
    let rules = rules();
    for path in [
        "/proc/sys/net/ipv4/ip_forward",
        "/sys/class/net/eth0/mtu",
        "/run/systemd/units/invocation:sshd.service",
        "/tmp/build/output",
        "/var/log/messages",
        "/var/cache/dnf/appstream.solv",
        "/var/lib/rpm/rpmdb.sqlite",
        "/var/lib/containers/storage/overlay/abc/diff",
        "/root/.bash_history",
        "/etc/nginx/.nginx.conf.swp",
        "/etc/nginx/nginx.conf~",
        "/opt/app/.git/index",
        "/opt/app/__pycache__/main.cpython-39.pyc",
    ] {
        assert!(rules.is_excluded(path), "{path}");
    }
}

#[test]
fn keeps_what_the_work_touched() {
    let rules = rules();
    for path in [
        "/etc/nginx/nginx.conf",
        "/opt/app/config.yaml",
        "/usr/local/bin/deploy",
        "/srv/data/seed.sql",
        "/root/.ssh/authorized_keys",
    ] {
        assert!(!rules.is_excluded(path), "{path}");
    }
}

#[test]
fn excludes_its_own_data_directory() {
    let rules = rules();
    assert!(rules.is_excluded("/var/lib/exarare/sessions/20260913-000000-0001/events.jsonl"));
    assert!(!rules.is_excluded("/var/lib/exarare-other/file"));
}

#[test]
fn remembers_the_first_time_a_path_was_seen() {
    let mut touched = Touched::default();
    let early = 0;
    let late = early + 60 * SECOND;
    record(&mut touched, "/opt/a".to_string(), early);
    record(&mut touched, "/opt/a".to_string(), late);
    assert_eq!(touched.first_seen("/opt/a"), Some(early));
}

#[test]
fn stops_at_the_cap_and_says_so() {
    let mut touched = Touched::default();
    for i in 0..MAX_PATHS + 5 {
        // Recorded in order, so each goes at the end.
        record(&mut touched, format!("/opt/file{i:06}"), 0);
    }
    assert_eq!(touched.paths.len(), MAX_PATHS);
    assert!(touched.truncated, "the report must admit the list is cut");
}

#[test]
fn selects_paths_by_when_they_were_seen() {
    let mut touched = Touched::default();
    let base = 0;
    let late = base + 120 * SECOND;
    record(&mut touched, "/opt/early".to_string(), base);
    record(&mut touched, "/opt/late".to_string(), late);

    let first = touched.in_window(base, Some(late));
    assert_eq!(first, vec!["/opt/early".to_string()]);

    let last = touched.in_window(late, None);
    assert_eq!(last, vec!["/opt/late".to_string()]);
}

#[test]
fn a_late_notification_still_lands_in_its_step() {
    let mut touched = Touched::default();
    let step_started = 0;
    let last_command = step_started + SECOND;
    let notified = last_command + 3 * SECOND;
    record(&mut touched, "/opt/app.yaml".to_string(), notified);
    assert!(touched.in_window(step_started, None).len() == 1);
}

#[test]
fn records_paths_in_path_order() {
    let mut touched = Touched::new(vec!["/opt".to_string()]);
    record(&mut touched, "/opt/b".to_string(), 1);
    record(&mut touched, "/opt/a-b".to_string(), 2);
    record(&mut touched, "/opt/a".to_string(), 3);
    record(&mut touched, "/opt/a/x".to_string(), 4);
    let paths: Vec<&str> = touched.paths.iter().map(|(p, _)| p.as_str()).collect();
    assert_eq!(paths, vec!["/opt/a", "/opt/a/x", "/opt/a-b", "/opt/b"]);
    assert_eq!(touched.roots, vec!["/opt".to_string()]);
}

#[test]
fn picks_the_candidate_roots_that_exist() {
    assert_eq!(default_roots(&[true, false, true]), vec!["/opt".to_string(), "/srv".to_string()]);
    assert!(default_roots(&[]).is_empty());
    assert_eq!(default_roots(&[true; 8]).len(), 6);
}

#[test]
fn reports_touched_paths_then_the_gaps() {
    let mut touched = Touched::new(vec!["/opt".to_string()]);
    record(&mut touched, "/opt/app/b.conf".to_string(), 20);
    record(&mut touched, "/opt/app/a.conf".to_string(), 10);
    assert_eq!(
        report(&touched),
        "touched      /opt/app/a.conf\ntouched      /opt/app/b.conf\n"
    );
    touched.truncated = true;
    touched.incomplete_roots = vec!["/srv: no space left on device".to_string()];
    assert_eq!(
        report(&touched),
        "touched      /opt/app/a.conf\ntouched      /opt/app/b.conf\n\
         warning      more than 10000 paths were touched, list is incomplete\n\
         warning      could not watch /srv: no space left on device\n"
    );
    assert_eq!(report(&Touched::new(Vec::new())), "");
}

#[test]
fn records_the_paths_of_a_write_but_not_of_a_read() {
    let rules = rules();
    let mut touched = Touched::new(vec!["/etc".to_string()]);
    let paths = vec!["/etc/nginx/nginx.conf".to_string(), "/etc/nginx/nginx.conf~".to_string(), "/etc/hosts".to_string()];
    observe(&mut touched, &rules, FsEvent::Access, &paths, 5);
    assert!(touched.paths.is_empty());
    observe(&mut touched, &rules, FsEvent::Other, &paths, 6);
    assert!(touched.paths.is_empty());
    observe(&mut touched, &rules, FsEvent::Modify, &paths, 7);
    assert_eq!(
        touched.paths,
        vec![("/etc/hosts".to_string(), 7), ("/etc/nginx/nginx.conf".to_string(), 7)]
    );
    observe(&mut touched, &rules, FsEvent::Remove, &vec!["/etc/hosts".to_string(), "/var/lib/exarare/s/log".to_string()], 9);
    assert_eq!(touched.paths.len(), 2, "a path keeps its first time and the data directory is left out");
    assert_eq!(touched.paths[0], ("/etc/hosts".to_string(), 7));
    assert!(is_touch(FsEvent::Create) && is_touch(FsEvent::Modify) && is_touch(FsEvent::Remove));
    assert!(!is_touch(FsEvent::Access) && !is_touch(FsEvent::Any) && !is_touch(FsEvent::Other));
}

#[test]
fn leaves_out_the_data_directory_by_whole_components() {
    let rules = rules();
    assert!(rules.is_excluded("/var/lib/exarare"));
    assert!(rules.is_excluded("/var/lib/exarare/sessions/a/log"));
    assert!(rules.is_excluded("/var/lib/exarare/./sessions"));
    assert!(rules.is_excluded("/var//lib/exarare/x"));
    assert!(!rules.is_excluded("/var/lib/exarare2/x"));
    assert!(!rules.is_excluded("var/lib/exarare/x"), "a relative path is not under an absolute one");
    let none = Rules::new(None).unwrap();
    assert!(!none.is_excluded("/var/lib/exarare/x"));
}
