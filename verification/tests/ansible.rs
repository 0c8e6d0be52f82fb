use exarare::ansible::{files_path, render, scalar, summarize, wrap, Input, Playbook};
use exarare::diff::Change;
use exarare::event::{Event, EventKind};
use exarare::i18n::Locale;
use exarare::session::Meta;
use exarare::snapshot::{Blobs, Content, Entry};
use exarare::step::{self, Runbook};

fn meta() -> Meta {
    Meta {
        id: "20260912-101500-0001".into(),
        name: Some("web01 nginx setup".into()),
        hostname: Some("web01".into()),
        user: Some("root".into()),
        shell: "/bin/bash".into(),
        snapshot_roots: exarare::session::default_snapshot_roots(),
        watch_roots: Vec::new(),
        started_at: 0,
        ended_at: Some(0),
        shell_pid: Some(1),
    }
}

fn entry(path: &str, mode: u32) -> Entry {
    Entry {
        path: path.to_string(),
        content: Content::File { size: 1, hash: "hash".into(), blob: false, masked: false },
        mode,
        uid: 0,
        gid: 0,
    }
}

fn rendered_with(runbook: &Runbook, blobs: &Blobs, locale: Locale) -> Playbook {
    let meta = meta();
    render(&Input { meta: &meta, runbook, blobs, version: "0.1.0" }, &locale.messages())
}

fn rendered(runbook: &Runbook) -> Playbook {
    rendered_with(runbook, &Blobs::new(), Locale::En)
}

#[test]
fn quotes_only_what_yaml_would_misread() {
    assert_eq!(scalar("nginx"), "nginx");
    assert_eq!(scalar("/etc/hosts"), "/etc/hosts");
    assert_eq!(scalar("true"), "\"true\"");
    assert_eq!(scalar("8080"), "\"8080\"");
    assert_eq!(scalar("- dash"), "\"- dash\"");
    assert_eq!(scalar("say \"hi\""), "\"say \\\"hi\\\"\"");
}

#[test]
fn quotes_numbers_and_yaml_words_as_yaml_would_read_them() {
    for value in ["1.5", "-2", ".5", "1e3", "+1E-3", "inf", "-Infinity", "NaN", "Yes", "OFF", "~", "", "a: b", "a:", "x #y", "back\\slash"] {
        assert!(scalar(value).starts_with('"'), "{value:?} should be quoted");
    }
    for value in ["1e", "e3", ".", "1.2.3", "nginx.service", "8080/tcp", "a:b"] {
        assert_eq!(scalar(value), value, "{value:?} should stay plain");
    }
    assert_eq!(scalar("a\\b"), "\"a\\\\b\"");
}

#[test]
fn wraps_comments_at_word_boundaries() {
    let long = "word ".repeat(40);
    let lines = wrap(&long);
    assert!(lines.len() > 1);
    assert!(lines.iter().all(|l| l.chars().count() <= 96), "{lines:?}");
    let word = "x".repeat(120);
    assert_eq!(wrap(&word), vec![word.clone()]);
    assert_eq!(wrap("a\n\nb"), vec!["a".to_string(), "".to_string(), "b".to_string()]);
    assert!(wrap("").is_empty());
}

#[test]
fn names_tasks_after_commands() {
    assert_eq!(summarize("mkdir -p /opt/app"), "Run mkdir -p /opt/app");
    assert_eq!(summarize("mkdir -p /opt/app /srv"), "Run mkdir -p /opt/app ...");
    assert_eq!(summarize("  ls  "), "Run ls");
    assert_eq!(files_path("/etc/nginx/nginx.conf"), "etc/nginx/nginx.conf");
}

#[test]
fn a_command_with_a_redirect_uses_shell() {
    let events = [
        Event { ts: 0, kind: EventKind::CmdStart { cmd: "printf 'x\\n' > /opt/app/config".into(), cwd: "/root".into() } },
        Event { ts: 0, kind: EventKind::CmdEnd { exit_code: 0 } },
    ];
    let runbook = step::build(&events, &[]);
    let playbook = rendered(&runbook);

    assert!(playbook.yaml.contains("ansible.builtin.shell:"), "{}", playbook.yaml);
    assert!(playbook.yaml.contains("changed_when: true"), "{}", playbook.yaml);
    assert_eq!(playbook.warnings.len(), 1);
    assert!(playbook.warnings[0].contains("idempotent"));
}

#[test]
fn an_empty_session_still_produces_a_valid_play() {
    let runbook = step::build(&[], &[]);
    let playbook = rendered(&runbook);
    assert!(playbook.yaml.starts_with("---\n"));
    assert!(playbook.yaml.contains("ansible.builtin.debug:"));
    assert!(playbook.files.is_empty());
}

#[test]
fn a_file_without_recorded_content_becomes_a_todo() {
    let change = Change::Modified { before: entry("/etc/shadow", 0o000), after: entry("/etc/shadow", 0o000) };
    let mut runbook = step::build(&[], &[]);
    runbook.other_files.push(change);

    let playbook = rendered(&runbook);
    assert!(playbook.yaml.contains("/etc/shadow"), "{}", playbook.yaml);
    assert!(
        !playbook.yaml.contains("ansible.builtin.copy"),
        "content is unknown, so there is nothing to copy: {}",
        playbook.yaml
    );
    assert_eq!(playbook.warnings.len(), 1);
}

#[test]
fn keeps_a_multibyte_step_title() {
    let events = [
        Event { ts: 0, kind: EventKind::Step { title: "設定変更".into() } },
        Event { ts: 0, kind: EventKind::CmdStart { cmd: "install -m 0644 /dev/null /opt/app/marker".into(), cwd: "/root".into() } },
        Event { ts: 0, kind: EventKind::CmdEnd { exit_code: 0 } },
    ];
    let runbook = step::build(&events, &[]);
    let playbook = rendered_with(&runbook, &Blobs::new(), Locale::Ja);
    assert!(playbook.yaml.contains("# ステップ: 設定変更"), "{}", playbook.yaml);
    for line in playbook.yaml.lines() {
        assert!(line.chars().count() <= 160, "{line}");
    }
}

#[test]
fn copies_a_file_with_recorded_content() {
    let mut blobs = Blobs::new();
    blobs.insert("h".into(), "listen 8080\n".into());
    let after = Entry {
        path: "/etc/nginx/nginx.conf".into(),
        content: Content::File { size: 12, hash: "h".into(), blob: true, masked: false },
        mode: 0o600,
        uid: 0,
        gid: 0,
    };
    let events = [
        Event { ts: 0, kind: EventKind::Step { title: "Configure nginx".into() } },
        Event { ts: 0, kind: EventKind::CmdStart { cmd: "vi /etc/nginx/nginx.conf".into(), cwd: "/root".into() } },
        Event { ts: 0, kind: EventKind::CmdEnd { exit_code: 0 } },
    ];
    let changes = vec![
        Change::Modified { before: entry("/etc/nginx/nginx.conf", 0o644), after },
        Change::Removed(entry("/etc/legacy.conf", 0o644)),
    ];
    let runbook = step::build(&events, &changes);
    let playbook = rendered_with(&runbook, &blobs, Locale::En);
    assert!(playbook.yaml.contains("- name: \"Exarare: web01 nginx setup\""), "{}", playbook.yaml);
    assert!(playbook.yaml.contains("# Step: Configure nginx"), "{}", playbook.yaml);
    assert!(playbook.yaml.contains("ansible.builtin.copy:"), "{}", playbook.yaml);
    assert!(playbook.yaml.contains("        src: files/etc/nginx/nginx.conf\n"), "{}", playbook.yaml);
    assert!(playbook.yaml.contains("        mode: \"0600\"\n"), "{}", playbook.yaml);
    assert!(playbook.yaml.contains("state: absent"), "{}", playbook.yaml);
    assert_eq!(playbook.files, vec![("etc/nginx/nginx.conf".to_string(), "listen 8080\n".to_string())]);
    // `vi` is inspection, not an instruction, so nothing is replayed.
    assert!(!playbook.yaml.contains("ansible.builtin.command"), "{}", playbook.yaml);
    assert!(playbook.warnings.is_empty(), "{:?}", playbook.warnings);
}

#[test]
fn turns_session_wide_state_into_tasks() {
    let mut runbook = step::build(&[], &[]);
    let diff = exarare::state::Diff {
        firewall_known: true,
        firewall_services_added: vec!["http".into()],
        firewall_ports_removed: vec!["8080/tcp".into()],
        users_added: vec![exarare::state::User {
            name: "deploy".into(),
            uid: 1001,
            gid: 1001,
            home: "/home/deploy".into(),
            shell: "/bin/bash".into(),
        }],
        ..Default::default()
    };
    step::attribute_state(&mut runbook, diff);
    let playbook = rendered(&runbook);
    assert!(playbook.yaml.contains("- name: Open firewall service http"), "{}", playbook.yaml);
    assert!(playbook.yaml.contains("        port: 8080/tcp\n"), "{}", playbook.yaml);
    assert!(playbook.yaml.contains("        state: disabled\n"), "{}", playbook.yaml);
    assert!(playbook.yaml.contains("- name: Create user deploy"), "{}", playbook.yaml);
    assert!(playbook.yaml.contains("        uid: 1001\n"), "{}", playbook.yaml);
    assert!(!playbook.yaml.contains("ansible.builtin.debug"), "{}", playbook.yaml);
}

#[test]
fn the_copied_files_are_the_same_in_either_language() {
    let mut blobs = Blobs::new();
    blobs.insert("h".into(), "listen 8080\n".into());
    let after = Entry {
        path: "/etc/nginx/nginx.conf".into(),
        content: Content::File { size: 12, hash: "h".into(), blob: true, masked: false },
        mode: 0o644,
        uid: 0,
        gid: 0,
    };
    let events = [
        Event { ts: 0, kind: EventKind::Step { title: "Configure nginx".into() } },
        Event { ts: 0, kind: EventKind::CmdStart { cmd: "vi /etc/nginx/nginx.conf".into(), cwd: "/root".into() } },
        Event { ts: 0, kind: EventKind::CmdEnd { exit_code: 0 } },
    ];
    let changes = vec![Change::Added(after), Change::Added(entry("/etc/motd", 0o644))];
    let runbook = step::build(&events, &changes);
    let en = rendered_with(&runbook, &blobs, Locale::En);
    let ja = rendered_with(&runbook, &blobs, Locale::Ja);
    assert_eq!(en.files, ja.files);
    assert_eq!(en.files, vec![("etc/nginx/nginx.conf".to_string(), "listen 8080\n".to_string())]);
    assert_ne!(en.yaml, ja.yaml);
}
