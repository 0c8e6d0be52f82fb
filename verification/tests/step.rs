use exarare::diff::Change;
use exarare::event::{count_commands, Event, EventKind};
use exarare::packages::{Diff, Package};
use exarare::snapshot::{Content, Entry};
use exarare::step::{attribute_packages, attribute_state, build, head, is_noise, is_verification, mentions, names_item, Item, Step};

fn event(kind: EventKind) -> Event {
    Event { ts: 0, kind }
}

fn cmd(cmd: &str) -> Event {
    event(EventKind::CmdStart { cmd: cmd.into(), cwd: "/root".into() })
}

fn done(exit_code: i32) -> Event {
    event(EventKind::CmdEnd { exit_code })
}

fn step(title: &str) -> Event {
    event(EventKind::Step { title: title.into() })
}

fn note(text: &str) -> Event {
    event(EventKind::Note { text: text.into() })
}

fn entry(path: &str) -> Entry {
    Entry {
        path: path.to_string(),
        content: Content::File { size: 1, hash: "h".into(), blob: false, masked: false },
        mode: 0o644,
        uid: 0,
        gid: 0,
    }
}

fn command_lines(step: &Step) -> Vec<String> {
    step.commands().iter().map(|run| run.cmd.clone()).collect()
}

#[test]
fn splits_on_steps_and_drops_failures_and_noise() {
    let events = vec![
        event(EventKind::SessionStart),
        step("Install nginx"),
        cmd("dnf install -y nginx"),
        done(0),
        cmd("ls /etc/nginx"),
        done(0),
        cmd("systemctl start nginx-typo"),
        done(1),
        cmd("systemctl start nginx"),
        done(0),
        step("Open the firewall"),
        cmd("firewall-cmd --add-service=http --permanent"),
        done(0),
        cmd("exit"),
    ];

    let runbook = build(&events, &[]);
    assert!(!runbook.without_steps);
    let steps: Vec<(String, Vec<String>)> = runbook
        .steps
        .iter()
        .map(|s| (s.title.clone().unwrap_or_default(), command_lines(s)))
        .collect();
    assert_eq!(
        steps,
        vec![
            (
                "Install nginx".to_string(),
                vec!["dnf install -y nginx".to_string(), "systemctl start nginx".to_string()]
            ),
            (
                "Open the firewall".to_string(),
                vec!["firewall-cmd --add-service=http --permanent".to_string()]
            ),
        ]
    );
    assert_eq!(runbook.log.len(), 6);
    assert!(runbook.log.iter().any(|r| r.exit_code == Some(1)));
}

#[test]
fn a_note_stays_between_the_commands_it_was_written_about() {
    let events = vec![
        step("Install nginx"),
        cmd("dnf install -y nginx"),
        done(0),
        note("needs EPEL enabled"),
        cmd("systemctl enable --now nginx"),
        done(0),
    ];

    let runbook = build(&events, &[]);
    let items = &runbook.steps[0].items;
    assert_eq!(items.len(), 3);
    assert!(matches!(&items[0], Item::Command(run) if run.cmd == "dnf install -y nginx"));
    assert_eq!(items[1], Item::Note("needs EPEL enabled".into()));
    assert!(matches!(&items[2], Item::Command(run) if run.cmd.starts_with("systemctl enable")));
    assert_eq!(runbook.steps.len(), 1);
}

#[test]
fn a_session_without_steps_is_one_step() {
    let events = vec![cmd("dnf install -y zsh"), done(0)];
    let runbook = build(&events, &[]);
    assert!(runbook.without_steps);
    assert_eq!(runbook.steps.len(), 1);
    assert_eq!(runbook.steps[0].title, None);
}

#[test]
fn attributes_files_to_the_step_that_names_them() {
    let events = vec![
        step("Configure nginx"),
        cmd("vi /etc/nginx/nginx.conf"),
        done(0),
        step("Tune the kernel"),
        cmd("sysctl -p"),
        done(0),
    ];
    let changes = vec![
        Change::Modified { before: entry("/etc/nginx/nginx.conf"), after: entry("/etc/nginx/nginx.conf") },
        Change::Added(entry("/etc/sysctl.d/99-tuning.conf")),
    ];

    let runbook = build(&events, &changes);
    assert_eq!(runbook.steps[0].files.len(), 1);
    assert_eq!(runbook.steps[0].files[0].path(), "/etc/nginx/nginx.conf");
    assert_eq!(runbook.steps[1].files.len(), 0);
    assert_eq!(runbook.other_files.len(), 1);
}

#[test]
fn attributes_files_across_a_symlinked_prefix() {
    let events = vec![
        step("Write the config"),
        cmd("printf 'listen 443\\n' > /var/folders/x/T/tmp1/etc/app.conf"),
        done(0),
    ];
    let changes = vec![Change::Added(entry("/private/var/folders/x/T/tmp1/etc/app.conf"))];

    let runbook = build(&events, &changes);
    assert_eq!(runbook.steps[0].files.len(), 1);
    assert!(runbook.other_files.is_empty());
}

#[test]
fn collects_verification_commands() {
    let events = vec![
        cmd("systemctl status nginx"),
        done(0),
        cmd("curl -sS localhost"),
        done(0),
        cmd("nginx -t"),
        done(1),
        cmd("dnf install -y nginx"),
        done(0),
    ];
    let runbook = build(&events, &[]);
    let found: Vec<&str> = runbook.verifications.iter().map(|r| r.cmd.as_str()).collect();
    assert_eq!(found, vec!["systemctl status nginx", "curl -sS localhost"]);
}

#[test]
fn looks_past_sudo_and_environment_assignments() {
    assert_eq!(head("sudo dnf install -y nginx"), "dnf");
    assert_eq!(head("LANG=C sudo rpm -qa"), "rpm");
    assert!(is_noise("sudo cat /etc/hosts"));
    assert!(!is_noise("sudo dnf install -y nginx"));
}

#[test]
fn a_command_that_never_ended_has_no_exit_code() {
    let events = vec![done(0), cmd("sleep 100"), note("interrupted")];
    let runbook = build(&events, &[]);
    assert_eq!(runbook.log.len(), 1);
    assert_eq!(runbook.log[0].exit_code, None);
    assert_eq!(count_commands(&events), 1);
    // It did not succeed, so it is not an instruction; the note remains.
    assert_eq!(runbook.steps[0].items, vec![Item::Note("interrupted".into())]);
}

#[test]
fn recognises_checks_and_inspection() {
    assert!(is_verification("  systemctl is-active nginx "));
    assert!(is_verification("nginx -V"));
    assert!(is_verification("bash --version"));
    assert!(!is_verification("dnf install -y nginx"));
    assert_eq!(head("   "), "");
    assert_eq!(head("command -v ls"), "-v");
    assert!(is_noise("exarare note hello"));
}

#[test]
fn names_paths_and_items() {
    assert!(mentions("vi nginx.conf", "/etc/nginx/nginx.conf"));
    assert!(mentions("cat /etc/hosts", "/etc/hosts"));
    assert!(!mentions("vi a.c", "/etc/a.c"), "a short file name is not matched alone");
    assert!(mentions("echo x > '/tmp/app.yaml'", "/srv/tmp/app.yaml"));
    assert!(names_item("dnf install -y nginx", "nginx"));
    assert!(!names_item("dnf install -y nginx-core", "nginx"));
    assert!(names_item("systemctl enable --now nginx", "nginx.service"));
    assert!(names_item("useradd \"deploy\"", "deploy"));
}

#[test]
fn packages_go_to_the_step_that_installed_them() {
    let events = vec![step("Install nginx"), cmd("dnf install -y nginx"), done(0), step("Other"), cmd("true"), done(0)];
    let mut runbook = build(&events, &[]);
    let package = |name: &str| Package { name: name.into(), version: "1".into(), arch: "x86_64".into() };
    let diff = Diff {
        available: true,
        installed: vec![package("nginx"), package("nginx-core"), package("vim")],
        explicit: vec!["nginx".to_string(), "vim".to_string()],
        explicit_known: true,
        ..Default::default()
    };
    attribute_packages(&mut runbook, diff);
    assert_eq!(runbook.steps[0].packages.iter().map(|p| p.name.as_str()).collect::<Vec<_>>(), vec!["nginx"]);
    assert!(runbook.steps[1].packages.is_empty());
    assert_eq!(runbook.other_packages.iter().map(|p| p.name.as_str()).collect::<Vec<_>>(), vec!["vim"]);
    assert!(runbook.packages.available);
}

#[test]
fn units_and_accounts_go_to_the_step_that_named_them() {
    let events = vec![step("Start nginx"), cmd("systemctl enable --now nginx"), done(0)];
    let mut runbook = build(&events, &[]);
    let diff = exarare::state::Diff {
        systemd_known: true,
        units_enabled: vec!["nginx.service".to_string()],
        services_started: vec!["nginx.service".to_string()],
        ..Default::default()
    };
    attribute_state(&mut runbook, diff);
    assert_eq!(runbook.steps[0].state, vec!["nginx.service".to_string()], "a name is attributed once");
    assert!(runbook.state.systemd_known);
}

#[test]
fn takes_the_file_name_as_a_path_gives_it() {
    assert!(mentions("vi nginx.conf", "/etc/nginx/nginx.conf/"));
    assert!(mentions("vi nginx.conf", "/etc/nginx/nginx.conf/."));
    assert!(mentions("vi nginx.conf", "/etc//nginx//nginx.conf"));
    assert!(!mentions("cd ..; ls", "/etc/nginx/.."), "a path that ends in .. has no file name");
    assert!(!mentions("vi nginx", "/"));
}
