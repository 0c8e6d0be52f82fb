use exarare::diff::Change;
use exarare::event::{Event, EventKind};
use exarare::i18n::Locale;
use exarare::markdown::{render, Input};
use exarare::packages::{Diff, Package, Upgrade};
use exarare::session::Meta;
use exarare::snapshot::{Blobs, Content, Entry};
use exarare::step;
use exarare::watcher::{record, Touched};

fn meta() -> Meta {
    Meta {
        id: "20260912-101500-0001".into(),
        name: Some("web01 nginx setup".into()),
        hostname: Some("web01".into()),
        user: Some("root".into()),
        shell: "/bin/bash".into(),
        snapshot_roots: exarare::session::default_snapshot_roots(),
        watch_roots: exarare::session::default_snapshot_roots(),
        started_at: 0,
        ended_at: Some(0),
        shell_pid: Some(1234),
    }
}

fn events() -> Vec<Event> {
    let at = |kind| Event { ts: 0, kind };
    vec![
        at(EventKind::SessionStart),
        at(EventKind::Step { title: "Install nginx".into() }),
        at(EventKind::CmdStart { cmd: "dnf install -y nginx".into(), cwd: "/root".into() }),
        at(EventKind::CmdEnd { exit_code: 0 }),
        at(EventKind::Note { text: "needs EPEL enabled".into() }),
        at(EventKind::CmdStart { cmd: "systemctl enable --now nginx".into(), cwd: "/root".into() }),
        at(EventKind::CmdEnd { exit_code: 0 }),
        at(EventKind::CmdStart { cmd: "systemctl status nginx".into(), cwd: "/root".into() }),
        at(EventKind::CmdEnd { exit_code: 0 }),
        at(EventKind::SessionEnd),
    ]
}

fn render_runbook(runbook: &step::Runbook, locale: Locale) -> String {
    let meta = meta();
    let blobs = Blobs::new();
    let touched = Touched::default();
    let input = Input { meta: &meta, runbook, blobs: &blobs, version: "0.1.0", touched: &touched, mermaid: false };
    render(&input, &locale.messages())
}

fn rendered(locale: Locale) -> String {
    let runbook = step::build(&events(), &[]);
    render_runbook(&runbook, locale)
}

#[test]
fn renders_every_chapter_in_order() {
    let doc = rendered(Locale::En);
    let chapters: Vec<&str> = doc
        .lines()
        .filter(|l| l.starts_with("## "))
        .map(|l| l.trim_start_matches("## "))
        .collect();
    assert_eq!(
        chapters,
        vec![
            "1. Purpose",
            "2. Overview of the work",
            "3. Prerequisites",
            "4. Procedure",
            "5. What changed",
            "6. Verification",
            "7. Rollback",
            "Appendix A: full command log",
            "Appendix B: how this was generated",
        ]
    );
    assert!(doc.starts_with("# Build runbook: web01 nginx setup"));
    assert!(doc.contains("### 4.1. Install nginx"));
}

#[test]
fn leaves_the_human_parts_as_todo() {
    let doc = rendered(Locale::En);
    assert!(doc.contains("### What was done"));
    assert!(doc.contains("### Why it was needed"));
    assert!(doc.contains("### Definition of done"));
    assert!(doc.contains("> **TODO**"));
}

#[test]
fn a_note_is_rendered_between_the_commands() {
    let doc = rendered(Locale::En);
    let step = doc.split("### 4.1. Install nginx").nth(1).unwrap();
    let step = step.split("## 5.").next().unwrap();
    let note_at = step.find("> **Note**: needs EPEL enabled").unwrap();
    let before = step.find("dnf install -y nginx").unwrap();
    let after = step.find("systemctl enable --now nginx").unwrap();
    assert!(before < note_at && note_at < after, "the note should sit between the two commands: {step}");
    assert_eq!(step.matches("```console").count(), 2, "{step}");
}

#[test]
fn rollback_opens_with_a_disclaimer() {
    let doc = rendered(Locale::En);
    let rollback = doc.split("## 7. Rollback").nth(1).unwrap();
    let disclaimer = rollback.lines().find(|l| l.starts_with("> ")).unwrap();
    assert!(disclaimer.contains("not a verified rollback procedure"));
}

#[test]
fn separates_instructions_from_the_log() {
    let doc = rendered(Locale::En);
    let procedure = doc.split("## 4. Procedure").nth(1).unwrap();
    let procedure = procedure.split("## 5.").next().unwrap();
    assert!(procedure.contains("dnf install -y nginx"));
    assert!(!procedure.contains("systemctl status nginx"));
    assert!(doc.contains("- `systemctl status nginx`"));
    let appendix = doc.split("Appendix A").nth(1).unwrap();
    assert!(appendix.contains("systemctl status nginx"));
}

#[test]
fn renders_package_changes() {
    let package = |name: &str| Package { name: name.into(), version: "1:1.20.1-14.el9".into(), arch: "x86_64".into() };
    let diff = Diff {
        available: true,
        installed: vec![package("nginx"), package("nginx-core")],
        upgraded: vec![Upgrade {
            name: "bash".into(),
            arch: "x86_64".into(),
            from: "5.1.8-6.el9".into(),
            to: "5.1.8-9.el9".into(),
        }],
        explicit: vec!["nginx".to_string()],
        explicit_known: true,
        repositories_added: vec!["epel".into()],
        ..Default::default()
    };

    let mut runbook = step::build(&events(), &[]);
    step::attribute_packages(&mut runbook, diff);
    let doc = render_runbook(&runbook, Locale::En);

    let step_section = doc.split("### 4.1. Install nginx").nth(1).unwrap();
    let step_section = step_section.split("## 5.").next().unwrap();
    assert!(step_section.contains("#### Packages"), "{step_section}");
    assert!(step_section.contains("- `nginx` 1:1.20.1-14.el9"), "{step_section}");
    assert!(!step_section.contains("nginx-core"), "{step_section}");

    let changed = doc.split("## 5. What changed").nth(1).unwrap();
    let changed = changed.split("## 6.").next().unwrap();
    assert!(changed.contains("**Installed**"), "{changed}");
    assert!(changed.contains("| `nginx` | 1:1.20.1-14.el9 |"), "{changed}");
    assert!(changed.contains("1 more were installed as dependencies"), "{changed}");
    assert!(changed.contains("**Upgraded**"), "{changed}");
    assert!(changed.contains("`bash` 5.1.8-6.el9 → 5.1.8-9.el9"), "{changed}");
    assert!(changed.contains("Repositories enabled"), "{changed}");

    let rollback = doc.split("## 7. Rollback").nth(1).unwrap();
    assert!(rollback.contains("Packages to remove"), "{rollback}");
    assert!(rollback.contains("- `nginx`"), "{rollback}");
}

#[test]
fn distinguishes_no_packages_from_no_package_state() {
    let unknown = rendered(Locale::En);
    let changed = unknown.split("## 5. What changed").nth(1).unwrap();
    assert!(changed.contains("this host has no rpm"), "{changed}");

    let mut runbook = step::build(&events(), &[]);
    step::attribute_packages(&mut runbook, Diff { available: true, ..Default::default() });
    let known = render_runbook(&runbook, Locale::En);
    let changed = known.split("## 5. What changed").nth(1).unwrap();
    assert!(changed.contains("No package changes were recorded."), "{changed}");
}

#[test]
fn renders_in_japanese() {
    let doc = rendered(Locale::Ja);
    assert!(doc.starts_with("# 構築手順書: web01 nginx setup"));
    assert!(doc.contains("## 1. 目的"));
    assert!(doc.contains("## 7. 切り戻し"));
    assert!(doc.contains("> **要記入**"));
    assert!(doc.contains("> **補足**: needs EPEL enabled"));
    assert!(doc.contains("dnf install -y nginx"));
}

#[test]
fn writes_times_in_utc_and_exit_codes_as_recorded() {
    let at = |ts: i128, kind| Event { ts, kind };
    let events = vec![
        at(1_546_300_800_000_000_000, EventKind::CmdStart { cmd: "false | true".into(), cwd: "/tmp".into() }),
        at(1_546_300_801_000_000_000, EventKind::CmdEnd { exit_code: -1 }),
        at(1_546_300_802_000_000_000, EventKind::CmdStart { cmd: "sleep 9".into(), cwd: "/tmp".into() }),
    ];
    let runbook = step::build(&events, &[]);
    let mut meta = meta();
    meta.started_at = 1_546_300_800_000_000_000;
    meta.ended_at = None;
    let blobs = Blobs::new();
    let doc = render(&Input { meta: &meta, runbook: &runbook, blobs: &blobs, version: "0.1.0", touched: &Touched::default(), mermaid: false }, &Locale::En.messages());
    assert!(doc.contains("| Started | 2019-01-01 00:00:00 UTC |"), "{doc}");
    assert!(doc.contains("| Ended | - |"), "{doc}");
    assert!(doc.contains("| 00:00:00 | `false \\| true` | `/tmp` | -1 |"), "{doc}");
    assert!(doc.contains("| 00:00:02 | `sleep 9` | `/tmp` | (no exit recorded) |"), "{doc}");
}

#[test]
fn moves_a_long_diff_to_the_appendix() {
    let before: String = (0..60).map(|i| format!("line {i}\n")).collect();
    let after: String = (0..60).map(|i| format!("changed {i}\n")).collect();
    let mut blobs = Blobs::new();
    blobs.insert("b".into(), before);
    blobs.insert("a".into(), after);
    let entry = |hash: &str| Entry {
        path: "/etc/big.conf".into(),
        content: Content::File { size: 1, hash: hash.into(), blob: true, masked: false },
        mode: 0o644,
        uid: 0,
        gid: 0,
    };
    let changes = vec![Change::Modified { before: entry("b"), after: entry("a") }];
    let runbook = step::build(&[], &changes);
    let meta = meta();
    let doc = render(&Input { meta: &meta, runbook: &runbook, blobs: &blobs, version: "0.1.0", touched: &Touched::default(), mermaid: false }, &Locale::En.messages());
    assert!(doc.contains("Diff truncated: 50 of"), "{doc}");
    assert!(doc.contains("## Appendix B: full diffs"), "{doc}");
    assert!(doc.contains("### `/etc/big.conf`"), "{doc}");
}

#[test]
fn gives_each_appendix_its_own_letter() {
    let before: String = (0..60).map(|i| format!("line {i}\n")).collect();
    let after: String = (0..60).map(|i| format!("changed {i}\n")).collect();
    let mut blobs = Blobs::new();
    blobs.insert("b".into(), before);
    blobs.insert("a".into(), after);
    let entry = |hash: &str| Entry {
        path: "/etc/big.conf".into(),
        content: Content::File { size: 1, hash: hash.into(), blob: true, masked: false },
        mode: 0o644,
        uid: 0,
        gid: 0,
    };
    let changes = vec![Change::Modified { before: entry("b"), after: entry("a") }];
    let runbook = step::build(&[], &changes);
    let meta = meta();
    let input = Input { meta: &meta, runbook: &runbook, blobs: &blobs, version: "0.1.0", touched: &Touched::default(), mermaid: false };
    let doc = render(&input, &Locale::En.messages());
    let appendices: Vec<&str> = doc.lines().filter(|l| l.starts_with("## Appendix")).collect();
    assert_eq!(
        appendices,
        vec![
            "## Appendix A: full command log",
            "## Appendix B: full diffs of the files shortened above",
            "## Appendix C: how this was generated",
        ]
    );
    let ja = render(&input, &Locale::Ja.messages());
    assert!(ja.contains("## 付録B: 本文で省略した差分の全文"), "{ja}");
    assert!(ja.contains("## 付録C: この文書の生成条件"), "{ja}");
    assert!(!ja.contains("## 付録B: この文書の生成条件"), "{ja}");
}

fn touched_session() -> (step::Runbook, Touched) {
    let at = |ts, kind| Event { ts, kind };
    let events = vec![
        at(0, EventKind::SessionStart),
        at(10, EventKind::CmdStart { cmd: "dnf install -y nginx".into(), cwd: "/root".into() }),
        at(11, EventKind::CmdEnd { exit_code: 0 }),
        at(100, EventKind::Step { title: "Deploy the app".into() }),
        at(110, EventKind::CmdStart { cmd: "cp app.yaml /srv/app/app.yaml".into(), cwd: "/root".into() }),
        at(111, EventKind::CmdEnd { exit_code: 0 }),
        at(200, EventKind::Step { title: "Configure nginx".into() }),
        at(210, EventKind::CmdStart { cmd: "vi /etc/nginx/nginx.conf".into(), cwd: "/root".into() }),
        at(211, EventKind::CmdEnd { exit_code: 0 }),
        at(300, EventKind::SessionEnd),
    ];
    let changes = vec![Change::Added(Entry {
        path: "/etc/nginx/nginx.conf".into(),
        content: Content::File { size: 1, hash: "h".into(), blob: false, masked: false },
        mode: 0o644,
        uid: 0,
        gid: 0,
    })];
    let runbook = step::build(&events, &changes);
    let mut touched = Touched::new(vec!["/srv".to_string()]);
    record(&mut touched, "/srv/app/app.yaml".into(), 120);
    // Reported after the next step had begun, so it lands there.
    record(&mut touched, "/srv/app/cache.db".into(), 250);
    record(&mut touched, "/opt/early.txt".into(), 20);
    // Diffed as a change, so it is not listed as only touched.
    record(&mut touched, "/etc/nginx/nginx.conf".into(), 215);
    (runbook, touched)
}

fn render_touched(runbook: &step::Runbook, touched: &Touched, watch: Vec<String>) -> String {
    let mut meta = meta();
    meta.watch_roots = watch;
    let blobs = Blobs::new();
    render(
        &Input { meta: &meta, runbook, blobs: &blobs, version: "0.1.0", touched, mermaid: false },
        &Locale::En.messages(),
    )
}

#[test]
fn lists_touched_files_in_their_steps_and_after_the_changes() {
    let (runbook, touched) = touched_session();
    let doc = render_touched(&runbook, &touched, vec!["/srv".into()]);
    assert!(doc.contains("| Snapshotted directories | `/etc` |"), "{doc}");
    assert!(doc.contains("| Watched for touches | `/srv` |"), "{doc}");

    let procedure = doc.split("## 4. Procedure").nth(1).unwrap();
    let procedure = procedure.split("## 5.").next().unwrap();
    let sections: Vec<&str> = procedure.split("### 4.").skip(1).collect();
    assert_eq!(sections.len(), 3, "{procedure}");
    assert!(sections[0].contains("#### Files touched in this step\n\n- `/opt/early.txt`\n\n"), "{}", sections[0]);
    assert!(sections[1].contains("#### Files touched in this step\n\n- `/srv/app/app.yaml`\n\n"), "{}", sections[1]);
    assert!(sections[2].contains("#### Files touched in this step\n\n- `/srv/app/cache.db`\n\n"), "{}", sections[2]);
    assert!(!sections[2].contains("- `/etc/nginx/nginx.conf`"), "{}", sections[2]);

    let changed = doc.split("## 5. What changed").nth(1).unwrap();
    let changed = changed.split("## 6.").next().unwrap();
    let (files, only_touched) = changed.split_once("### Files touched\n\n").unwrap();
    assert!(files.contains("/etc/nginx/nginx.conf"), "{files}");
    assert!(!files.contains("app.yaml"), "{files}");
    assert!(only_touched.starts_with("These paths were written to during the work"), "{only_touched}");
    assert!(
        only_touched.contains("- `/opt/early.txt`\n- `/srv/app/app.yaml`\n- `/srv/app/cache.db`\n\n"),
        "{only_touched}"
    );
    assert!(!only_touched.contains("nginx.conf"), "{only_touched}");
}

#[test]
fn without_a_watcher_no_touched_section_appears() {
    let (runbook, _) = touched_session();
    let doc = render_touched(&runbook, &Touched::default(), Vec::new());
    assert!(!doc.contains("### Files touched"), "{doc}");
    assert!(!doc.contains("Files touched in this step"), "{doc}");
    assert!(!doc.contains("Watched for touches"), "{doc}");
    assert!(doc.contains("| Snapshotted directories | `/etc` |"), "{doc}");
}

#[test]
fn admits_the_gaps_of_the_watcher() {
    let (runbook, _) = touched_session();
    let mut touched = Touched::new(vec!["/srv".to_string()]);
    touched.truncated = true;
    touched.incomplete_roots = vec!["/srv: too many watches".to_string()];
    let doc = render_touched(&runbook, &touched, vec!["/srv".into()]);
    assert!(doc.contains(
        "### Files touched\n\n\
         These paths were written to during the work, and their content was not recorded: they are either outside the snapshotted directories, or they ended up unchanged.\n\n\
         More than 10000 paths were touched, so this list is incomplete.\n\n\
         Some directories could not be watched, so touches under them were missed:\n\n\
         - /srv: too many watches\n\n"
    ), "{doc}");
}

#[test]
fn draws_the_overview_as_a_flowchart() {
    let at = |kind| Event { ts: 0, kind };
    let events = vec![
        at(EventKind::Step { title: "Install \"nginx\"".into() }),
        at(EventKind::CmdStart { cmd: "dnf install -y nginx".into(), cwd: "/root".into() }),
        at(EventKind::CmdEnd { exit_code: 0 }),
        at(EventKind::Step { title: "Start it".into() }),
        at(EventKind::CmdStart { cmd: "systemctl enable --now nginx".into(), cwd: "/root".into() }),
        at(EventKind::CmdEnd { exit_code: 0 }),
    ];
    let runbook = step::build(&events, &[]);
    let meta = meta();
    let blobs = Blobs::new();
    let touched = Touched::default();
    let doc = render(
        &Input { meta: &meta, runbook: &runbook, blobs: &blobs, version: "0.1.0", touched: &touched, mermaid: true },
        &Locale::En.messages(),
    );
    assert!(doc.contains(
        "```mermaid\nflowchart TD\n\
         \x20   s1[\"1. Install #quot;nginx#quot; — 1 command, 0 packages, 0 changed files\"]\n\
         \x20   s2[\"2. Start it — 1 command, 0 packages, 0 changed files\"]\n\
         \x20   s1 --> s2\n\
         ```\n\n"
    ), "{doc}");
    assert!(!doc.contains("1. **Install"), "{doc}");
}

fn with_state(diff: exarare::state::Diff) -> String {
    let at = |kind| Event { ts: 0, kind };
    let events = vec![
        at(EventKind::Step { title: "Start nginx".into() }),
        at(EventKind::CmdStart { cmd: "systemctl enable --now nginx".into(), cwd: "/root".into() }),
        at(EventKind::CmdEnd { exit_code: 0 }),
        at(EventKind::CmdStart { cmd: "useradd deploy".into(), cwd: "/root".into() }),
        at(EventKind::CmdEnd { exit_code: 0 }),
    ];
    let mut runbook = step::build(&events, &[]);
    step::attribute_state(&mut runbook, diff);
    render_runbook(&runbook, Locale::En)
}

fn chapter<'a>(doc: &'a str, start: &str, end: &str) -> &'a str {
    doc.split(start).nth(1).unwrap().split(end).next().unwrap()
}

#[test]
fn says_when_the_services_were_not_recorded() {
    let doc = rendered(Locale::En);
    let changed = chapter(&doc, "## 5. What changed", "## 6.");
    assert!(changed.contains(
        "### Services and firewall\n\n\
         Service state was not recorded: systemd did not answer, as happens inside a container.\n\n\
         Firewall rules were not recorded: firewalld did not answer.\n\n"
    ), "{changed}");
}

#[test]
fn reports_services_and_accounts() {
    let user = exarare::state::User {
        name: "deploy".into(),
        uid: 1001,
        gid: 1001,
        home: "/home/deploy".into(),
        shell: "/bin/bash".into(),
    };
    let doc = with_state(exarare::state::Diff {
        systemd_known: true,
        firewall_known: true,
        units_enabled: vec!["nginx.service".into()],
        services_started: vec!["nginx.service".into()],
        firewall_services_added: vec!["http".into()],
        users_added: vec![user],
        ..Default::default()
    });
    let changed = chapter(&doc, "## 5. What changed", "## 6.");
    assert!(changed.contains(
        "### Services and firewall\n\n\
         **Enabled at boot**\n\n- `nginx.service`\n\n\
         **Running afterwards**\n\n- `nginx.service`\n\n\
         **Firewall services opened**\n\n- `http`\n\n\
         ### Users and groups\n\n\
         **Users added**\n\n- `deploy`\n\n"
    ), "{changed}");

    let procedure = chapter(&doc, "## 4. Procedure", "## 5.");
    assert!(procedure.contains(
        "#### Services and accounts changed in this step\n\n- `nginx.service`\n- `deploy`\n\n"
    ), "{procedure}");

    let rollback = chapter(&doc, "## 7. Rollback", "## Appendix");
    assert!(rollback.contains(
        "### Services to disable and accounts to remove\n\n- `nginx.service`\n- `deploy`\n\n"
    ), "{rollback}");
}

#[test]
fn says_when_nothing_changed_in_the_services() {
    let doc = with_state(exarare::state::Diff {
        systemd_known: true,
        firewall_known: true,
        ..Default::default()
    });
    let changed = chapter(&doc, "## 5. What changed", "## 6.");
    assert!(changed.contains(
        "### Services and firewall\n\nNo service, firewall, user or group changes were recorded.\n\n"
    ), "{changed}");
    assert!(!changed.contains("### Users and groups"), "{changed}");
}
