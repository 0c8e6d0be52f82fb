use exarare::state::{compare, parse_firewall_list, parse_group, parse_passwd, parse_unit_names, Group, Snapshot, User};

#[test]
fn parses_unit_listings() {
    let text = "nginx.service                enabled enabled\n\
                sshd.service                 enabled enabled\n\
                \n";
    assert_eq!(parse_unit_names(text), vec!["nginx.service", "sshd.service"]);

    let text = "● nginx.service loaded failed failed nginx\n\
                  sshd.service  loaded active running OpenSSH\n";
    assert_eq!(parse_unit_names(text), vec!["nginx.service", "sshd.service"]);
}

#[test]
fn parses_firewall_lists() {
    assert_eq!(parse_firewall_list("dhcpv6-client http ssh\n"), vec!["dhcpv6-client", "http", "ssh"]);
    assert_eq!(parse_firewall_list("\n"), Vec::<String>::new());
}

#[test]
fn parses_passwd_and_group() {
    let passwd = "root:x:0:0:root:/root:/bin/bash\n\
                  # a comment\n\
                  deploy:x:1001:1001::/home/deploy:/bin/bash\n\
                  broken-line\n";
    let users = parse_passwd(passwd);
    assert_eq!(users.len(), 2);
    assert_eq!(users[0].name, "deploy");
    assert_eq!(users[0].uid, 1001);
    assert_eq!(users[1].name, "root");

    let group = "wheel:x:10:deploy,ops\nempty:x:20:\n";
    let groups = parse_group(group);
    assert_eq!(groups[0].name, "empty");
    assert!(groups[0].members.is_empty());
    assert_eq!(groups[1].members, vec!["deploy", "ops"]);
}

fn snapshot() -> Snapshot {
    Snapshot {
        systemd: true,
        firewalld: true,
        ..Default::default()
    }
}

#[test]
fn notices_units_services_and_firewall_rules() {
    let mut before = snapshot();
    before.enabled_units = vec!["sshd.service".into()];
    before.running_services = vec!["sshd.service".into()];
    before.firewall_services = vec!["ssh".into()];
    let mut after = snapshot();
    after.enabled_units = vec!["nginx.service".into(), "sshd.service".into()];
    after.running_services = vec!["nginx.service".into()];
    after.firewall_services = vec!["http".into(), "ssh".into()];
    after.firewall_ports = vec!["8080/tcp".into()];

    let diff = compare(&before, &after);
    assert_eq!(diff.units_enabled, vec!["nginx.service"]);
    assert!(diff.units_disabled.is_empty());
    assert_eq!(diff.services_started, vec!["nginx.service"]);
    assert_eq!(diff.services_stopped, vec!["sshd.service"]);
    assert_eq!(diff.firewall_services_added, vec!["http"]);
    assert_eq!(diff.firewall_ports_added, vec!["8080/tcp"]);
}

#[test]
fn notices_users_and_groups() {
    let user = |name: &str, uid: u32, shell: &str| User {
        name: name.into(),
        uid,
        gid: uid,
        home: format!("/home/{name}"),
        shell: shell.into(),
    };
    let mut before = snapshot();
    before.users = vec![user("root", 0, "/bin/bash"), user("old", 1001, "/bin/bash")];
    before.groups = vec![Group { name: "wheel".into(), gid: 10, members: vec![] }];
    let mut after = snapshot();
    after.users = vec![user("deploy", 1002, "/bin/bash"), user("root", 0, "/bin/sh")];
    after.groups = vec![
        Group { name: "deploy".into(), gid: 1002, members: vec!["deploy".into()] },
        Group { name: "wheel".into(), gid: 10, members: vec![] },
    ];

    let diff = compare(&before, &after);
    assert_eq!(diff.users_added.iter().map(|u| &u.name).collect::<Vec<_>>(), vec!["deploy"]);
    assert_eq!(diff.users_removed.iter().map(|u| &u.name).collect::<Vec<_>>(), vec!["old"]);
    assert_eq!(diff.users_changed.len(), 1, "root's shell changed");
    assert_eq!(diff.users_changed[0].1.shell, "/bin/sh");
    assert_eq!(diff.groups_added.iter().map(|g| &g.name).collect::<Vec<_>>(), vec!["deploy"]);
}

#[test]
fn unavailable_subsystems_report_nothing() {
    let before = Snapshot {
        enabled_units: vec!["sshd.service".into()],
        firewall_services: vec!["ssh".into()],
        ..Default::default()
    };
    let after = Snapshot::default();

    let diff = compare(&before, &after);
    assert!(!diff.systemd_known);
    assert!(!diff.firewall_known);
    assert!(diff.is_empty(), "{diff:?}");
}

#[test]
fn collects_names_for_attribution() {
    let mut before = snapshot();
    before.enabled_units = vec![];
    let mut after = snapshot();
    after.enabled_units = vec!["nginx.service".into()];
    after.running_services = vec!["nginx.service".into()];
    after.users = vec![User {
        name: "deploy".into(),
        uid: 1001,
        gid: 1001,
        home: "/home/deploy".into(),
        shell: "/bin/bash".into(),
    }];

    let diff = compare(&before, &after);
    assert!(diff.names().contains(&"nginx.service".to_string()));
    assert!(diff.names().contains(&"deploy".to_string()));
}

#[test]
fn comparing_a_state_with_itself_changes_nothing() {
    let mut s = snapshot();
    s.enabled_units = vec!["nginx.service".into(), "sshd.service".into()];
    s.running_services = vec!["nginx.service".into()];
    s.firewall_services = vec!["http".into(), "ssh".into()];
    s.firewall_ports = vec!["8080/tcp".into()];
    s.users = parse_passwd("root:x:0:0:root:/root:/bin/bash\ndeploy:x:1001:1001::/home/deploy:/bin/bash\n");
    s.groups = parse_group("wheel:x:10:deploy\n");
    let diff = compare(&s, &s);
    assert!(diff.is_empty());
    assert!(diff.systemd_known && diff.firewall_known);
}
