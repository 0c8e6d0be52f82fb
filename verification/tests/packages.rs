use exarare::packages::{
    capture, compare, parse_modules, parse_names, parse_repolist, parse_rpm_qa, render, DnfAnswers,
    Package, PackageProbes, Snapshot, Upgrade,
};

fn package(name: &str, version: &str) -> Package {
    Package {
        name: name.into(),
        version: version.into(),
        arch: "x86_64".into(),
    }
}

fn snapshot(packages: &[Package], user_installed: &[&str]) -> Snapshot {
    Snapshot {
        available: true,
        packages: packages.to_vec(),
        user_installed: user_installed.iter().map(|s| s.to_string()).collect(),
        ..Default::default()
    }
}

#[test]
fn parses_rpm_output() {
    let text = "nginx\t1:1.20.1-14.el9_2.1\tx86_64\n\
                nginx-filesystem\t1:1.20.1-14.el9_2.1\tnoarch\n\
                \n";
    let packages = parse_rpm_qa(text);
    assert_eq!(packages.len(), 2);
    assert_eq!(packages[0].name, "nginx");
    assert_eq!(packages[0].version, "1:1.20.1-14.el9_2.1");
    assert_eq!(packages[1].arch, "noarch");
}

#[test]
fn parses_names_and_ignores_noise() {
    let text = "Last metadata expiration check: 0:00:01 ago\nnginx\nzsh\nzsh\n\n";
    assert_eq!(parse_names(text), vec!["nginx", "zsh"]);
}

#[test]
fn parses_repolist_without_its_header() {
    let text = "repo id                 repo name\n\
                appstream               AlmaLinux 9 - AppStream\n\
                baseos                  AlmaLinux 9 - BaseOS\n";
    assert_eq!(parse_repolist(text), vec!["appstream", "baseos"]);
}

#[test]
fn classifies_package_changes() {
    let before = snapshot(
        &[package("bash", "5.1.8-6.el9"), package("sed", "4.8-9.el9")],
        &["bash"],
    );
    let after = snapshot(
        &[
            package("bash", "5.1.8-9.el9"),
            package("nginx", "1:1.20.1-14.el9"),
            package("nginx-core", "1:1.20.1-14.el9"),
        ],
        &["bash", "nginx"],
    );

    let diff = compare(&before, &after);
    assert_eq!(
        diff.installed.iter().map(|p| &p.name).collect::<Vec<_>>(),
        vec!["nginx", "nginx-core"]
    );
    assert_eq!(
        diff.removed.iter().map(|p| &p.name).collect::<Vec<_>>(),
        vec!["sed"]
    );
    assert_eq!(
        diff.upgraded,
        vec![Upgrade {
            name: "bash".into(),
            arch: "x86_64".into(),
            from: "5.1.8-6.el9".into(),
            to: "5.1.8-9.el9".into(),
        }]
    );
    assert!(diff.explicit_known);
    assert_eq!(
        diff.explicit_installs().iter().map(|p| &p.name).collect::<Vec<_>>(),
        vec!["nginx"]
    );
    assert_eq!(
        diff.dependency_installs().iter().map(|p| &p.name).collect::<Vec<_>>(),
        vec!["nginx-core"]
    );
}

#[test]
fn without_an_answer_from_dnf_every_install_is_explicit() {
    let before = snapshot(&[], &[]);
    let after = snapshot(&[package("nginx", "1:1.20.1-14.el9")], &[]);
    let diff = compare(&before, &after);
    assert!(!diff.explicit_known);
    assert_eq!(diff.explicit_installs().len(), 1);
    assert!(diff.dependency_installs().is_empty());
}

#[test]
fn an_unavailable_snapshot_reports_nothing_rather_than_removals() {
    let before = snapshot(&[package("bash", "5.1.8-6.el9")], &["bash"]);
    let after = Snapshot::default();
    let diff = compare(&before, &after);
    assert!(diff.is_empty(), "a host without rpm must not look like a wipe");
}

#[test]
fn carries_errors_from_both_snapshots() {
    let mut before = snapshot(&[], &[]);
    before.errors.push("rpm failed".into());
    let mut after = snapshot(&[], &[]);
    after.errors.push("dnf failed".into());
    let diff = compare(&before, &after);
    assert_eq!(diff.errors, vec!["rpm failed", "dnf failed"]);
}

#[test]
fn notices_new_repositories_and_modules() {
    let mut before = snapshot(&[], &[]);
    before.repositories = vec!["baseos".into()];
    let mut after = snapshot(&[], &[]);
    after.repositories = vec!["baseos".into(), "epel".into()];
    after.modules = vec!["nodejs 20 [e]".into()];
    let diff = compare(&before, &after);
    assert_eq!(diff.repositories_added, vec!["epel"]);
    assert!(diff.repositories_removed.is_empty());
    assert_eq!(diff.modules_added, vec!["nodejs 20 [e]"]);
}

#[test]
fn the_same_packages_compare_as_no_change() {
    let s = snapshot(&[package("bash", "5.1.8-6.el9"), package("sed", "4.8-9.el9")], &["bash"]);
    let diff = compare(&s, &s);
    assert!(diff.is_empty());
}

#[test]
fn a_host_without_rpm_is_unavailable() {
    let s = capture(PackageProbes { rpm_qa: None, dnf: None });
    assert!(!s.available);
    assert!(s.packages.is_empty());
}

#[test]
fn capture_reads_every_probe() {
    let s = capture(PackageProbes {
        rpm_qa: Some(Ok("zsh\t5.8-9.el9\tx86_64\nbash\t5.1.8-6.el9\tx86_64\n".to_string())),
        dnf: Some(DnfAnswers {
            user_installed: Ok("bash\n".to_string()),
            repolist: Ok("repo id  repo name\nbaseos  BaseOS\n".to_string()),
            modules: Err("dnf module failed".to_string()),
        }),
    });
    assert!(s.available);
    assert_eq!(s.packages.iter().map(|p| p.name.as_str()).collect::<Vec<_>>(), vec!["bash", "zsh"]);
    assert_eq!(s.user_installed, vec!["bash"]);
    assert_eq!(s.repositories, vec!["baseos"]);
    assert!(s.modules.is_empty());
    assert!(s.errors.is_empty(), "a module listing is optional: {:?}", s.errors);
}

#[test]
fn parses_module_streams() {
    let text = "Name    Stream  Profiles\nnodejs  20 [e]  common\n\nHint: [d]efault, [e]nabled\n";
    let modules = parse_modules(text);
    assert!(modules.iter().all(|m| !m.starts_with("Hint")), "{modules:?}");
}

#[test]
fn renders_a_package_report() {
    let before = snapshot(&[package("bash", "5.1.8-6.el9")], &["bash"]);
    let after = snapshot(&[package("bash", "5.1.8-9.el9"), package("nginx", "1")], &["bash", "nginx"]);
    let report = render(&compare(&before, &after));
    assert!(report.contains("nginx"), "{report}");
    assert!(report.contains("5.1.8-6.el9"), "{report}");
}
