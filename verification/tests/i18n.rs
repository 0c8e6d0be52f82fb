use exarare::i18n::Locale;

#[test]
fn parses_language_tags() {
    for value in ["en", "EN", "en-US", "en_US.UTF-8"] {
        assert_eq!(Locale::parse(value).unwrap(), Locale::En, "{value}");
    }
    for value in ["ja", "ja-JP", "ja_JP.UTF-8", "ja_JP.eucjp@custom"] {
        assert_eq!(Locale::parse(value).unwrap(), Locale::Ja, "{value}");
    }
    assert!(Locale::parse("de").is_err());
    assert!(Locale::parse("C").is_err());
}

#[test]
fn defaults_to_english() {
    assert_eq!(Locale::default(), Locale::En);
    assert_eq!(Locale::resolve(Some("ja"), None).unwrap(), Locale::Ja);
}

#[test]
fn the_flag_wins_over_the_environment() {
    assert_eq!(Locale::resolve(Some("en"), Some("ja")).unwrap(), Locale::En);
    assert_eq!(Locale::resolve(None, Some("ja_JP.UTF-8")).unwrap(), Locale::Ja);
    assert_eq!(Locale::resolve(None, None).unwrap(), Locale::En);
    let error = Locale::resolve(Some("de"), None).unwrap_err();
    assert_eq!(error.message(), "unsupported language de: exarare knows en and ja");
}

#[test]
fn every_message_differs_by_locale() {
    let en = Locale::En.messages();
    let ja = Locale::Ja.messages();
    let pairs: Vec<(&str, &str)> = vec![
        (en.runbook_title(), ja.runbook_title()),
        (en.purpose(), ja.purpose()),
        (en.overview(), ja.overview()),
        (en.prerequisites(), ja.prerequisites()),
        (en.procedure(), ja.procedure()),
        (en.what_changed(), ja.what_changed()),
        (en.verification(), ja.verification()),
        (en.rollback(), ja.rollback()),
        (en.rollback_disclaimer(), ja.rollback_disclaimer()),
        (en.appendix_log(), ja.appendix_log()),
        (en.appendix_generated(), ja.appendix_generated()),
        (en.todo(), ja.todo()),
    ];
    for (english, japanese) in pairs {
        assert_ne!(english, japanese, "untranslated: {english}");
    }
}

#[test]
fn counts_read_naturally() {
    let en = Locale::En.messages();
    let ja = Locale::Ja.messages();
    assert_eq!(en.count_commands(1), "1 command");
    assert_eq!(en.count_commands(3), "3 commands");
    assert_eq!(en.count_files(0), "0 changed files");
    assert_eq!(ja.count_packages(2), "パッケージ 2 件");
    assert_eq!(en.packages_dependencies(1), "1 more were installed as dependencies");
    assert_eq!(en.change_kind("added"), "added");
    assert_eq!(ja.change_kind("removed"), "削除");
    assert_eq!(en.change_kind("anything else"), "permissions");
    assert_eq!(en.diff_truncated(50, 120), "Diff truncated: 50 of 120 lines. The full diff is in the appendix.");
}
