//! Fixed text of the generated documents, per locale.
//!
//! Recorded data — commands, paths, diffs — is never translated. Only the
//! headings, labels and prompts around it come from here.

use vstd::prelude::*;

use crate::text::{chars_of, decimal, lower, lower_chars, push_decimal, push_str};

verus! {

/// Locale of the generated document. English is the default, so that a
/// runbook reads the same regardless of the machine it was generated on.
#[derive(Clone, Copy, PartialEq, Eq, Debug, Default, Structural)]
pub enum Locale {
    #[default]
    En,
    Ja,
}

/// The environment variable that selects the language when `--lang` is not
/// given.
pub const ENV_LANG: &'static str = "EXARARE_LANG";

/// A language tag that names neither English nor Japanese.
#[derive(Clone, Debug, PartialEq, Eq)]
pub struct UnsupportedLanguage {
    pub value: String,
}

impl UnsupportedLanguage {
    /// `unsupported language {value}: exarare knows en and ja`.
    pub fn message(&self) -> (r: String)
        ensures
            r@ == "unsupported language "@ + self.value@ + ": exarare knows en and ja"@,
    {
        let mut out = String::new();
        push_str(&mut out, "unsupported language ");
        push_str(&mut out, self.value.as_str());
        push_str(&mut out, ": exarare knows en and ja");
        out
    }
}

/// A character that ends the language part of a tag: the encoding (`.`), the
/// modifier (`@`) or the region (`-` or `_`) follows it.
pub open spec fn ends_language(c: char) -> bool {
    c == '.' || c == '@' || c == '-' || c == '_'
}

/// The characters of `s` before the first one that ends the language.
pub open spec fn language_part(s: Seq<char>) -> Seq<char>
    decreases s.len(),
{
    if s.len() == 0 || ends_language(s[0]) {
        Seq::empty()
    } else {
        seq![s[0]] + language_part(s.drop_first())
    }
}

/// The language a tag such as `en`, `ja-JP` or `en_US.UTF-8` names, in lower
/// case.
pub open spec fn language_of(value: Seq<char>) -> Seq<char> {
    lower(language_part(value))
}

pub open spec fn spec_parse(value: Seq<char>) -> Option<Locale> {
    if language_of(value) == "en"@ {
        Some(Locale::En)
    } else if language_of(value) == "ja"@ {
        Some(Locale::Ja)
    } else {
        None
    }
}

proof fn lemma_language_part(s: Seq<char>, i: int)
    requires
        0 <= i <= s.len(),
        forall|k: int| 0 <= k < i ==> !ends_language(#[trigger] s[k]),
        i == s.len() || ends_language(s[i]),
    ensures
        language_part(s) == s.take(i),
    decreases i,
{
    if i > 0 {
        assert(s.drop_first().len() == s.len() - 1);
        assert forall|k: int| 0 <= k < i - 1 implies !ends_language(#[trigger] s.drop_first()[k]) by {
            assert(s.drop_first()[k] == s[k + 1]);
        }
        if i < s.len() {
            assert(s.drop_first()[i - 1] == s[i]);
        }
        lemma_language_part(s.drop_first(), i - 1);
        assert(seq![s[0]] + s.drop_first().take(i - 1) =~= s.take(i));
    } else {
        assert(s.take(0) =~= Seq::<char>::empty());
    }
}

impl Locale {
    /// Accepts `en`, `ja` and the usual decorations: `en_US.UTF-8`, `ja-JP`.
    pub fn parse(value: &str) -> (r: Result<Locale, UnsupportedLanguage>)
        ensures
            match spec_parse(value@) {
                Some(l) => r == Ok::<Locale, UnsupportedLanguage>(l),
                None => r matches Err(e) && e.value@ == value@,
            },
    {
        let v = chars_of(value);
        let mut i: usize = 0;
        while i < v.len() && !(v[i] == '.' || v[i] == '@' || v[i] == '-' || v[i] == '_')
            invariant
                i <= v@.len(),
                forall|k: int| 0 <= k < i ==> !ends_language(#[trigger] v@[k]),
            decreases v.len() - i,
        {
            i = i + 1;
        }
        proof { lemma_language_part(v@, i as int); }
        let mut part: Vec<char> = Vec::new();
        let mut k: usize = 0;
        while k < i
            invariant
                k <= i <= v@.len(),
                part@ == v@.take(k as int),
            decreases i - k,
        {
            part.push(v[k]);
            assert(v@.take(k + 1) == v@.take(k as int).push(v@[k as int]));
            k = k + 1;
        }
        let tag = lower_chars(&part);
        let en = chars_of("en");
        let ja = chars_of("ja");
        if crate::text::seq_equal(&tag, &en) {
            Ok(Locale::En)
        } else if crate::text::seq_equal(&tag, &ja) {
            Ok(Locale::Ja)
        } else {
            Err(UnsupportedLanguage { value: crate::text::owned(value) })
        }
    }

    /// `--lang`, then the value of `EXARARE_LANG`, then English. `LANG` is
    /// deliberately ignored: the output should not change with the
    /// environment.
    pub fn resolve(flag: Option<&str>, env: Option<&str>) -> (r: Result<Locale, UnsupportedLanguage>)
        ensures
            match flag {
                Some(value) => match spec_parse(value@) {
                    Some(l) => r == Ok::<Locale, UnsupportedLanguage>(l),
                    None => r matches Err(e) && e.value@ == value@,
                },
                None => match env {
                    Some(value) => if crate::text::trim(value@).len() > 0 {
                        match spec_parse(value@) {
                            Some(l) => r == Ok::<Locale, UnsupportedLanguage>(l),
                            None => r matches Err(e) && e.value@ == value@,
                        }
                    } else {
                        r == Ok::<Locale, UnsupportedLanguage>(Locale::En)
                    },
                    None => r == Ok::<Locale, UnsupportedLanguage>(Locale::En),
                },
            },
    {
        if let Some(value) = flag {
            return Locale::parse(value);
        }
        match env {
            Some(value) => {
                let v = chars_of(value);
                let t = crate::text::trim_chars(&v);
                if t.len() > 0 {
                    Locale::parse(value)
                } else {
                    Ok(Locale::En)
                }
            },
            None => Ok(Locale::En),
        }
    }

    pub fn messages(self) -> (r: Messages)
        ensures
            r.locale == self,
    {
        Messages { locale: self }
    }
}

/// Every piece of fixed text in a generated document.
pub struct Messages {
    pub locale: Locale,
}

/// The text for the locale.
pub open spec fn pick(l: Locale, en: Seq<char>, ja: Seq<char>) -> Seq<char> {
    match l {
        Locale::En => en,
        Locale::Ja => ja,
    }
}

/// `1 {one}` or `{n} {many}` in English, `{ja} {n} 件` in Japanese.
pub open spec fn count_text(l: Locale, n: nat, one: Seq<char>, many: Seq<char>, ja: Seq<char>) -> Seq<char> {
    match l {
        Locale::En => if n == 1 { "1 "@ + one } else { decimal(n) + seq![' '] + many },
        Locale::Ja => ja + seq![' '] + decimal(n) + " 件"@,
    }
}

#[verifier::opaque]
pub open spec fn msg_runbook_title(l: Locale) -> Seq<char> {
    pick(l, "Build runbook"@, "構築手順書"@)
}

#[verifier::opaque]
pub open spec fn msg_host(l: Locale) -> Seq<char> {
    pick(l, "Host"@, "対象ホスト"@)
}

#[verifier::opaque]
pub open spec fn msg_user(l: Locale) -> Seq<char> {
    pick(l, "Ran as"@, "実行ユーザー"@)
}

#[verifier::opaque]
pub open spec fn msg_shell(l: Locale) -> Seq<char> {
    pick(l, "Shell"@, "シェル"@)
}

#[verifier::opaque]
pub open spec fn msg_started(l: Locale) -> Seq<char> {
    pick(l, "Started"@, "開始"@)
}

#[verifier::opaque]
pub open spec fn msg_ended(l: Locale) -> Seq<char> {
    pick(l, "Ended"@, "終了"@)
}

#[verifier::opaque]
pub open spec fn msg_session_id(l: Locale) -> Seq<char> {
    pick(l, "Session"@, "セッション"@)
}

#[verifier::opaque]
pub open spec fn msg_purpose(l: Locale) -> Seq<char> {
    pick(l, "Purpose"@, "目的"@)
}

#[verifier::opaque]
pub open spec fn msg_purpose_intro(l: Locale) -> Seq<char> {
    pick(l, "Exarare cannot know why this work was done. Fill this in."@, "この作業を行った理由は記録から分かりません。以下を記入してください。"@)
}

#[verifier::opaque]
pub open spec fn msg_purpose_what(l: Locale) -> Seq<char> {
    pick(l, "What was done"@, "何をしたか"@)
}

#[verifier::opaque]
pub open spec fn msg_purpose_why(l: Locale) -> Seq<char> {
    pick(l, "Why it was needed"@, "なぜ必要だったか"@)
}

#[verifier::opaque]
pub open spec fn msg_purpose_done(l: Locale) -> Seq<char> {
    pick(l, "Definition of done"@, "完了条件"@)
}

#[verifier::opaque]
pub open spec fn msg_overview(l: Locale) -> Seq<char> {
    pick(l, "Overview of the work"@, "作業の全体像"@)
}

#[verifier::opaque]
pub open spec fn msg_overview_intro(l: Locale) -> Seq<char> {
    pick(l, "The steps below are the order in which the work was done."@, "実際に作業した順序です。"@)
}

#[verifier::opaque]
pub open spec fn msg_unnamed_step(l: Locale) -> Seq<char> {
    pick(l, "The whole session"@, "セッション全体"@)
}

#[verifier::opaque]
pub open spec fn msg_before_first_step(l: Locale) -> Seq<char> {
    pick(l, "Before the first step"@, "最初のステップより前の作業"@)
}

#[verifier::opaque]
pub open spec fn msg_no_steps_hint(l: Locale) -> Seq<char> {
    pick(l, "No steps were recorded, so the session is a single step. Run `exarare step \"...\"` while working to split it up."@, "ステップが記録されていないため、セッション全体が1ステップになっています。作業中に `exarare step \"...\"` を実行すると分割できます。"@)
}

#[verifier::opaque]
pub open spec fn msg_note_label(l: Locale) -> Seq<char> {
    pick(l, "Note"@, "補足"@)
}

#[verifier::opaque]
pub open spec fn msg_list_separator(l: Locale) -> Seq<char> {
    pick(l, ", "@, "、"@)
}

#[verifier::opaque]
pub open spec fn msg_prerequisites(l: Locale) -> Seq<char> {
    pick(l, "Prerequisites"@, "前提条件"@)
}

#[verifier::opaque]
pub open spec fn msg_prereq_recorded(l: Locale) -> Seq<char> {
    pick(l, "Recorded from the session"@, "記録から分かること"@)
}

#[verifier::opaque]
pub open spec fn msg_prereq_todo(l: Locale) -> Seq<char> {
    pick(l, "Add anything the record cannot show: network access, credentials, artifacts to have at hand."@, "記録に残らない前提を補ってください。ネットワーク要件、必要な認証情報、事前に用意する資材など。"@)
}

#[verifier::opaque]
pub open spec fn msg_procedure(l: Locale) -> Seq<char> {
    pick(l, "Procedure"@, "手順"@)
}

#[verifier::opaque]
pub open spec fn msg_procedure_intro(l: Locale) -> Seq<char> {
    pick(l, "Only the commands that worked are listed here. Everything that ran, including failures and retries, is in the appendix."@, "ここには成功したコマンドだけを載せています。失敗や再試行を含む全実行は付録にあります。"@)
}

#[verifier::opaque]
pub open spec fn msg_working_directory(l: Locale) -> Seq<char> {
    pick(l, "Working directory"@, "作業ディレクトリ"@)
}

#[verifier::opaque]
pub open spec fn msg_step_files(l: Locale) -> Seq<char> {
    pick(l, "Files changed in this step"@, "このステップでの変更"@)
}

#[verifier::opaque]
pub open spec fn msg_attribution_note(l: Locale) -> Seq<char> {
    pick(l, "A file is placed in a step when a command of that step names its path. The rest are listed under \"What changed\"."@, "ファイルは、そのパスを含むコマンドがあるステップに割り当てています。割り当てられなかったものは「変更されたもの」にまとめています。"@)
}

#[verifier::opaque]
pub open spec fn msg_what_changed(l: Locale) -> Seq<char> {
    pick(l, "What changed"@, "変更されたもの"@)
}

#[verifier::opaque]
pub open spec fn msg_changed_files(l: Locale) -> Seq<char> {
    pick(l, "Files"@, "ファイル"@)
}

#[verifier::opaque]
pub open spec fn msg_packages(l: Locale) -> Seq<char> {
    pick(l, "Packages"@, "パッケージ"@)
}

#[verifier::opaque]
pub open spec fn msg_touched_files(l: Locale) -> Seq<char> {
    pick(l, "Files touched"@, "触られたファイル"@)
}

#[verifier::opaque]
pub open spec fn msg_touched_intro(l: Locale) -> Seq<char> {
    pick(l, "These paths were written to during the work, and their content was not recorded: they are either outside the snapshotted directories, or they ended up unchanged."@, "作業中に書き込みが発生したパスです。内容は記録していません。スナップショット対象の外にあるか、最終的に内容が変わらなかったものです。"@)
}

#[verifier::opaque]
pub open spec fn msg_touched_incomplete(l: Locale) -> Seq<char> {
    pick(l, "Some directories could not be watched, so touches under them were missed:"@, "監視できなかったディレクトリがあり、その配下の書き込みは取りこぼしています。"@)
}

#[verifier::opaque]
pub open spec fn msg_step_touched(l: Locale) -> Seq<char> {
    pick(l, "Files touched in this step"@, "このステップで触られたファイル"@)
}

#[verifier::opaque]
pub open spec fn msg_watched_directories(l: Locale) -> Seq<char> {
    pick(l, "Watched for touches"@, "監視のみの対象"@)
}

#[verifier::opaque]
pub open spec fn msg_packages_installed(l: Locale) -> Seq<char> {
    pick(l, "Installed"@, "追加"@)
}

#[verifier::opaque]
pub open spec fn msg_packages_removed(l: Locale) -> Seq<char> {
    pick(l, "Removed"@, "削除"@)
}

#[verifier::opaque]
pub open spec fn msg_packages_upgraded(l: Locale) -> Seq<char> {
    pick(l, "Upgraded"@, "更新"@)
}

#[verifier::opaque]
pub open spec fn msg_repositories_added(l: Locale) -> Seq<char> {
    pick(l, "Repositories enabled"@, "有効化されたリポジトリ"@)
}

#[verifier::opaque]
pub open spec fn msg_repositories_removed(l: Locale) -> Seq<char> {
    pick(l, "Repositories disabled"@, "無効化されたリポジトリ"@)
}

#[verifier::opaque]
pub open spec fn msg_modules_added(l: Locale) -> Seq<char> {
    pick(l, "Module streams enabled"@, "有効化されたモジュール"@)
}

#[verifier::opaque]
pub open spec fn msg_no_package_changes(l: Locale) -> Seq<char> {
    pick(l, "No package changes were recorded."@, "パッケージの変更は記録されていません。"@)
}

#[verifier::opaque]
pub open spec fn msg_packages_unavailable(l: Locale) -> Seq<char> {
    pick(l, "Package state was not recorded: this host has no rpm."@, "パッケージの状態は記録されていません。このホストに rpm がありません。"@)
}

#[verifier::opaque]
pub open spec fn msg_packages_incomplete(l: Locale) -> Seq<char> {
    pick(l, "Some package information could not be read:"@, "一部のパッケージ情報を取得できませんでした。"@)
}

#[verifier::opaque]
pub open spec fn msg_services(l: Locale) -> Seq<char> {
    pick(l, "Services and firewall"@, "サービスとファイアウォール"@)
}

#[verifier::opaque]
pub open spec fn msg_accounts(l: Locale) -> Seq<char> {
    pick(l, "Users and groups"@, "ユーザーとグループ"@)
}

#[verifier::opaque]
pub open spec fn msg_units_enabled(l: Locale) -> Seq<char> {
    pick(l, "Enabled at boot"@, "自動起動を有効化"@)
}

#[verifier::opaque]
pub open spec fn msg_units_disabled(l: Locale) -> Seq<char> {
    pick(l, "Disabled at boot"@, "自動起動を無効化"@)
}

#[verifier::opaque]
pub open spec fn msg_services_started(l: Locale) -> Seq<char> {
    pick(l, "Running afterwards"@, "作業後に稼働中"@)
}

#[verifier::opaque]
pub open spec fn msg_services_stopped(l: Locale) -> Seq<char> {
    pick(l, "No longer running"@, "稼働を停止"@)
}

#[verifier::opaque]
pub open spec fn msg_firewall_services_added(l: Locale) -> Seq<char> {
    pick(l, "Firewall services opened"@, "許可したサービス"@)
}

#[verifier::opaque]
pub open spec fn msg_firewall_services_removed(l: Locale) -> Seq<char> {
    pick(l, "Firewall services closed"@, "許可を解除したサービス"@)
}

#[verifier::opaque]
pub open spec fn msg_firewall_ports_added(l: Locale) -> Seq<char> {
    pick(l, "Ports opened"@, "開放したポート"@)
}

#[verifier::opaque]
pub open spec fn msg_firewall_ports_removed(l: Locale) -> Seq<char> {
    pick(l, "Ports closed"@, "閉じたポート"@)
}

#[verifier::opaque]
pub open spec fn msg_users_added(l: Locale) -> Seq<char> {
    pick(l, "Users added"@, "追加したユーザー"@)
}

#[verifier::opaque]
pub open spec fn msg_users_removed(l: Locale) -> Seq<char> {
    pick(l, "Users removed"@, "削除したユーザー"@)
}

#[verifier::opaque]
pub open spec fn msg_users_changed(l: Locale) -> Seq<char> {
    pick(l, "Users changed"@, "変更したユーザー"@)
}

#[verifier::opaque]
pub open spec fn msg_groups_added(l: Locale) -> Seq<char> {
    pick(l, "Groups added"@, "追加したグループ"@)
}

#[verifier::opaque]
pub open spec fn msg_groups_removed(l: Locale) -> Seq<char> {
    pick(l, "Groups removed"@, "削除したグループ"@)
}

#[verifier::opaque]
pub open spec fn msg_no_state_changes(l: Locale) -> Seq<char> {
    pick(l, "No service, firewall, user or group changes were recorded."@, "サービス、ファイアウォール、ユーザー、グループの変更は記録されていません。"@)
}

#[verifier::opaque]
pub open spec fn msg_systemd_unavailable(l: Locale) -> Seq<char> {
    pick(l, "Service state was not recorded: systemd did not answer, as happens inside a container."@, "サービスの状態は記録されていません。コンテナ内などで systemd が応答しなかったためです。"@)
}

#[verifier::opaque]
pub open spec fn msg_firewall_unavailable(l: Locale) -> Seq<char> {
    pick(l, "Firewall rules were not recorded: firewalld did not answer."@, "ファイアウォールの設定は記録されていません。firewalld が応答しなかったためです。"@)
}

#[verifier::opaque]
pub open spec fn msg_step_state(l: Locale) -> Seq<char> {
    pick(l, "Services and accounts changed in this step"@, "このステップで変更したサービスとアカウント"@)
}

#[verifier::opaque]
pub open spec fn msg_rollback_state(l: Locale) -> Seq<char> {
    pick(l, "Services to disable and accounts to remove"@, "無効化するサービスと削除するアカウント"@)
}

#[verifier::opaque]
pub open spec fn msg_playbook_review(l: Locale) -> Seq<char> {
    pick(l, "Review before running. Tasks come from what was observed before and after the work, not from a declaration of intent. A command that no probe could express is replayed as it was typed and is not idempotent.\nThe firewall tasks need the ansible.posix collection."@, "実行する前に内容を確認してください。タスクは作業の前後で観測した差分から作られており、意図の宣言ではありません。観測で表せなかったコマンドは入力どおり再実行されるため、冪等ではありません。\nファイアウォールのタスクには ansible.posix コレクションが必要です。"@)
}

#[verifier::opaque]
pub open spec fn msg_playbook_unattributed(l: Locale) -> Seq<char> {
    pick(l, "Changes that belong to no single step."@, "特定のステップに割り当てられなかった変更。"@)
}

#[verifier::opaque]
pub open spec fn msg_playbook_empty(l: Locale) -> Seq<char> {
    pick(l, "The session recorded nothing that can be replayed."@, "再実行できる変更は記録されていません。"@)
}

#[verifier::opaque]
pub open spec fn msg_todo_idempotent(l: Locale) -> Seq<char> {
    pick(l, "TODO: make idempotent. This command is replayed as it was typed."@, "要対応: 冪等ではありません。このコマンドは入力どおり再実行されます。"@)
}

#[verifier::opaque]
pub open spec fn msg_name(l: Locale) -> Seq<char> {
    pick(l, "Name"@, "名前"@)
}

#[verifier::opaque]
pub open spec fn msg_version(l: Locale) -> Seq<char> {
    pick(l, "Version"@, "バージョン"@)
}

#[verifier::opaque]
pub open spec fn msg_no_changes(l: Locale) -> Seq<char> {
    pick(l, "No file changes were recorded."@, "ファイルの変更は記録されていません。"@)
}

#[verifier::opaque]
pub open spec fn msg_path(l: Locale) -> Seq<char> {
    pick(l, "Path"@, "パス"@)
}

#[verifier::opaque]
pub open spec fn msg_change(l: Locale) -> Seq<char> {
    pick(l, "Change"@, "変更"@)
}

#[verifier::opaque]
pub open spec fn msg_verification(l: Locale) -> Seq<char> {
    pick(l, "Verification"@, "確認手順"@)
}

#[verifier::opaque]
pub open spec fn msg_verification_intro(l: Locale) -> Seq<char> {
    pick(l, "These commands were run during the work and look like checks. Write down what each should show."@, "作業中に実行された、確認と思われるコマンドです。それぞれの期待結果を記入してください。"@)
}

#[verifier::opaque]
pub open spec fn msg_verification_none(l: Locale) -> Seq<char> {
    pick(l, "No commands looked like checks. Add the ones a reader should run."@, "確認に見えるコマンドはありませんでした。読み手が実行すべき確認を追加してください。"@)
}

#[verifier::opaque]
pub open spec fn msg_expected_result(l: Locale) -> Seq<char> {
    pick(l, "Expected result"@, "期待結果"@)
}

#[verifier::opaque]
pub open spec fn msg_rollback(l: Locale) -> Seq<char> {
    pick(l, "Rollback"@, "切り戻し"@)
}

#[verifier::opaque]
pub open spec fn msg_rollback_disclaimer(l: Locale) -> Seq<char> {
    pick(l, "**These steps are generated candidates, not a verified rollback procedure.** Removing a package does not undo what installing it changed. Restoring a file does not undo what a service did while it was running. The order in which things must be undone cannot be derived from the record. Review and test every step before relying on it."@, "**以下は自動生成した候補であり、検証された切り戻し手順ではありません。** パッケージを削除しても、インストール時に加わった変更は元に戻りません。ファイルを戻しても、その設定で動作していたサービスの処理は取り消せません。どの順序で戻すべきかは記録からは導けません。実際に使う前に、必ず内容を確認し、試してください。"@)
}

#[verifier::opaque]
pub open spec fn msg_rollback_packages(l: Locale) -> Seq<char> {
    pick(l, "Packages to remove"@, "削除するパッケージ"@)
}

#[verifier::opaque]
pub open spec fn msg_rollback_files(l: Locale) -> Seq<char> {
    pick(l, "Files to restore to their recorded content"@, "記録時点の内容に戻すファイル"@)
}

#[verifier::opaque]
pub open spec fn msg_rollback_none(l: Locale) -> Seq<char> {
    pick(l, "Nothing was detected that would need undoing."@, "戻す必要がある変更は検出されませんでした。"@)
}

#[verifier::opaque]
pub open spec fn msg_appendix_log(l: Locale) -> Seq<char> {
    pick(l, "Appendix A: full command log"@, "付録A: 全コマンド記録"@)
}

#[verifier::opaque]
pub open spec fn msg_appendix_log_intro(l: Locale) -> Seq<char> {
    pick(l, "Everything that ran, in order, including failures and retries."@, "実行されたすべてのコマンドを、失敗や再試行も含めて順に並べています。"@)
}

#[verifier::opaque]
pub open spec fn msg_appendix_diffs(l: Locale) -> Seq<char> {
    pick(l, "Appendix B: full diffs of the files shortened above"@, "付録B: 本文で省略した差分の全文"@)
}

#[verifier::opaque]
pub open spec fn msg_appendix_generated(l: Locale) -> Seq<char> {
    pick(l, "Appendix B: how this was generated"@, "付録B: この文書の生成条件"@)
}

/// The same appendix when the appendix of full diffs precedes it, so that
/// each appendix has a letter of its own.
#[verifier::opaque]
pub open spec fn msg_appendix_generated_after_diffs(l: Locale) -> Seq<char> {
    pick(l, "Appendix C: how this was generated"@, "付録C: この文書の生成条件"@)
}

#[verifier::opaque]
pub open spec fn msg_time(l: Locale) -> Seq<char> {
    pick(l, "Time"@, "時刻"@)
}

#[verifier::opaque]
pub open spec fn msg_command(l: Locale) -> Seq<char> {
    pick(l, "Command"@, "コマンド"@)
}

#[verifier::opaque]
pub open spec fn msg_exit_code(l: Locale) -> Seq<char> {
    pick(l, "Exit"@, "終了コード"@)
}

#[verifier::opaque]
pub open spec fn msg_still_running(l: Locale) -> Seq<char> {
    pick(l, "(no exit recorded)"@, "（終了コードなし）"@)
}

#[verifier::opaque]
pub open spec fn msg_snapshot_directories(l: Locale) -> Seq<char> {
    pick(l, "Snapshotted directories"@, "スナップショット対象ディレクトリ"@)
}

#[verifier::opaque]
pub open spec fn msg_generated_by(l: Locale) -> Seq<char> {
    pick(l, "Generated by"@, "生成ツール"@)
}

#[verifier::opaque]
pub open spec fn msg_generated_note(l: Locale) -> Seq<char> {
    pick(l, "Files that change on their own are excluded, and the content of files matching a secret pattern is never recorded."@, "自動的に変化するファイルは除外し、機密と判定されたファイルの内容は記録していません。"@)
}

#[verifier::opaque]
pub open spec fn msg_todo(l: Locale) -> Seq<char> {
    pick(l, "TODO"@, "要記入"@)
}

#[verifier::opaque]
pub open spec fn msg_touched_truncated(l: Locale, limit: nat) -> Seq<char> {
    pick(
                l,
                "More than "@ + decimal(limit) + " paths were touched, so this list is incomplete."@,
                decimal(limit) + " 件を超えるパスが触られたため、この一覧は網羅的ではありません。"@,
            )
}

#[verifier::opaque]
pub open spec fn msg_packages_dependencies(l: Locale, n: nat) -> Seq<char> {
    pick(
                l,
                decimal(n) + " more were installed as dependencies"@,
                "依存関係として "@ + decimal(n) + " 件が追加されました"@,
            )
}

#[verifier::opaque]
pub open spec fn msg_playbook_header(l: Locale, session: Seq<char>, version: Seq<char>) -> Seq<char> {
    pick(
                l,
                "Generated by exarare "@ + version + " from session "@ + session + seq!['.'],
                "exarare "@ + version + " がセッション "@ + session + " から生成しました。"@,
            )
}

#[verifier::opaque]
pub open spec fn msg_playbook_step(l: Locale, title: Seq<char>) -> Seq<char> {
    pick(l, "Step: "@ + title, "ステップ: "@ + title)
}

#[verifier::opaque]
pub open spec fn msg_todo_content_missing(l: Locale, path: Seq<char>) -> Seq<char> {
    pick(
                l,
                "TODO: "@ + path + " changed, but its content was not recorded (secret, binary or too large). Set it by hand."@,
                "要対応: "@ + path + " は変更されましたが、内容を記録していません（機密、バイナリ、またはサイズ超過）。手動で設定してください。"@,
            )
}

#[verifier::opaque]
pub open spec fn msg_recorded_owner(l: Locale, uid: nat, gid: nat) -> Seq<char> {
    pick(
                l,
                "Recorded owner: uid "@ + decimal(uid) + ", gid "@ + decimal(gid)
                    + ". Set owner and group by name if that matters on the target."@,
                "記録時の所有者: uid "@ + decimal(uid) + "、gid "@ + decimal(gid)
                    + "。対象ホストで意味がある場合は名前で owner と group を指定してください。"@,
            )
}

#[verifier::opaque]
pub open spec fn msg_change_kind(l: Locale, label: Seq<char>) -> Seq<char> {
    (if label == "added"@ {
                pick(l, "added"@, "追加"@)
            } else if label == "removed"@ {
                pick(l, "removed"@, "削除"@)
            } else if label == "modified"@ {
                pick(l, "modified"@, "変更"@)
            } else {
                pick(l, "permissions"@, "権限"@)
            })
}

#[verifier::opaque]
pub open spec fn msg_diff_truncated(l: Locale, shown: nat, total: nat) -> Seq<char> {
    pick(
                l,
                "Diff truncated: "@ + decimal(shown) + " of "@ + decimal(total)
                    + " lines. The full diff is in the appendix."@,
                "差分を "@ + decimal(total) + " 行中 "@ + decimal(shown)
                    + " 行までに省略しました。全文は付録にあります。"@,
            )
}

impl Messages {
    fn count(&self, n: usize, one: &str, many: &str, ja: &str) -> (r: String)
        ensures
            r@ == count_text(self.locale, n as nat, one@, many@, ja@),
    {
        let mut out = String::new();
        match self.locale {
            Locale::En => {
                if n == 1 {
                    push_str(&mut out, "1 ");
                    push_str(&mut out, one);
                } else {
                    push_decimal(&mut out, n as u64);
                    crate::text::push_char(&mut out, ' ');
                    push_str(&mut out, many);
                }
            },
            Locale::Ja => {
                push_str(&mut out, ja);
                crate::text::push_char(&mut out, ' ');
                push_decimal(&mut out, n as u64);
                push_str(&mut out, " 件");
            },
        }
        out
    }

    pub fn count_commands(&self, n: usize) -> (r: String)
        ensures
            r@ == count_text(self.locale, n as nat, "command"@, "commands"@, "コマンド"@),
    {
        self.count(n, "command", "commands", "コマンド")
    }

    pub fn count_packages(&self, n: usize) -> (r: String)
        ensures
            r@ == count_text(self.locale, n as nat, "package"@, "packages"@, "パッケージ"@),
    {
        self.count(n, "package", "packages", "パッケージ")
    }

    pub fn count_files(&self, n: usize) -> (r: String)
        ensures
            r@ == count_text(self.locale, n as nat, "changed file"@, "changed files"@, "変更ファイル"@),
    {
        self.count(n, "changed file", "changed files", "変更ファイル")
    }

    pub fn touched_truncated(&self, limit: usize) -> (r: String)
        ensures
            r@ == msg_touched_truncated(self.locale, limit as nat),
    {
        proof { reveal(msg_touched_truncated); }
        let mut out = String::new();
        match self.locale {
            Locale::En => {
                push_str(&mut out, "More than ");
                push_decimal(&mut out, limit as u64);
                push_str(&mut out, " paths were touched, so this list is incomplete.");
            },
            Locale::Ja => {
                push_decimal(&mut out, limit as u64);
                push_str(&mut out, " 件を超えるパスが触られたため、この一覧は網羅的ではありません。");
            },
        }
        out
    }

    pub fn packages_dependencies(&self, n: usize) -> (r: String)
        ensures
            r@ == msg_packages_dependencies(self.locale, n as nat),
    {
        proof { reveal(msg_packages_dependencies); }
        let mut out = String::new();
        match self.locale {
            Locale::En => {
                push_decimal(&mut out, n as u64);
                push_str(&mut out, " more were installed as dependencies");
            },
            Locale::Ja => {
                push_str(&mut out, "依存関係として ");
                push_decimal(&mut out, n as u64);
                push_str(&mut out, " 件が追加されました");
            },
        }
        out
    }

    pub fn playbook_header(&self, session: &str, version: &str) -> (r: String)
        ensures
            r@ == msg_playbook_header(self.locale, session@, version@),
    {
        proof { reveal(msg_playbook_header); }
        let mut out = String::new();
        match self.locale {
            Locale::En => {
                push_str(&mut out, "Generated by exarare ");
                push_str(&mut out, version);
                push_str(&mut out, " from session ");
                push_str(&mut out, session);
                crate::text::push_char(&mut out, '.');
            },
            Locale::Ja => {
                push_str(&mut out, "exarare ");
                push_str(&mut out, version);
                push_str(&mut out, " がセッション ");
                push_str(&mut out, session);
                push_str(&mut out, " から生成しました。");
            },
        }
        out
    }

    pub fn playbook_step(&self, title: &str) -> (r: String)
        ensures
            r@ == msg_playbook_step(self.locale, title@),
    {
        proof { reveal(msg_playbook_step); }
        let mut out = String::new();
        match self.locale {
            Locale::En => push_str(&mut out, "Step: "),
            Locale::Ja => push_str(&mut out, "ステップ: "),
        }
        push_str(&mut out, title);
        out
    }

    pub fn todo_content_missing(&self, path: &str) -> (r: String)
        ensures
            r@ == msg_todo_content_missing(self.locale, path@),
    {
        proof { reveal(msg_todo_content_missing); }
        let mut out = String::new();
        match self.locale {
            Locale::En => {
                push_str(&mut out, "TODO: ");
                push_str(&mut out, path);
                push_str(&mut out, " changed, but its content was not recorded (secret, binary or too large). Set it by hand.");
            },
            Locale::Ja => {
                push_str(&mut out, "要対応: ");
                push_str(&mut out, path);
                push_str(&mut out, " は変更されましたが、内容を記録していません（機密、バイナリ、またはサイズ超過）。手動で設定してください。");
            },
        }
        out
    }

    pub fn recorded_owner(&self, uid: u32, gid: u32) -> (r: String)
        ensures
            r@ == msg_recorded_owner(self.locale, uid as nat, gid as nat),
    {
        proof { reveal(msg_recorded_owner); }
        let mut out = String::new();
        match self.locale {
            Locale::En => {
                push_str(&mut out, "Recorded owner: uid ");
                push_decimal(&mut out, uid as u64);
                push_str(&mut out, ", gid ");
                push_decimal(&mut out, gid as u64);
                push_str(&mut out, ". Set owner and group by name if that matters on the target.");
            },
            Locale::Ja => {
                push_str(&mut out, "記録時の所有者: uid ");
                push_decimal(&mut out, uid as u64);
                push_str(&mut out, "、gid ");
                push_decimal(&mut out, gid as u64);
                push_str(&mut out, "。対象ホストで意味がある場合は名前で owner と group を指定してください。");
            },
        }
        out
    }

    /// The name of a kind of change: `added`, `removed` and `modified` are
    /// named as such, anything else is a change of permissions.
    pub fn change_kind(&self, label: &str) -> (r: &'static str)
        ensures
            r@ == msg_change_kind(self.locale, label@),
    {
        proof { reveal(msg_change_kind); }
        let en = self.locale == Locale::En;
        if crate::text::str_eq(label, "added") {
            if en { "added" } else { "追加" }
        } else if crate::text::str_eq(label, "removed") {
            if en { "removed" } else { "削除" }
        } else if crate::text::str_eq(label, "modified") {
            if en { "modified" } else { "変更" }
        } else {
            if en { "permissions" } else { "権限" }
        }
    }

    pub fn diff_truncated(&self, shown: usize, total: usize) -> (r: String)
        ensures
            r@ == msg_diff_truncated(self.locale, shown as nat, total as nat),
    {
        proof { reveal(msg_diff_truncated); }
        let mut out = String::new();
        match self.locale {
            Locale::En => {
                push_str(&mut out, "Diff truncated: ");
                push_decimal(&mut out, shown as u64);
                push_str(&mut out, " of ");
                push_decimal(&mut out, total as u64);
                push_str(&mut out, " lines. The full diff is in the appendix.");
            },
            Locale::Ja => {
                push_str(&mut out, "差分を ");
                push_decimal(&mut out, total as u64);
                push_str(&mut out, " 行中 ");
                push_decimal(&mut out, shown as u64);
                push_str(&mut out, " 行までに省略しました。全文は付録にあります。");
            },
        }
        out
    }

    pub fn runbook_title(&self) -> (r: &'static str)
        ensures
            r@ == msg_runbook_title(self.locale),
    {
        proof { reveal(msg_runbook_title); }
        match self.locale {
            Locale::En => "Build runbook",
            Locale::Ja => "構築手順書",
        }
    }

    pub fn host(&self) -> (r: &'static str)
        ensures
            r@ == msg_host(self.locale),
    {
        proof { reveal(msg_host); }
        match self.locale {
            Locale::En => "Host",
            Locale::Ja => "対象ホスト",
        }
    }

    pub fn user(&self) -> (r: &'static str)
        ensures
            r@ == msg_user(self.locale),
    {
        proof { reveal(msg_user); }
        match self.locale {
            Locale::En => "Ran as",
            Locale::Ja => "実行ユーザー",
        }
    }

    pub fn shell(&self) -> (r: &'static str)
        ensures
            r@ == msg_shell(self.locale),
    {
        proof { reveal(msg_shell); }
        match self.locale {
            Locale::En => "Shell",
            Locale::Ja => "シェル",
        }
    }

    pub fn started(&self) -> (r: &'static str)
        ensures
            r@ == msg_started(self.locale),
    {
        proof { reveal(msg_started); }
        match self.locale {
            Locale::En => "Started",
            Locale::Ja => "開始",
        }
    }

    pub fn ended(&self) -> (r: &'static str)
        ensures
            r@ == msg_ended(self.locale),
    {
        proof { reveal(msg_ended); }
        match self.locale {
            Locale::En => "Ended",
            Locale::Ja => "終了",
        }
    }

    pub fn session_id(&self) -> (r: &'static str)
        ensures
            r@ == msg_session_id(self.locale),
    {
        proof { reveal(msg_session_id); }
        match self.locale {
            Locale::En => "Session",
            Locale::Ja => "セッション",
        }
    }

    pub fn purpose(&self) -> (r: &'static str)
        ensures
            r@ == msg_purpose(self.locale),
    {
        proof { reveal(msg_purpose); }
        match self.locale {
            Locale::En => "Purpose",
            Locale::Ja => "目的",
        }
    }

    pub fn purpose_intro(&self) -> (r: &'static str)
        ensures
            r@ == msg_purpose_intro(self.locale),
    {
        proof { reveal(msg_purpose_intro); }
        match self.locale {
            Locale::En => "Exarare cannot know why this work was done. Fill this in.",
            Locale::Ja => "この作業を行った理由は記録から分かりません。以下を記入してください。",
        }
    }

    pub fn purpose_what(&self) -> (r: &'static str)
        ensures
            r@ == msg_purpose_what(self.locale),
    {
        proof { reveal(msg_purpose_what); }
        match self.locale {
            Locale::En => "What was done",
            Locale::Ja => "何をしたか",
        }
    }

    pub fn purpose_why(&self) -> (r: &'static str)
        ensures
            r@ == msg_purpose_why(self.locale),
    {
        proof { reveal(msg_purpose_why); }
        match self.locale {
            Locale::En => "Why it was needed",
            Locale::Ja => "なぜ必要だったか",
        }
    }

    pub fn purpose_done(&self) -> (r: &'static str)
        ensures
            r@ == msg_purpose_done(self.locale),
    {
        proof { reveal(msg_purpose_done); }
        match self.locale {
            Locale::En => "Definition of done",
            Locale::Ja => "完了条件",
        }
    }

    pub fn overview(&self) -> (r: &'static str)
        ensures
            r@ == msg_overview(self.locale),
    {
        proof { reveal(msg_overview); }
        match self.locale {
            Locale::En => "Overview of the work",
            Locale::Ja => "作業の全体像",
        }
    }

    pub fn overview_intro(&self) -> (r: &'static str)
        ensures
            r@ == msg_overview_intro(self.locale),
    {
        proof { reveal(msg_overview_intro); }
        match self.locale {
            Locale::En => "The steps below are the order in which the work was done.",
            Locale::Ja => "実際に作業した順序です。",
        }
    }

    /// Title of the single step of a session where no heading was recorded.
    pub fn unnamed_step(&self) -> (r: &'static str)
        ensures
            r@ == msg_unnamed_step(self.locale),
    {
        proof { reveal(msg_unnamed_step); }
        match self.locale {
            Locale::En => "The whole session",
            Locale::Ja => "セッション全体",
        }
    }

    /// Title of the work that came before the operator's first step.
    pub fn before_first_step(&self) -> (r: &'static str)
        ensures
            r@ == msg_before_first_step(self.locale),
    {
        proof { reveal(msg_before_first_step); }
        match self.locale {
            Locale::En => "Before the first step",
            Locale::Ja => "最初のステップより前の作業",
        }
    }

    pub fn no_steps_hint(&self) -> (r: &'static str)
        ensures
            r@ == msg_no_steps_hint(self.locale),
    {
        proof { reveal(msg_no_steps_hint); }
        match self.locale {
            Locale::En => "No steps were recorded, so the session is a single step. Run `exarare step \"...\"` while working to split it up.",
            Locale::Ja => "ステップが記録されていないため、セッション全体が1ステップになっています。作業中に `exarare step \"...\"` を実行すると分割できます。",
        }
    }

    /// Label of a remark recorded with `exarare note`.
    pub fn note_label(&self) -> (r: &'static str)
        ensures
            r@ == msg_note_label(self.locale),
    {
        proof { reveal(msg_note_label); }
        match self.locale {
            Locale::En => "Note",
            Locale::Ja => "補足",
        }
    }

    /// Separator between items written inline, which differs by script.
    pub fn list_separator(&self) -> (r: &'static str)
        ensures
            r@ == msg_list_separator(self.locale),
    {
        proof { reveal(msg_list_separator); }
        match self.locale {
            Locale::En => ", ",
            Locale::Ja => "、",
        }
    }

    pub fn prerequisites(&self) -> (r: &'static str)
        ensures
            r@ == msg_prerequisites(self.locale),
    {
        proof { reveal(msg_prerequisites); }
        match self.locale {
            Locale::En => "Prerequisites",
            Locale::Ja => "前提条件",
        }
    }

    pub fn prereq_recorded(&self) -> (r: &'static str)
        ensures
            r@ == msg_prereq_recorded(self.locale),
    {
        proof { reveal(msg_prereq_recorded); }
        match self.locale {
            Locale::En => "Recorded from the session",
            Locale::Ja => "記録から分かること",
        }
    }

    pub fn prereq_todo(&self) -> (r: &'static str)
        ensures
            r@ == msg_prereq_todo(self.locale),
    {
        proof { reveal(msg_prereq_todo); }
        match self.locale {
            Locale::En => "Add anything the record cannot show: network access, credentials, artifacts to have at hand.",
            Locale::Ja => "記録に残らない前提を補ってください。ネットワーク要件、必要な認証情報、事前に用意する資材など。",
        }
    }

    pub fn procedure(&self) -> (r: &'static str)
        ensures
            r@ == msg_procedure(self.locale),
    {
        proof { reveal(msg_procedure); }
        match self.locale {
            Locale::En => "Procedure",
            Locale::Ja => "手順",
        }
    }

    pub fn procedure_intro(&self) -> (r: &'static str)
        ensures
            r@ == msg_procedure_intro(self.locale),
    {
        proof { reveal(msg_procedure_intro); }
        match self.locale {
            Locale::En => "Only the commands that worked are listed here. Everything that ran, including failures and retries, is in the appendix.",
            Locale::Ja => "ここには成功したコマンドだけを載せています。失敗や再試行を含む全実行は付録にあります。",
        }
    }

    pub fn working_directory(&self) -> (r: &'static str)
        ensures
            r@ == msg_working_directory(self.locale),
    {
        proof { reveal(msg_working_directory); }
        match self.locale {
            Locale::En => "Working directory",
            Locale::Ja => "作業ディレクトリ",
        }
    }

    pub fn step_files(&self) -> (r: &'static str)
        ensures
            r@ == msg_step_files(self.locale),
    {
        proof { reveal(msg_step_files); }
        match self.locale {
            Locale::En => "Files changed in this step",
            Locale::Ja => "このステップでの変更",
        }
    }

    pub fn attribution_note(&self) -> (r: &'static str)
        ensures
            r@ == msg_attribution_note(self.locale),
    {
        proof { reveal(msg_attribution_note); }
        match self.locale {
            Locale::En => "A file is placed in a step when a command of that step names its path. The rest are listed under \"What changed\".",
            Locale::Ja => "ファイルは、そのパスを含むコマンドがあるステップに割り当てています。割り当てられなかったものは「変更されたもの」にまとめています。",
        }
    }

    pub fn what_changed(&self) -> (r: &'static str)
        ensures
            r@ == msg_what_changed(self.locale),
    {
        proof { reveal(msg_what_changed); }
        match self.locale {
            Locale::En => "What changed",
            Locale::Ja => "変更されたもの",
        }
    }

    pub fn changed_files(&self) -> (r: &'static str)
        ensures
            r@ == msg_changed_files(self.locale),
    {
        proof { reveal(msg_changed_files); }
        match self.locale {
            Locale::En => "Files",
            Locale::Ja => "ファイル",
        }
    }

    pub fn packages(&self) -> (r: &'static str)
        ensures
            r@ == msg_packages(self.locale),
    {
        proof { reveal(msg_packages); }
        match self.locale {
            Locale::En => "Packages",
            Locale::Ja => "パッケージ",
        }
    }

    pub fn touched_files(&self) -> (r: &'static str)
        ensures
            r@ == msg_touched_files(self.locale),
    {
        proof { reveal(msg_touched_files); }
        match self.locale {
            Locale::En => "Files touched",
            Locale::Ja => "触られたファイル",
        }
    }

    pub fn touched_intro(&self) -> (r: &'static str)
        ensures
            r@ == msg_touched_intro(self.locale),
    {
        proof { reveal(msg_touched_intro); }
        match self.locale {
            Locale::En => "These paths were written to during the work, and their content was not recorded: they are either outside the snapshotted directories, or they ended up unchanged.",
            Locale::Ja => "作業中に書き込みが発生したパスです。内容は記録していません。スナップショット対象の外にあるか、最終的に内容が変わらなかったものです。",
        }
    }

    pub fn touched_incomplete(&self) -> (r: &'static str)
        ensures
            r@ == msg_touched_incomplete(self.locale),
    {
        proof { reveal(msg_touched_incomplete); }
        match self.locale {
            Locale::En => "Some directories could not be watched, so touches under them were missed:",
            Locale::Ja => "監視できなかったディレクトリがあり、その配下の書き込みは取りこぼしています。",
        }
    }

    pub fn step_touched(&self) -> (r: &'static str)
        ensures
            r@ == msg_step_touched(self.locale),
    {
        proof { reveal(msg_step_touched); }
        match self.locale {
            Locale::En => "Files touched in this step",
            Locale::Ja => "このステップで触られたファイル",
        }
    }

    /// Directories watched for touches only, with no content recorded.
    pub fn watched_directories(&self) -> (r: &'static str)
        ensures
            r@ == msg_watched_directories(self.locale),
    {
        proof { reveal(msg_watched_directories); }
        match self.locale {
            Locale::En => "Watched for touches",
            Locale::Ja => "監視のみの対象",
        }
    }

    pub fn packages_installed(&self) -> (r: &'static str)
        ensures
            r@ == msg_packages_installed(self.locale),
    {
        proof { reveal(msg_packages_installed); }
        match self.locale {
            Locale::En => "Installed",
            Locale::Ja => "追加",
        }
    }

    pub fn packages_removed(&self) -> (r: &'static str)
        ensures
            r@ == msg_packages_removed(self.locale),
    {
        proof { reveal(msg_packages_removed); }
        match self.locale {
            Locale::En => "Removed",
            Locale::Ja => "削除",
        }
    }

    pub fn packages_upgraded(&self) -> (r: &'static str)
        ensures
            r@ == msg_packages_upgraded(self.locale),
    {
        proof { reveal(msg_packages_upgraded); }
        match self.locale {
            Locale::En => "Upgraded",
            Locale::Ja => "更新",
        }
    }

    pub fn repositories_added(&self) -> (r: &'static str)
        ensures
            r@ == msg_repositories_added(self.locale),
    {
        proof { reveal(msg_repositories_added); }
        match self.locale {
            Locale::En => "Repositories enabled",
            Locale::Ja => "有効化されたリポジトリ",
        }
    }

    pub fn repositories_removed(&self) -> (r: &'static str)
        ensures
            r@ == msg_repositories_removed(self.locale),
    {
        proof { reveal(msg_repositories_removed); }
        match self.locale {
            Locale::En => "Repositories disabled",
            Locale::Ja => "無効化されたリポジトリ",
        }
    }

    pub fn modules_added(&self) -> (r: &'static str)
        ensures
            r@ == msg_modules_added(self.locale),
    {
        proof { reveal(msg_modules_added); }
        match self.locale {
            Locale::En => "Module streams enabled",
            Locale::Ja => "有効化されたモジュール",
        }
    }

    pub fn no_package_changes(&self) -> (r: &'static str)
        ensures
            r@ == msg_no_package_changes(self.locale),
    {
        proof { reveal(msg_no_package_changes); }
        match self.locale {
            Locale::En => "No package changes were recorded.",
            Locale::Ja => "パッケージの変更は記録されていません。",
        }
    }

    pub fn packages_unavailable(&self) -> (r: &'static str)
        ensures
            r@ == msg_packages_unavailable(self.locale),
    {
        proof { reveal(msg_packages_unavailable); }
        match self.locale {
            Locale::En => "Package state was not recorded: this host has no rpm.",
            Locale::Ja => "パッケージの状態は記録されていません。このホストに rpm がありません。",
        }
    }

    /// Introduces the reasons the package picture may be incomplete.
    pub fn packages_incomplete(&self) -> (r: &'static str)
        ensures
            r@ == msg_packages_incomplete(self.locale),
    {
        proof { reveal(msg_packages_incomplete); }
        match self.locale {
            Locale::En => "Some package information could not be read:",
            Locale::Ja => "一部のパッケージ情報を取得できませんでした。",
        }
    }

    pub fn services(&self) -> (r: &'static str)
        ensures
            r@ == msg_services(self.locale),
    {
        proof { reveal(msg_services); }
        match self.locale {
            Locale::En => "Services and firewall",
            Locale::Ja => "サービスとファイアウォール",
        }
    }

    pub fn accounts(&self) -> (r: &'static str)
        ensures
            r@ == msg_accounts(self.locale),
    {
        proof { reveal(msg_accounts); }
        match self.locale {
            Locale::En => "Users and groups",
            Locale::Ja => "ユーザーとグループ",
        }
    }

    pub fn units_enabled(&self) -> (r: &'static str)
        ensures
            r@ == msg_units_enabled(self.locale),
    {
        proof { reveal(msg_units_enabled); }
        match self.locale {
            Locale::En => "Enabled at boot",
            Locale::Ja => "自動起動を有効化",
        }
    }

    pub fn units_disabled(&self) -> (r: &'static str)
        ensures
            r@ == msg_units_disabled(self.locale),
    {
        proof { reveal(msg_units_disabled); }
        match self.locale {
            Locale::En => "Disabled at boot",
            Locale::Ja => "自動起動を無効化",
        }
    }

    pub fn services_started(&self) -> (r: &'static str)
        ensures
            r@ == msg_services_started(self.locale),
    {
        proof { reveal(msg_services_started); }
        match self.locale {
            Locale::En => "Running afterwards",
            Locale::Ja => "作業後に稼働中",
        }
    }

    pub fn services_stopped(&self) -> (r: &'static str)
        ensures
            r@ == msg_services_stopped(self.locale),
    {
        proof { reveal(msg_services_stopped); }
        match self.locale {
            Locale::En => "No longer running",
            Locale::Ja => "稼働を停止",
        }
    }

    pub fn firewall_services_added(&self) -> (r: &'static str)
        ensures
            r@ == msg_firewall_services_added(self.locale),
    {
        proof { reveal(msg_firewall_services_added); }
        match self.locale {
            Locale::En => "Firewall services opened",
            Locale::Ja => "許可したサービス",
        }
    }

    pub fn firewall_services_removed(&self) -> (r: &'static str)
        ensures
            r@ == msg_firewall_services_removed(self.locale),
    {
        proof { reveal(msg_firewall_services_removed); }
        match self.locale {
            Locale::En => "Firewall services closed",
            Locale::Ja => "許可を解除したサービス",
        }
    }

    pub fn firewall_ports_added(&self) -> (r: &'static str)
        ensures
            r@ == msg_firewall_ports_added(self.locale),
    {
        proof { reveal(msg_firewall_ports_added); }
        match self.locale {
            Locale::En => "Ports opened",
            Locale::Ja => "開放したポート",
        }
    }

    pub fn firewall_ports_removed(&self) -> (r: &'static str)
        ensures
            r@ == msg_firewall_ports_removed(self.locale),
    {
        proof { reveal(msg_firewall_ports_removed); }
        match self.locale {
            Locale::En => "Ports closed",
            Locale::Ja => "閉じたポート",
        }
    }

    pub fn users_added(&self) -> (r: &'static str)
        ensures
            r@ == msg_users_added(self.locale),
    {
        proof { reveal(msg_users_added); }
        match self.locale {
            Locale::En => "Users added",
            Locale::Ja => "追加したユーザー",
        }
    }

    pub fn users_removed(&self) -> (r: &'static str)
        ensures
            r@ == msg_users_removed(self.locale),
    {
        proof { reveal(msg_users_removed); }
        match self.locale {
            Locale::En => "Users removed",
            Locale::Ja => "削除したユーザー",
        }
    }

    pub fn users_changed(&self) -> (r: &'static str)
        ensures
            r@ == msg_users_changed(self.locale),
    {
        proof { reveal(msg_users_changed); }
        match self.locale {
            Locale::En => "Users changed",
            Locale::Ja => "変更したユーザー",
        }
    }

    pub fn groups_added(&self) -> (r: &'static str)
        ensures
            r@ == msg_groups_added(self.locale),
    {
        proof { reveal(msg_groups_added); }
        match self.locale {
            Locale::En => "Groups added",
            Locale::Ja => "追加したグループ",
        }
    }

    pub fn groups_removed(&self) -> (r: &'static str)
        ensures
            r@ == msg_groups_removed(self.locale),
    {
        proof { reveal(msg_groups_removed); }
        match self.locale {
            Locale::En => "Groups removed",
            Locale::Ja => "削除したグループ",
        }
    }

    pub fn no_state_changes(&self) -> (r: &'static str)
        ensures
            r@ == msg_no_state_changes(self.locale),
    {
        proof { reveal(msg_no_state_changes); }
        match self.locale {
            Locale::En => "No service, firewall, user or group changes were recorded.",
            Locale::Ja => "サービス、ファイアウォール、ユーザー、グループの変更は記録されていません。",
        }
    }

    pub fn systemd_unavailable(&self) -> (r: &'static str)
        ensures
            r@ == msg_systemd_unavailable(self.locale),
    {
        proof { reveal(msg_systemd_unavailable); }
        match self.locale {
            Locale::En => "Service state was not recorded: systemd did not answer, as happens inside a container.",
            Locale::Ja => "サービスの状態は記録されていません。コンテナ内などで systemd が応答しなかったためです。",
        }
    }

    pub fn firewall_unavailable(&self) -> (r: &'static str)
        ensures
            r@ == msg_firewall_unavailable(self.locale),
    {
        proof { reveal(msg_firewall_unavailable); }
        match self.locale {
            Locale::En => "Firewall rules were not recorded: firewalld did not answer.",
            Locale::Ja => "ファイアウォールの設定は記録されていません。firewalld が応答しなかったためです。",
        }
    }

    pub fn step_state(&self) -> (r: &'static str)
        ensures
            r@ == msg_step_state(self.locale),
    {
        proof { reveal(msg_step_state); }
        match self.locale {
            Locale::En => "Services and accounts changed in this step",
            Locale::Ja => "このステップで変更したサービスとアカウント",
        }
    }

    pub fn rollback_state(&self) -> (r: &'static str)
        ensures
            r@ == msg_rollback_state(self.locale),
    {
        proof { reveal(msg_rollback_state); }
        match self.locale {
            Locale::En => "Services to disable and accounts to remove",
            Locale::Ja => "無効化するサービスと削除するアカウント",
        }
    }

    pub fn playbook_review(&self) -> (r: &'static str)
        ensures
            r@ == msg_playbook_review(self.locale),
    {
        proof { reveal(msg_playbook_review); }
        match self.locale {
            Locale::En => "Review before running. Tasks come from what was observed before and after the work, not from a declaration of intent. A command that no probe could express is replayed as it was typed and is not idempotent.\nThe firewall tasks need the ansible.posix collection.",
            Locale::Ja => "実行する前に内容を確認してください。タスクは作業の前後で観測した差分から作られており、意図の宣言ではありません。観測で表せなかったコマンドは入力どおり再実行されるため、冪等ではありません。\nファイアウォールのタスクには ansible.posix コレクションが必要です。",
        }
    }

    pub fn playbook_unattributed(&self) -> (r: &'static str)
        ensures
            r@ == msg_playbook_unattributed(self.locale),
    {
        proof { reveal(msg_playbook_unattributed); }
        match self.locale {
            Locale::En => "Changes that belong to no single step.",
            Locale::Ja => "特定のステップに割り当てられなかった変更。",
        }
    }

    pub fn playbook_empty(&self) -> (r: &'static str)
        ensures
            r@ == msg_playbook_empty(self.locale),
    {
        proof { reveal(msg_playbook_empty); }
        match self.locale {
            Locale::En => "The session recorded nothing that can be replayed.",
            Locale::Ja => "再実行できる変更は記録されていません。",
        }
    }

    pub fn todo_idempotent(&self) -> (r: &'static str)
        ensures
            r@ == msg_todo_idempotent(self.locale),
    {
        proof { reveal(msg_todo_idempotent); }
        match self.locale {
            Locale::En => "TODO: make idempotent. This command is replayed as it was typed.",
            Locale::Ja => "要対応: 冪等ではありません。このコマンドは入力どおり再実行されます。",
        }
    }

    pub fn name(&self) -> (r: &'static str)
        ensures
            r@ == msg_name(self.locale),
    {
        proof { reveal(msg_name); }
        match self.locale {
            Locale::En => "Name",
            Locale::Ja => "名前",
        }
    }

    pub fn version(&self) -> (r: &'static str)
        ensures
            r@ == msg_version(self.locale),
    {
        proof { reveal(msg_version); }
        match self.locale {
            Locale::En => "Version",
            Locale::Ja => "バージョン",
        }
    }

    pub fn no_changes(&self) -> (r: &'static str)
        ensures
            r@ == msg_no_changes(self.locale),
    {
        proof { reveal(msg_no_changes); }
        match self.locale {
            Locale::En => "No file changes were recorded.",
            Locale::Ja => "ファイルの変更は記録されていません。",
        }
    }

    pub fn path(&self) -> (r: &'static str)
        ensures
            r@ == msg_path(self.locale),
    {
        proof { reveal(msg_path); }
        match self.locale {
            Locale::En => "Path",
            Locale::Ja => "パス",
        }
    }

    pub fn change(&self) -> (r: &'static str)
        ensures
            r@ == msg_change(self.locale),
    {
        proof { reveal(msg_change); }
        match self.locale {
            Locale::En => "Change",
            Locale::Ja => "変更",
        }
    }

    pub fn verification(&self) -> (r: &'static str)
        ensures
            r@ == msg_verification(self.locale),
    {
        proof { reveal(msg_verification); }
        match self.locale {
            Locale::En => "Verification",
            Locale::Ja => "確認手順",
        }
    }

    pub fn verification_intro(&self) -> (r: &'static str)
        ensures
            r@ == msg_verification_intro(self.locale),
    {
        proof { reveal(msg_verification_intro); }
        match self.locale {
            Locale::En => "These commands were run during the work and look like checks. Write down what each should show.",
            Locale::Ja => "作業中に実行された、確認と思われるコマンドです。それぞれの期待結果を記入してください。",
        }
    }

    pub fn verification_none(&self) -> (r: &'static str)
        ensures
            r@ == msg_verification_none(self.locale),
    {
        proof { reveal(msg_verification_none); }
        match self.locale {
            Locale::En => "No commands looked like checks. Add the ones a reader should run.",
            Locale::Ja => "確認に見えるコマンドはありませんでした。読み手が実行すべき確認を追加してください。",
        }
    }

    pub fn expected_result(&self) -> (r: &'static str)
        ensures
            r@ == msg_expected_result(self.locale),
    {
        proof { reveal(msg_expected_result); }
        match self.locale {
            Locale::En => "Expected result",
            Locale::Ja => "期待結果",
        }
    }

    pub fn rollback(&self) -> (r: &'static str)
        ensures
            r@ == msg_rollback(self.locale),
    {
        proof { reveal(msg_rollback); }
        match self.locale {
            Locale::En => "Rollback",
            Locale::Ja => "切り戻し",
        }
    }

    pub fn rollback_disclaimer(&self) -> (r: &'static str)
        ensures
            r@ == msg_rollback_disclaimer(self.locale),
    {
        proof { reveal(msg_rollback_disclaimer); }
        match self.locale {
            Locale::En => "**These steps are generated candidates, not a verified rollback procedure.** Removing a package does not undo what installing it changed. Restoring a file does not undo what a service did while it was running. The order in which things must be undone cannot be derived from the record. Review and test every step before relying on it.",
            Locale::Ja => "**以下は自動生成した候補であり、検証された切り戻し手順ではありません。** パッケージを削除しても、インストール時に加わった変更は元に戻りません。ファイルを戻しても、その設定で動作していたサービスの処理は取り消せません。どの順序で戻すべきかは記録からは導けません。実際に使う前に、必ず内容を確認し、試してください。",
        }
    }

    pub fn rollback_packages(&self) -> (r: &'static str)
        ensures
            r@ == msg_rollback_packages(self.locale),
    {
        proof { reveal(msg_rollback_packages); }
        match self.locale {
            Locale::En => "Packages to remove",
            Locale::Ja => "削除するパッケージ",
        }
    }

    pub fn rollback_files(&self) -> (r: &'static str)
        ensures
            r@ == msg_rollback_files(self.locale),
    {
        proof { reveal(msg_rollback_files); }
        match self.locale {
            Locale::En => "Files to restore to their recorded content",
            Locale::Ja => "記録時点の内容に戻すファイル",
        }
    }

    pub fn rollback_none(&self) -> (r: &'static str)
        ensures
            r@ == msg_rollback_none(self.locale),
    {
        proof { reveal(msg_rollback_none); }
        match self.locale {
            Locale::En => "Nothing was detected that would need undoing.",
            Locale::Ja => "戻す必要がある変更は検出されませんでした。",
        }
    }

    pub fn appendix_log(&self) -> (r: &'static str)
        ensures
            r@ == msg_appendix_log(self.locale),
    {
        proof { reveal(msg_appendix_log); }
        match self.locale {
            Locale::En => "Appendix A: full command log",
            Locale::Ja => "付録A: 全コマンド記録",
        }
    }

    pub fn appendix_log_intro(&self) -> (r: &'static str)
        ensures
            r@ == msg_appendix_log_intro(self.locale),
    {
        proof { reveal(msg_appendix_log_intro); }
        match self.locale {
            Locale::En => "Everything that ran, in order, including failures and retries.",
            Locale::Ja => "実行されたすべてのコマンドを、失敗や再試行も含めて順に並べています。",
        }
    }

    pub fn appendix_diffs(&self) -> (r: &'static str)
        ensures
            r@ == msg_appendix_diffs(self.locale),
    {
        proof { reveal(msg_appendix_diffs); }
        match self.locale {
            Locale::En => "Appendix B: full diffs of the files shortened above",
            Locale::Ja => "付録B: 本文で省略した差分の全文",
        }
    }

    pub fn appendix_generated(&self) -> (r: &'static str)
        ensures
            r@ == msg_appendix_generated(self.locale),
    {
        proof { reveal(msg_appendix_generated); }
        match self.locale {
            Locale::En => "Appendix B: how this was generated",
            Locale::Ja => "付録B: この文書の生成条件",
        }
    }

    pub fn appendix_generated_after_diffs(&self) -> (r: &'static str)
        ensures
            r@ == msg_appendix_generated_after_diffs(self.locale),
    {
        proof { reveal(msg_appendix_generated_after_diffs); }
        match self.locale {
            Locale::En => "Appendix C: how this was generated",
            Locale::Ja => "付録C: この文書の生成条件",
        }
    }

    pub fn time(&self) -> (r: &'static str)
        ensures
            r@ == msg_time(self.locale),
    {
        proof { reveal(msg_time); }
        match self.locale {
            Locale::En => "Time",
            Locale::Ja => "時刻",
        }
    }

    pub fn command(&self) -> (r: &'static str)
        ensures
            r@ == msg_command(self.locale),
    {
        proof { reveal(msg_command); }
        match self.locale {
            Locale::En => "Command",
            Locale::Ja => "コマンド",
        }
    }

    pub fn exit_code(&self) -> (r: &'static str)
        ensures
            r@ == msg_exit_code(self.locale),
    {
        proof { reveal(msg_exit_code); }
        match self.locale {
            Locale::En => "Exit",
            Locale::Ja => "終了コード",
        }
    }

    pub fn still_running(&self) -> (r: &'static str)
        ensures
            r@ == msg_still_running(self.locale),
    {
        proof { reveal(msg_still_running); }
        match self.locale {
            Locale::En => "(no exit recorded)",
            Locale::Ja => "（終了コードなし）",
        }
    }

    /// Directories whose content is snapshotted and diffed.
    pub fn snapshot_directories(&self) -> (r: &'static str)
        ensures
            r@ == msg_snapshot_directories(self.locale),
    {
        proof { reveal(msg_snapshot_directories); }
        match self.locale {
            Locale::En => "Snapshotted directories",
            Locale::Ja => "スナップショット対象ディレクトリ",
        }
    }

    pub fn generated_by(&self) -> (r: &'static str)
        ensures
            r@ == msg_generated_by(self.locale),
    {
        proof { reveal(msg_generated_by); }
        match self.locale {
            Locale::En => "Generated by",
            Locale::Ja => "生成ツール",
        }
    }

    pub fn generated_note(&self) -> (r: &'static str)
        ensures
            r@ == msg_generated_note(self.locale),
    {
        proof { reveal(msg_generated_note); }
        match self.locale {
            Locale::En => "Files that change on their own are excluded, and the content of files matching a secret pattern is never recorded.",
            Locale::Ja => "自動的に変化するファイルは除外し、機密と判定されたファイルの内容は記録していません。",
        }
    }

    pub fn todo(&self) -> (r: &'static str)
        ensures
            r@ == msg_todo(self.locale),
    {
        proof { reveal(msg_todo); }
        match self.locale {
            Locale::En => "TODO",
            Locale::Ja => "要記入",
        }
    }
}

// ----------------------------------------------------------------------------
// Laws.

/// The headings and the fixed text of the runbook read differently in
/// English and in Japanese: every one of them is translated.
pub proof fn law_messages_differ_by_locale()
    ensures
        msg_runbook_title(Locale::En) != msg_runbook_title(Locale::Ja),
        msg_purpose(Locale::En) != msg_purpose(Locale::Ja),
        msg_overview(Locale::En) != msg_overview(Locale::Ja),
        msg_prerequisites(Locale::En) != msg_prerequisites(Locale::Ja),
        msg_procedure(Locale::En) != msg_procedure(Locale::Ja),
        msg_what_changed(Locale::En) != msg_what_changed(Locale::Ja),
        msg_verification(Locale::En) != msg_verification(Locale::Ja),
        msg_rollback(Locale::En) != msg_rollback(Locale::Ja),
        msg_appendix_log(Locale::En) != msg_appendix_log(Locale::Ja),
        msg_appendix_generated(Locale::En) != msg_appendix_generated(Locale::Ja),
        msg_todo(Locale::En) != msg_todo(Locale::Ja),
        msg_rollback_disclaimer(Locale::En) != msg_rollback_disclaimer(Locale::Ja),
{
    reveal(msg_runbook_title);
    reveal_strlit("Build runbook");
    reveal_strlit("構築手順書");
    assert(msg_runbook_title(Locale::En)[0] != msg_runbook_title(Locale::Ja)[0]);
    reveal(msg_purpose);
    reveal_strlit("Purpose");
    reveal_strlit("目的");
    assert(msg_purpose(Locale::En)[0] != msg_purpose(Locale::Ja)[0]);
    reveal(msg_overview);
    reveal_strlit("Overview of the work");
    reveal_strlit("作業の全体像");
    assert(msg_overview(Locale::En)[0] != msg_overview(Locale::Ja)[0]);
    reveal(msg_prerequisites);
    reveal_strlit("Prerequisites");
    reveal_strlit("前提条件");
    assert(msg_prerequisites(Locale::En)[0] != msg_prerequisites(Locale::Ja)[0]);
    reveal(msg_procedure);
    reveal_strlit("Procedure");
    reveal_strlit("手順");
    assert(msg_procedure(Locale::En)[0] != msg_procedure(Locale::Ja)[0]);
    reveal(msg_what_changed);
    reveal_strlit("What changed");
    reveal_strlit("変更されたもの");
    assert(msg_what_changed(Locale::En)[0] != msg_what_changed(Locale::Ja)[0]);
    reveal(msg_verification);
    reveal_strlit("Verification");
    reveal_strlit("確認手順");
    assert(msg_verification(Locale::En)[0] != msg_verification(Locale::Ja)[0]);
    reveal(msg_rollback);
    reveal_strlit("Rollback");
    reveal_strlit("切り戻し");
    assert(msg_rollback(Locale::En)[0] != msg_rollback(Locale::Ja)[0]);
    reveal(msg_appendix_log);
    reveal_strlit("Appendix A: full command log");
    reveal_strlit("付録A: 全コマンド記録");
    assert(msg_appendix_log(Locale::En)[0] != msg_appendix_log(Locale::Ja)[0]);
    reveal(msg_appendix_generated);
    reveal_strlit("Appendix B: how this was generated");
    reveal_strlit("付録B: この文書の生成条件");
    assert(msg_appendix_generated(Locale::En)[0] != msg_appendix_generated(Locale::Ja)[0]);
    reveal(msg_todo);
    reveal_strlit("TODO");
    reveal_strlit("要記入");
    assert(msg_todo(Locale::En)[0] != msg_todo(Locale::Ja)[0]);
    reveal(msg_rollback_disclaimer);
    reveal_strlit("**These steps are generated candidates, not a verified rollback procedure.** Removing a package does not undo what installing it changed. Restoring a file does not undo what a service did while it was running. The order in which things must be undone cannot be derived from the record. Review and test every step before relying on it.");
    reveal_strlit("**以下は自動生成した候補であり、検証された切り戻し手順ではありません。** パッケージを削除しても、インストール時に加わった変更は元に戻りません。ファイルを戻しても、その設定で動作していたサービスの処理は取り消せません。どの順序で戻すべきかは記録からは導けません。実際に使う前に、必ず内容を確認し、試してください。");
    assert(msg_rollback_disclaimer(Locale::En)[2] != msg_rollback_disclaimer(Locale::Ja)[2]);
}

/// Each appendix has a letter of its own: the command log is A, the full
/// diffs B, and the notes on how the document was made come after them, B
/// when there are no full diffs and C when there are.
pub proof fn law_appendices_have_their_own_letter(l: Locale)
    ensures
        msg_appendix_log(l) != msg_appendix_diffs(l),
        msg_appendix_log(l) != msg_appendix_generated(l),
        msg_appendix_diffs(l) != msg_appendix_generated_after_diffs(l),
        msg_appendix_log(l) != msg_appendix_generated_after_diffs(l),
{
    reveal(msg_appendix_log);
    reveal(msg_appendix_diffs);
    reveal(msg_appendix_generated);
    reveal(msg_appendix_generated_after_diffs);
    reveal_strlit("Appendix A: full command log");
    reveal_strlit("付録A: 全コマンド記録");
    reveal_strlit("Appendix B: full diffs of the files shortened above");
    reveal_strlit("付録B: 本文で省略した差分の全文");
    reveal_strlit("Appendix B: how this was generated");
    reveal_strlit("付録B: この文書の生成条件");
    reveal_strlit("Appendix C: how this was generated");
    reveal_strlit("付録C: この文書の生成条件");
    match l {
        Locale::En => {
            assert(msg_appendix_log(l)[9] != msg_appendix_diffs(l)[9]);
            assert(msg_appendix_log(l)[9] != msg_appendix_generated(l)[9]);
            assert(msg_appendix_diffs(l)[9] != msg_appendix_generated_after_diffs(l)[9]);
            assert(msg_appendix_log(l)[9] != msg_appendix_generated_after_diffs(l)[9]);
        },
        Locale::Ja => {
            assert(msg_appendix_log(l)[2] != msg_appendix_diffs(l)[2]);
            assert(msg_appendix_log(l)[2] != msg_appendix_generated(l)[2]);
            assert(msg_appendix_diffs(l)[2] != msg_appendix_generated_after_diffs(l)[2]);
            assert(msg_appendix_log(l)[2] != msg_appendix_generated_after_diffs(l)[2]);
        },
    }
}

/// In English the kind of a change reads as its label; in Japanese each of
/// the four labels has a word of its own.
pub proof fn law_change_kind_follows_the_label(c: crate::diff::ChangeV)
    ensures
        msg_change_kind(Locale::En, crate::diff::change_label(c)) == crate::diff::change_label(c),
        msg_change_kind(Locale::Ja, crate::diff::change_label(c)) == (match c {
            crate::diff::ChangeV::Added(_) => "追加"@,
            crate::diff::ChangeV::Removed(_) => "削除"@,
            crate::diff::ChangeV::Modified(..) => "変更"@,
            crate::diff::ChangeV::MetadataChanged(..) => "権限"@,
        }),
{
    reveal(msg_change_kind);
    reveal_strlit("added");
    reveal_strlit("removed");
    reveal_strlit("modified");
    reveal_strlit("permissions");
    assert("added"@[0] != "removed"@[0] && "added"@[0] != "modified"@[0] && "removed"@[0] != "modified"@[0]);
}

} // verus!
