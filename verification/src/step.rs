//! Turns recorded events and file changes into the steps a runbook is made of.

use vstd::prelude::*;
use vstd::multiset::Multiset;

use crate::diff::{change_path, changes, Change, ChangeV};
use crate::event::{events, Event, EventKind, EventKindV, EventV};
use crate::order::strs;
use crate::packages::{pkgs, Package, PackageV};
use crate::text::{
    chars_of, contains, contains_chars, ends_with, has_char, has_suffix, is_whitespace,
    is_ws, lemma_filter_map_step, lemma_split_nonempty, lemma_trim_start_skip, push_str,
    seq_equal, split, split_chars, utf8_len, utf8_len_exec, str_eq, string_of, strip_both, strip_both_chars, trim,
    trim_chars, trim_start, words, words_chars,
};

verus! {

// ----------------------------------------------------------------------------
// Commands.

/// One command as it ran.
#[derive(Debug, Clone, PartialEq)]
pub struct CommandRun {
    /// When it started, in nanoseconds since the Unix epoch.
    pub ts: i128,
    pub cmd: String,
    pub cwd: String,
    /// `None` while it has not finished.
    pub exit_code: Option<i32>,
}

pub struct RunV {
    pub ts: i128,
    pub cmd: Seq<char>,
    pub cwd: Seq<char>,
    pub exit_code: Option<i32>,
}

impl View for CommandRun {
    type V = RunV;

    open spec fn view(&self) -> RunV {
        RunV { ts: self.ts, cmd: self.cmd@, cwd: self.cwd@, exit_code: self.exit_code }
    }
}

pub open spec fn runs(s: Seq<CommandRun>) -> Seq<RunV> {
    s.map_values(|r: CommandRun| r@)
}

pub proof fn lemma_runs_push(s: Seq<CommandRun>, x: CommandRun)
    ensures
        runs(s.push(x)) == runs(s).push(x@),
{
    assert(runs(s.push(x)) =~= runs(s).push(x@));
}

pub open spec fn ran_ok(r: RunV) -> bool {
    r.exit_code == Some(0i32)
}

impl CommandRun {
    pub fn succeeded(&self) -> (r: bool)
        ensures
            r == ran_ok(self@),
    {
        match self.exit_code {
            Some(code) => code == 0,
            None => false,
        }
    }

    pub fn duplicate(&self) -> (r: CommandRun)
        ensures
            r@ == self@,
    {
        CommandRun {
            ts: self.ts,
            cmd: self.cmd.clone(),
            cwd: self.cwd.clone(),
            exit_code: self.exit_code,
        }
    }
}

// ----------------------------------------------------------------------------
// Which commands are instructions.

/// The characters of `s` up to the first white space.
pub open spec fn first_word(s: Seq<char>) -> Seq<char>
    decreases s.len(),
{
    if s.len() == 0 || is_ws(s[0]) {
        Seq::empty()
    } else {
        seq![s[0]] + first_word(s.drop_first())
    }
}

pub proof fn lemma_first_word(s: Seq<char>, j: int)
    requires
        0 <= j <= s.len(),
        forall|k: int| 0 <= k < j ==> !is_ws(#[trigger] s[k]),
        j == s.len() || is_ws(s[j]),
    ensures
        first_word(s) == s.take(j),
    decreases j,
{
    if j == 0 {
        assert(s.take(0) =~= Seq::<char>::empty());
    } else {
        assert(!is_ws(s[0]));
        assert forall|k: int| 0 <= k < j - 1 implies !is_ws(#[trigger] s.drop_first()[k]) by {
            assert(s.drop_first()[k] == s[k + 1]);
        }
        if j < s.len() {
            assert(s.drop_first()[j - 1] == s[j]);
        }
        lemma_first_word(s.drop_first(), j - 1);
        assert(seq![s[0]] + s.drop_first().take(j - 1) =~= s.take(j));
    }
}

pub proof fn lemma_first_word_len(s: Seq<char>)
    ensures
        first_word(s).len() <= s.len(),
    decreases s.len(),
{
    if s.len() > 0 && !is_ws(s[0]) {
        lemma_first_word_len(s.drop_first());
    }
}

pub proof fn lemma_trim_start_len(s: Seq<char>)
    ensures
        trim_start(s).len() <= s.len(),
    decreases s.len(),
{
    if s.len() > 0 && is_ws(s[0]) {
        lemma_trim_start_len(s.drop_first());
    }
}

/// A word that comes before the command proper: `sudo`, `command`, or an
/// environment assignment such as `LANG=C`.
pub open spec fn skipped_word(w: Seq<char>) -> bool {
    w.len() > 0 && (w == "sudo"@ || w == "command"@ || (w.contains('=') && w[0] != '='))
}

/// The first word of `rest`, looking past the words that come before the
/// command proper.
pub open spec fn head_of(rest: Seq<char>) -> Seq<char>
    decreases rest.len(),
{
    let w = first_word(rest);
    if skipped_word(w) {
        proof {
            lemma_first_word_len(rest);
            lemma_trim_start_len(rest.skip(w.len() as int));
        }
        head_of(trim_start(rest.skip(w.len() as int)))
    } else {
        w
    }
}

pub open spec fn command_head(cmd: Seq<char>) -> Seq<char> {
    head_of(trim(cmd))
}

/// First word of the command, with `sudo` and leading environment assignments
/// stripped, so `sudo dnf install` is judged on `dnf`.
pub fn head(cmd: &str) -> (r: String)
    ensures
        r@ == command_head(cmd@),
{
    let src = chars_of(cmd);
    let t = trim_chars(&src);
    let mut i: usize = 0;
    assert(t@.skip(0) == t@);
    loop
        invariant
            i <= t@.len(),
            t@ == trim(cmd@),
            head_of(t@.skip(i as int)) == command_head(cmd@),
        decreases t@.len() - i,
    {
        let mut j = i;
        while j < t.len() && !is_whitespace(t[j])
            invariant
                i <= j <= t@.len(),
                forall|k: int| i <= k < j ==> !is_ws(#[trigger] t@[k]),
            decreases t.len() - j,
        {
            j = j + 1;
        }
        let ghost rest = t@.skip(i as int);
        proof {
            assert forall|k: int| 0 <= k < j - i implies !is_ws(#[trigger] rest[k]) by {
                assert(rest[k] == t@[i + k]);
            }
            if j < t@.len() {
                assert(rest[j - i] == t@[j as int]);
            }
            lemma_first_word(rest, j - i);
            assert(rest.take(j - i) =~= t@.subrange(i as int, j as int));
        }
        let word = string_of(&t, i, j);
        let wv = chars_of(word.as_str());
        let skip = j > i && (str_eq(word.as_str(), "sudo") || str_eq(word.as_str(), "command")
            || (has_char(&wv, '=') && t[i] != '='));
        if j > i {
            assert(word@[0] == t@[i as int]);
        }
        if !skip {
            return word;
        }
        let mut k = j;
        while k < t.len() && is_whitespace(t[k])
            invariant
                j <= k <= t@.len(),
                forall|m: int| j <= m < k ==> is_ws(#[trigger] t@[m]),
            decreases t.len() - k,
        {
            k = k + 1;
        }
        proof {
            let after = t@.skip(j as int);
            assert(rest.skip(j - i) == after);
            assert forall|m: int| 0 <= m < k - j implies is_ws(#[trigger] after[m]) by {
                assert(after[m] == t@[j + m]);
            }
            lemma_trim_start_skip(after, k - j);
            assert(after.skip(k - j) == t@.skip(k as int));
            if k < t@.len() {
                assert(t@.skip(k as int)[0] == t@[k as int]);
            }
            assert(trim_start(t@.skip(k as int)) == t@.skip(k as int));
        }
        i = k;
    }
}

pub open spec fn noise_words() -> Seq<Seq<char>> {
    seq![
        "exit"@, "logout"@, "clear"@, "pwd"@, "history"@, "ls"@, "ll"@, "la"@, "cat"@,
        "less"@, "more"@, "tail"@, "head"@, "man"@, "top"@, "htop"@, "df"@, "free"@, "id"@,
        "whoami"@, "date"@, "env"@, "printenv"@, "which"@, "type"@, "ps"@, "grep"@, "find"@,
        "diff"@, "vi"@, "vim"@, "nano"@, "emacs"@, "view"@,
    ]
}

/// A command that inspects rather than changes, or exarare's own bookkeeping.
pub open spec fn noisy(cmd: Seq<char>) -> bool {
    command_head(cmd) == "exarare"@ || noise_words().contains(command_head(cmd))
}

/// Commands that inspect rather than change, so they are not instructions.
pub fn is_noise(cmd: &str) -> (r: bool)
    ensures
        r == noisy(cmd@),
{
    let h = head(cmd);
    if str_eq(h.as_str(), "exarare") {
        return true;
    }
    let noise = [
        "exit", "logout", "clear", "pwd", "history", "ls", "ll", "la", "cat", "less", "more",
        "tail", "head", "man", "top", "htop", "df", "free", "id", "whoami", "date", "env",
        "printenv", "which", "type", "ps", "grep", "find", "diff", "vi", "vim", "nano", "emacs",
        "view",
    ];
    let ghost words_seq = noise@.map_values(|p: &str| p@);
    assert(words_seq =~= noise_words());
    let mut i: usize = 0;
    while i < noise.len()
        invariant
            i <= noise@.len(),
            words_seq == noise@.map_values(|p: &str| p@),
            words_seq == noise_words(),
            h@ == command_head(cmd@),
            h@ != "exarare"@,
            forall|k: int| 0 <= k < i ==> #[trigger] words_seq[k] != h@,
        decreases noise.len() - i,
    {
        if str_eq(h.as_str(), noise[i]) {
            assert(words_seq[i as int] == h@);
            assert(noise_words().contains(h@));
            return true;
        }
        i = i + 1;
    }
    false
}

pub open spec fn verification_patterns() -> Seq<Seq<char>> {
    seq![
        "systemctl status"@, "systemctl is-active"@, "systemctl is-enabled"@,
        "systemctl list-unit-files"@, "journalctl"@, "curl"@, "wget -q -O-"@, "ss "@,
        "netstat"@, "ping"@, "dig"@, "nslookup"@, "rpm -q"@, "dnf list installed"@,
        "firewall-cmd --list"@, "getenforce"@, "sestatus"@, "nginx -t"@, "httpd -t"@,
        "sshd -t"@, "openssl s_client"@,
    ]
}

/// A command that reads state back, and so belongs in the verification
/// chapter.
pub open spec fn checks(cmd: Seq<char>) -> bool {
    ||| exists|i: int| 0 <= i < verification_patterns().len()
            && #[trigger] contains(trim(cmd), verification_patterns()[i])
    ||| ends_with(trim(cmd), "--version"@)
    ||| ends_with(trim(cmd), "-V"@)
}

pub fn is_verification(cmd: &str) -> (r: bool)
    ensures
        r == checks(cmd@),
{
    let src = chars_of(cmd);
    let t = trim_chars(&src);
    let patterns = [
        "systemctl status", "systemctl is-active", "systemctl is-enabled",
        "systemctl list-unit-files", "journalctl", "curl", "wget -q -O-", "ss ", "netstat",
        "ping", "dig", "nslookup", "rpm -q", "dnf list installed", "firewall-cmd --list",
        "getenforce", "sestatus", "nginx -t", "httpd -t", "sshd -t", "openssl s_client",
    ];
    let ghost ps = patterns@.map_values(|p: &str| p@);
    assert(ps =~= verification_patterns());
    let mut i: usize = 0;
    while i < patterns.len()
        invariant
            i <= patterns@.len(),
            ps == patterns@.map_values(|p: &str| p@),
            ps == verification_patterns(),
            t@ == trim(cmd@),
            forall|k: int| 0 <= k < i ==> !#[trigger] contains(t@, ps[k]),
        decreases patterns.len() - i,
    {
        let p = chars_of(patterns[i]);
        if contains_chars(&t, &p) {
            assert(contains(t@, ps[i as int]));
            return true;
        }
        i = i + 1;
    }
    let v = chars_of("--version");
    let short = chars_of("-V");
    has_suffix(&t, &v) || has_suffix(&t, &short)
}

/// Whether a command line qualifies as an instruction of the procedure: it
/// worked, and it neither inspects nor checks.
pub open spec fn instruction(r: RunV) -> bool {
    ran_ok(r) && !noisy(r.cmd) && !checks(r.cmd)
}

pub fn is_instruction(run: &CommandRun) -> (r: bool)
    ensures
        r == instruction(run@),
{
    run.succeeded() && !is_noise(run.cmd.as_str()) && !is_verification(run.cmd.as_str())
}

// ----------------------------------------------------------------------------
// Which command names a path or an item.

/// A part of a path between two `/` that names something: not empty and not
/// `.`, which `std::path::Path` skips.
pub open spec fn named_part(x: Seq<char>) -> bool {
    x.len() > 0 && x != seq!['.']
}

/// The last part of `parts` that names something.
pub open spec fn last_named(parts: Seq<Seq<char>>) -> Option<Seq<char>>
    decreases parts.len(),
{
    if parts.len() == 0 {
        None
    } else if named_part(parts.last()) {
        Some(parts.last())
    } else {
        last_named(parts.drop_last())
    }
}

/// The final component of `path`, as `std::path::Path::file_name` gives it
/// on Unix: the last part between `/` that names something, unless that part
/// is `..`.
pub open spec fn path_file_name(path: Seq<char>) -> Option<Seq<char>> {
    match last_named(split(path, '/')) {
        Some(n) => if n == seq!['.', '.'] { None } else { Some(n) },
        None => None,
    }
}

pub(crate) fn is_named_part(x: &Vec<char>) -> (r: bool)
    ensures
        r == named_part(x@),
{
    if x.len() == 0 {
        return false;
    }
    if x.len() == 1 && x[0] == '.' {
        assert(x@ =~= seq!['.']);
        return false;
    }
    assert(x@.len() != 1 ==> x@ != seq!['.']);
    true
}

/// The final component of `path`.
fn file_name(path: &str) -> (r: Option<String>)
    ensures
        match r {
            Some(n) => path_file_name(path@) == Some(n@),
            None => path_file_name(path@).is_none(),
        },
{
    let c = chars_of(path);
    let parts = split_chars(&c, '/');
    let ghost ps = crate::text::views(parts@);
    let mut i: usize = parts.len();
    assert(ps.take(i as int) =~= ps);
    while i > 0
        invariant
            i <= parts@.len(),
            ps == crate::text::views(parts@),
            ps == split(path@, '/'),
            last_named(ps) == last_named(ps.take(i as int)),
        decreases i,
    {
        assert(ps.take(i as int).last() == parts@[i - 1]@);
        assert(ps.take(i as int).drop_last() =~= ps.take(i - 1));
        if is_named_part(&parts[i - 1]) {
            let n = &parts[i - 1];
            if n.len() == 2 && n[0] == '.' && n[1] == '.' {
                assert(n@ =~= seq!['.', '.']);
                return None;
            }
            assert(n@.len() != 2 ==> n@ != seq!['.', '.']);
            return Some(crate::text::string_of(n.as_slice(), 0, n.len()));
        }
        i = i - 1;
    }
    None
}

/// The quotes and redirections a word of a command line may be wrapped in.
pub open spec fn quote_chars() -> Seq<char> {
    seq!['"', '\'', '>', '<']
}

/// What follows the last `/` of a word, once its quotes are stripped.
pub open spec fn word_file(w: Seq<char>) -> Seq<char> {
    split(strip_both(w, quote_chars()), '/').last()
}

/// Some word of `cmd` ends in the file `name`.
pub open spec fn names_file(cmd: Seq<char>, name: Seq<char>) -> bool {
    exists|i: int| 0 <= i < words(cmd).len() && #[trigger] word_file(words(cmd)[i]) == name
}

/// Whether `cmd` names `path`: in full, or by a file name of more than three
/// bytes that a word of the command ends in. The file name catches a path
/// typed through a symlinked prefix (`/var` for `/private/var` on macOS) and
/// `vi nginx.conf` run inside the directory.
pub open spec fn mentions_path(cmd: Seq<char>, path: Seq<char>) -> bool {
    ||| contains(cmd, path)
    ||| match path_file_name(path) {
        Some(n) => utf8_len(n) > 3 && names_file(cmd, n),
        None => false,
    }
}

/// Paths named in the command line, matched against the changed files.
pub fn mentions(cmd: &str, path: &str) -> (r: bool)
    ensures
        r == mentions_path(cmd@, path@),
{
    let c = chars_of(cmd);
    let p = chars_of(path);
    if contains_chars(&c, &p) {
        return true;
    }
    let name = match file_name(path) {
        Some(n) => n,
        None => return false,
    };
    let nv = chars_of(name.as_str());
    if utf8_len_exec(&nv) <= 3 {
        return false;
    }
    let ws = words_chars(&c);
    let quotes = ['"', '\'', '>', '<'];
    assert(quotes@ =~= quote_chars());
    let mut i: usize = 0;
    while i < ws.len()
        invariant
            i <= ws@.len(),
            crate::text::views(ws@) == words(cmd@),
            quotes@ == quote_chars(),
            nv@ == name@,
            path_file_name(path@) == Some(name@),
            utf8_len(name@) > 3,
            !contains(cmd@, path@),
            forall|k: int| 0 <= k < i ==> #[trigger] word_file(words(cmd@)[k]) != name@,
        decreases ws.len() - i,
    {
        assert(words(cmd@)[i as int] == ws@[i as int]@);
        let w = strip_both_chars(&ws[i], &quotes);
        let parts = split_chars(&w, '/');
        proof { lemma_split_nonempty(w@, '/'); }
        let n = parts.len();
        assert(split(w@, '/').last() == parts@[n - 1]@);
        if seq_equal(&parts[n - 1], &nv) {
            assert(word_file(words(cmd@)[i as int]) == name@);
            assert(names_file(cmd@, name@));
            return true;
        }
        i = i + 1;
    }
    false
}

/// A word of a command that names `name`: the word itself once its quotes
/// are stripped, or, for a unit `x.service`, the word `x`.
pub open spec fn word_is(w: Seq<char>, name: Seq<char>) -> bool {
    strip_both(w, quote_chars()) == name || strip_both(w, quote_chars()) + ".service"@ == name
}

/// Some word of `cmd` names the package, unit or account `name`.
pub open spec fn names(cmd: Seq<char>, name: Seq<char>) -> bool {
    exists|i: int| 0 <= i < words(cmd).len() && #[trigger] word_is(words(cmd)[i], name)
}

/// Whether the command line names a package, a unit or an account: what
/// attributes the item to the step the command belongs to.
pub fn names_item(cmd: &str, name: &str) -> (r: bool)
    ensures
        r == names(cmd@, name@),
{
    let c = chars_of(cmd);
    let ws = words_chars(&c);
    let quotes = ['"', '\'', '>', '<'];
    assert(quotes@ =~= quote_chars());
    let mut i: usize = 0;
    while i < ws.len()
        invariant
            i <= ws@.len(),
            crate::text::views(ws@) == words(cmd@),
            quotes@ == quote_chars(),
            forall|k: int| 0 <= k < i ==> !#[trigger] word_is(words(cmd@)[k], name@),
        decreases ws.len() - i,
    {
        assert(words(cmd@)[i as int] == ws@[i as int]@);
        let w = strip_both_chars(&ws[i], &quotes);
        let bare = string_of(&w, 0, w.len());
        assert(w@.subrange(0, w@.len() as int) == w@);
        let mut unit = string_of(&w, 0, w.len());
        push_str(&mut unit, ".service");
        if str_eq(bare.as_str(), name) || str_eq(unit.as_str(), name) {
            assert(word_is(words(cmd@)[i as int], name@));
            return true;
        }
        i = i + 1;
    }
    false
}

// ----------------------------------------------------------------------------
// Steps.

/// The body of a step, in the order it was recorded, so that a remark stays
/// next to the command it is about.
#[derive(Debug, Clone, PartialEq)]
pub enum Item {
    Command(CommandRun),
    Note(String),
}

pub enum ItemV {
    Command(RunV),
    Note(Seq<char>),
}

impl View for Item {
    type V = ItemV;

    open spec fn view(&self) -> ItemV {
        match self {
            Item::Command(run) => ItemV::Command(run@),
            Item::Note(text) => ItemV::Note(text@),
        }
    }
}

pub open spec fn items(s: Seq<Item>) -> Seq<ItemV> {
    s.map_values(|i: Item| i@)
}

pub proof fn lemma_items_push(s: Seq<Item>, x: Item)
    ensures
        items(s.push(x)) == items(s).push(x@),
{
    assert(items(s.push(x)) =~= items(s).push(x@));
}

/// The commands among the items of a step.
pub open spec fn commands_of(s: Seq<ItemV>) -> Seq<RunV> {
    s.filter_map(|i: ItemV| match i {
        ItemV::Command(r) => Some(r),
        ItemV::Note(_) => None,
    })
}

/// A section of the runbook: what happened under one `exarare step` heading.
#[derive(Debug, Clone, PartialEq)]
pub struct Step {
    /// `None` for work done before the first step, or when none was recorded.
    pub title: Option<String>,
    /// When the heading was recorded; `None` for the work before the first
    /// heading.
    pub started: Option<i128>,
    pub items: Vec<Item>,
    /// File changes a command of this step names by path.
    pub files: Vec<Change>,
    /// Packages installed by name that a command of this step names.
    pub packages: Vec<Package>,
    /// Units, services and accounts that a command of this step names.
    pub state: Vec<String>,
}

pub struct StepV {
    pub title: Option<Seq<char>>,
    pub started: Option<i128>,
    pub items: Seq<ItemV>,
    pub files: Seq<ChangeV>,
    pub packages: Seq<PackageV>,
    pub state: Seq<Seq<char>>,
}

pub open spec fn opt_text(o: Option<String>) -> Option<Seq<char>> {
    match o {
        Some(s) => Some(s@),
        None => None,
    }
}

impl View for Step {
    type V = StepV;

    open spec fn view(&self) -> StepV {
        StepV {
            title: opt_text(self.title),
            started: self.started,
            items: items(self.items@),
            files: changes(self.files@),
            packages: pkgs(self.packages@),
            state: strs(self.state@),
        }
    }
}

pub open spec fn steps(s: Seq<Step>) -> Seq<StepV> {
    s.map_values(|st: Step| st@)
}

pub proof fn lemma_steps_push(s: Seq<Step>, x: Step)
    ensures
        steps(s.push(x)) == steps(s).push(x@),
{
    assert(steps(s.push(x)) =~= steps(s).push(x@));
}

fn clone_title(t: &Option<String>) -> (r: Option<String>)
    ensures
        opt_text(r) == opt_text(*t),
{
    match t {
        Some(s) => Some(s.clone()),
        None => None,
    }
}

impl Step {
    /// The commands of the step, in order.
    pub fn commands(&self) -> (r: Vec<CommandRun>)
        ensures
            runs(r@) == commands_of(items(self.items@)),
    {
        let ghost all = items(self.items@);
        let ghost f = |i: ItemV| match i {
            ItemV::Command(r) => Some(r),
            ItemV::Note(_) => None,
        };
        let mut r: Vec<CommandRun> = Vec::new();
        let mut i: usize = 0;
        assert(all.take(0).filter_map(f) =~= runs(r@));
        while i < self.items.len()
            invariant
                i <= self.items@.len(),
                all == items(self.items@),
                f == (|i: ItemV| match i {
                    ItemV::Command(r) => Some(r),
                    ItemV::Note(_) => None,
                }),
                runs(r@) == all.take(i as int).filter_map(f),
            decreases self.items.len() - i,
        {
            proof { lemma_filter_map_step(all, f, i as int); }
            match &self.items[i] {
                Item::Command(run) => {
                    let c = run.duplicate();
                    proof { lemma_runs_push(r@, c); }
                    r.push(c);
                },
                Item::Note(_) => {},
            }
            i = i + 1;
        }
        assert(all.take(all.len() as int) == all);
        r
    }

    pub fn command_count(&self) -> (r: usize)
        ensures
            r == commands_of(items(self.items@)).len(),
    {
        let ghost all = items(self.items@);
        let ghost f = |i: ItemV| match i {
            ItemV::Command(r) => Some(r),
            ItemV::Note(_) => None,
        };
        let mut n: usize = 0;
        let mut i: usize = 0;
        assert(all.take(0).filter_map(f).len() == 0);
        while i < self.items.len()
            invariant
                i <= self.items@.len(),
                all == items(self.items@),
                f == (|i: ItemV| match i {
                    ItemV::Command(r) => Some(r),
                    ItemV::Note(_) => None,
                }),
                n == all.take(i as int).filter_map(f).len(),
                n <= i,
            decreases self.items.len() - i,
        {
            proof { lemma_filter_map_step(all, f, i as int); }
            match &self.items[i] {
                Item::Command(_) => {
                    n = n + 1;
                },
                Item::Note(_) => {},
            }
            i = i + 1;
        }
        assert(all.take(all.len() as int) == all);
        n
    }
}

#[derive(Debug, Clone)]
pub struct Runbook {
    pub steps: Vec<Step>,
    /// Everything that ran, in order, for the appendix.
    pub log: Vec<CommandRun>,
    /// Changes no step claimed.
    pub other_files: Vec<Change>,
    /// Successful commands that look like checks.
    pub verifications: Vec<CommandRun>,
    /// True when the operator never ran `exarare step`.
    pub without_steps: bool,
    /// The package comparison of the session.
    pub packages: crate::packages::Diff,
    /// Packages installed by name that no step claimed.
    pub other_packages: Vec<Package>,
    /// The service, firewall and account comparison of the session.
    pub state: crate::state::Diff,
}

// ----------------------------------------------------------------------------
// The model of `build`.

/// A recorded item before the exit codes are known: commands are held as
/// indices into the log, which is filled in as `CmdEnd` events arrive.
enum Recorded {
    Command(usize),
    Note(String),
}

pub enum RecV {
    Command(nat),
    Note(Seq<char>),
}

impl View for Recorded {
    type V = RecV;

    closed spec fn view(&self) -> RecV {
        match self {
            Recorded::Command(i) => RecV::Command(*i as nat),
            Recorded::Note(t) => RecV::Note(t@),
        }
    }
}

/// What was recorded under one heading: the heading, if any, and its items.
struct Group {
    title: Option<String>,
    /// When the heading was recorded.
    start: Option<i128>,
    recorded: Vec<Recorded>,
}

pub struct GroupV {
    pub title: Option<Seq<char>>,
    pub start: Option<i128>,
    pub recorded: Seq<RecV>,
}

impl View for Group {
    type V = GroupV;

    closed spec fn view(&self) -> GroupV {
        GroupV { title: opt_text(self.title), start: self.start, recorded: self.recorded@.map_values(|r: Recorded| r@) }
    }
}

spec fn group_views(s: Seq<Group>) -> Seq<GroupV> {
    s.map_values(|g: Group| g@)
}

/// Every command line, in order, each with the exit code of the `CmdEnd`
/// that followed it.
pub open spec fn log_of(evs: Seq<EventV>) -> Seq<RunV>
    decreases evs.len(),
{
    if evs.len() == 0 {
        Seq::empty()
    } else {
        let l = log_of(evs.drop_last());
        let e = evs.last();
        match e.kind {
            EventKindV::CmdStart(cmd, cwd) => l.push(RunV { ts: e.ts, cmd, cwd, exit_code: None }),
            EventKindV::CmdEnd(code) => if l.len() > 0 {
                l.update(
                    l.len() - 1,
                    RunV { ts: l.last().ts, cmd: l.last().cmd, cwd: l.last().cwd, exit_code: Some(code) },
                )
            } else {
                l
            },
            _ => l,
        }
    }
}

/// The headings and what was recorded under each: the first group is the
/// work before any heading.
pub open spec fn groups_of(evs: Seq<EventV>) -> Seq<GroupV>
    decreases evs.len(),
{
    if evs.len() == 0 {
        seq![GroupV { title: None, start: None, recorded: Seq::empty() }]
    } else {
        let g = groups_of(evs.drop_last());
        let n = log_of(evs.drop_last()).len();
        match evs.last().kind {
            EventKindV::CmdStart(..) => g.update(
                g.len() - 1,
                GroupV { title: g.last().title, start: g.last().start, recorded: g.last().recorded.push(RecV::Command(n)) },
            ),
            EventKindV::Note(t) => g.update(
                g.len() - 1,
                GroupV { title: g.last().title, start: g.last().start, recorded: g.last().recorded.push(RecV::Note(t)) },
            ),
            EventKindV::Step(t) => g.push(GroupV { title: Some(t), start: Some(evs.last().ts), recorded: Seq::empty() }),
            _ => g,
        }
    }
}

pub open spec fn rec_ok(r: RecV, n: nat) -> bool {
    match r {
        RecV::Command(i) => i < n,
        RecV::Note(_) => true,
    }
}

/// Every command a group holds is in the log.
pub open spec fn indices_ok(gs: Seq<GroupV>, n: nat) -> bool {
    forall|g: int, j: int|
        0 <= g < gs.len() && 0 <= j < gs[g].recorded.len() ==> #[trigger] rec_ok(gs[g].recorded[j], n)
}

pub proof fn lemma_groups(evs: Seq<EventV>)
    ensures
        groups_of(evs).len() > 0,
        indices_ok(groups_of(evs), log_of(evs).len()),
    decreases evs.len(),
{
    if evs.len() > 0 {
        let prev = evs.drop_last();
        lemma_groups(prev);
        let g = groups_of(prev);
        let n = log_of(prev).len();
        let m = log_of(evs).len();
        assert(n <= m);
        let gs = groups_of(evs);
        assert forall|a: int, j: int| 0 <= a < gs.len() && 0 <= j < gs[a].recorded.len()
            implies #[trigger] rec_ok(gs[a].recorded[j], m) by {
            if a < g.len() && j < g[a].recorded.len() {
                assert(gs[a].recorded[j] == g[a].recorded[j]);
                assert(rec_ok(g[a].recorded[j], n));
            }
        }
    }
}

/// The items of a group as the procedure shows them: instructions and
/// notes, in order.
pub open spec fn group_items(g: GroupV, log: Seq<RunV>) -> Seq<ItemV> {
    g.recorded.filter_map(|r: RecV| match r {
        RecV::Command(i) => if instruction(log[i as int]) {
            Some(ItemV::Command(log[i as int]))
        } else {
            None
        },
        RecV::Note(t) => Some(ItemV::Note(t)),
    })
}

/// A group becomes a step when it has something to show or a heading.
pub open spec fn kept(g: GroupV, log: Seq<RunV>) -> bool {
    group_items(g, log).len() > 0 || g.title.is_some()
}

pub open spec fn kept_groups(gs: Seq<GroupV>, log: Seq<RunV>) -> Seq<GroupV> {
    gs.filter_map(|g: GroupV| if kept(g, log) { Some(g) } else { None })
}

/// Some command of the group, whether it worked or not, names `path`.
pub open spec fn claims(g: GroupV, log: Seq<RunV>, path: Seq<char>) -> bool {
    exists|j: int|
        0 <= j < g.recorded.len() && #[trigger] claims_at(g.recorded[j], log, path)
}

pub open spec fn claims_at(r: RecV, log: Seq<RunV>, path: Seq<char>) -> bool {
    match r {
        RecV::Command(i) => mentions_path(log[i as int].cmd, path),
        RecV::Note(_) => false,
    }
}

/// The first step, from `k` on, that claims `path`.
pub open spec fn first_claim(ks: Seq<GroupV>, log: Seq<RunV>, path: Seq<char>, k: int) -> Option<int>
    decreases ks.len() - k,
{
    if k < 0 || k >= ks.len() {
        None
    } else if claims(ks[k], log, path) {
        Some(k)
    } else {
        first_claim(ks, log, path, k + 1)
    }
}

pub open spec fn owner(ks: Seq<GroupV>, log: Seq<RunV>, path: Seq<char>) -> Option<int> {
    first_claim(ks, log, path, 0)
}

/// The changes step `k` claims, in order.
pub open spec fn files_of(ks: Seq<GroupV>, log: Seq<RunV>, cs: Seq<ChangeV>, k: int) -> Seq<ChangeV> {
    cs.filter_map(|c: ChangeV| if owner(ks, log, change_path(c)) == Some(k) { Some(c) } else { None })
}

/// The changes no step claims.
pub open spec fn unclaimed(ks: Seq<GroupV>, log: Seq<RunV>, cs: Seq<ChangeV>) -> Seq<ChangeV> {
    cs.filter_map(|c: ChangeV| if owner(ks, log, change_path(c)).is_none() { Some(c) } else { None })
}

pub open spec fn step_at(ks: Seq<GroupV>, log: Seq<RunV>, cs: Seq<ChangeV>, k: int) -> StepV {
    StepV {
        title: ks[k].title,
        started: ks[k].start,
        items: group_items(ks[k], log),
        files: files_of(ks, log, cs, k),
        packages: Seq::empty(),
        state: Seq::empty(),
    }
}

/// The steps of a session: one per kept group, each with the changes it
/// claims.
pub open spec fn steps_of(evs: Seq<EventV>, cs: Seq<ChangeV>) -> Seq<StepV> {
    let log = log_of(evs);
    let ks = kept_groups(groups_of(evs), log);
    Seq::new(ks.len(), |k: int| step_at(ks, log, cs, k))
}

pub open spec fn other_files_of(evs: Seq<EventV>, cs: Seq<ChangeV>) -> Seq<ChangeV> {
    let log = log_of(evs);
    unclaimed(kept_groups(groups_of(evs), log), log, cs)
}

/// The commands that worked and read state back.
pub open spec fn verifications_of(log: Seq<RunV>) -> Seq<RunV> {
    log.filter_map(|r: RunV| if ran_ok(r) && checks(r.cmd) { Some(r) } else { None })
}

/// No heading was ever recorded.
pub open spec fn untitled(gs: Seq<GroupV>) -> bool {
    forall|i: int| 0 <= i < gs.len() ==> (#[trigger] gs[i]).title.is_none()
}

// ----------------------------------------------------------------------------
// Building the runbook.

proof fn lemma_group_push(g: Group, r: Recorded)
    ensures
        g.recorded@.push(r).map_values(|x: Recorded| x@) == g@.recorded.push(r@),
{
    assert(g.recorded@.push(r).map_values(|x: Recorded| x@) =~= g@.recorded.push(r@));
}

/// Splits the events into the command log and the groups of work under each
/// heading.
fn collect(evs: &[Event]) -> (r: (Vec<CommandRun>, Vec<Group>))
    ensures
        runs(r.0@) == log_of(events(evs@)),
        group_views(r.1@) == groups_of(events(evs@)),
{
    let ghost all = events(evs@);
    let mut log: Vec<CommandRun> = Vec::new();
    let mut groups: Vec<Group> = Vec::new();
    let first = Group { title: None, start: None, recorded: Vec::new() };
    assert(first@.recorded =~= Seq::<RecV>::empty());
    groups.push(first);
    assert(group_views(groups@) =~= groups_of(all.take(0)));
    assert(runs(log@) =~= log_of(all.take(0)));
    let mut i: usize = 0;
    while i < evs.len()
        invariant
            i <= evs@.len(),
            all == events(evs@),
            runs(log@) == log_of(all.take(i as int)),
            group_views(groups@) == groups_of(all.take(i as int)),
        decreases evs.len() - i,
    {
        let ghost prev = all.take(i as int);
        let ghost gv = group_views(groups@);
        let ghost lv = runs(log@);
        assert(all.take(i + 1).drop_last() == prev);
        assert(all.take(i + 1).last() == evs@[i as int]@);
        proof { lemma_groups(prev); }
        let ev = &evs[i];
        match &ev.kind {
            EventKind::CmdStart { cmd, cwd } => {
                let n = log.len();
                let run = CommandRun { ts: ev.ts, cmd: cmd.clone(), cwd: cwd.clone(), exit_code: None };
                proof { lemma_runs_push(log@, run); }
                log.push(run);
                let mut g = groups.pop().unwrap();
                assert(g@ == gv.last());
                proof { lemma_group_push(g, Recorded::Command(n)); }
                g.recorded.push(Recorded::Command(n));
                groups.push(g);
                assert(group_views(groups@) =~= gv.update(
                    gv.len() - 1,
                    GroupV { title: gv.last().title, start: gv.last().start, recorded: gv.last().recorded.push(RecV::Command(n as nat)) },
                ));
            },
            EventKind::CmdEnd { exit_code } => {
                if log.len() > 0 {
                    let mut run = log.pop().unwrap();
                    assert(run@ == lv.last());
                    run.exit_code = Some(*exit_code);
                    proof { lemma_runs_push(log@, run); }
                    log.push(run);
                    assert(runs(log@) =~= lv.update(
                        lv.len() - 1,
                        RunV { ts: lv.last().ts, cmd: lv.last().cmd, cwd: lv.last().cwd, exit_code: Some(*exit_code) },
                    ));
                }
            },
            EventKind::Note { text } => {
                let mut g = groups.pop().unwrap();
                assert(g@ == gv.last());
                let note = Recorded::Note(text.clone());
                proof { lemma_group_push(g, note); }
                g.recorded.push(note);
                groups.push(g);
                assert(group_views(groups@) =~= gv.update(
                    gv.len() - 1,
                    GroupV { title: gv.last().title, start: gv.last().start, recorded: gv.last().recorded.push(RecV::Note(text@)) },
                ));
            },
            EventKind::Step { title } => {
                let g = Group { title: Some(title.clone()), start: Some(ev.ts), recorded: Vec::new() };
                assert(g@.recorded =~= Seq::<RecV>::empty());
                groups.push(g);
                assert(group_views(groups@) =~= gv.push(GroupV { title: Some(title@), start: Some(ev.ts), recorded: Seq::empty() }));
            },
            _ => {},
        }
        i = i + 1;
    }
    assert(all.take(evs@.len() as int) == all);
    (log, groups)
}

/// The items of one group, as the procedure shows them.
fn group_items_exec(g: &Group, log: &Vec<CommandRun>) -> (r: Vec<Item>)
    requires
        forall|j: int| 0 <= j < g@.recorded.len() ==> #[trigger] rec_ok(g@.recorded[j], log@.len()),
    ensures
        items(r@) == group_items(g@, runs(log@)),
{
    let ghost lg = runs(log@);
    let ghost rs = g@.recorded;
    let ghost f = |r: RecV| match r {
        RecV::Command(i) => if instruction(lg[i as int]) {
            Some(ItemV::Command(lg[i as int]))
        } else {
            None
        },
        RecV::Note(t) => Some(ItemV::Note(t)),
    };
    let mut out: Vec<Item> = Vec::new();
    let mut j: usize = 0;
    assert(rs.take(0).filter_map(f) =~= items(out@));
    while j < g.recorded.len()
        invariant
            j <= g.recorded@.len(),
            lg == runs(log@),
            rs == g@.recorded,
            rs.len() == g.recorded@.len(),
            forall|k: int| 0 <= k < rs.len() ==> #[trigger] rec_ok(rs[k], log@.len()),
            f == (|r: RecV| match r {
                RecV::Command(i) => if instruction(lg[i as int]) {
                    Some(ItemV::Command(lg[i as int]))
                } else {
                    None
                },
                RecV::Note(t) => Some(ItemV::Note(t)),
            }),
            items(out@) == rs.take(j as int).filter_map(f),
        decreases g.recorded.len() - j,
    {
        proof { lemma_filter_map_step(rs, f, j as int); }
        assert(rs[j as int] == g.recorded@[j as int]@);
        match &g.recorded[j] {
            Recorded::Command(i) => {
                assert(rec_ok(rs[j as int], log@.len()));
                let run = &log[*i];
                assert(lg[*i as int] == run@);
                if is_instruction(run) {
                    let item = Item::Command(run.duplicate());
                    proof { lemma_items_push(out@, item); }
                    out.push(item);
                }
            },
            Recorded::Note(text) => {
                let item = Item::Note(text.clone());
                proof { lemma_items_push(out@, item); }
                out.push(item);
            },
        }
        j = j + 1;
    }
    assert(rs.take(rs.len() as int) == rs);
    out
}

/// Whether some command of the group names `path`.
fn claims_exec(g: &Group, log: &Vec<CommandRun>, path: &str) -> (r: bool)
    requires
        forall|j: int| 0 <= j < g@.recorded.len() ==> #[trigger] rec_ok(g@.recorded[j], log@.len()),
    ensures
        r == claims(g@, runs(log@), path@),
{
    let ghost lg = runs(log@);
    let ghost rs = g@.recorded;
    let mut j: usize = 0;
    while j < g.recorded.len()
        invariant
            j <= g.recorded@.len(),
            lg == runs(log@),
            rs == g@.recorded,
            rs.len() == g.recorded@.len(),
            forall|k: int| 0 <= k < rs.len() ==> #[trigger] rec_ok(rs[k], log@.len()),
            forall|k: int| 0 <= k < j ==> !#[trigger] claims_at(rs[k], lg, path@),
        decreases g.recorded.len() - j,
    {
        assert(rs[j as int] == g.recorded@[j as int]@);
        match &g.recorded[j] {
            Recorded::Command(i) => {
                assert(rec_ok(rs[j as int], log@.len()));
                assert(lg[*i as int] == log@[*i as int]@);
                if mentions(log[*i].cmd.as_str(), path) {
                    assert(claims_at(rs[j as int], lg, path@));
                    return true;
                }
            },
            Recorded::Note(_) => {},
        }
        j = j + 1;
    }
    false
}

pub open spec fn pick_groups(gs: Seq<GroupV>, idx: Seq<usize>) -> Seq<GroupV> {
    idx.map_values(|i: usize| gs[i as int])
}

pub open spec fn opt_index(o: Option<usize>) -> Option<int> {
    match o {
        Some(i) => Some(i as int),
        None => None,
    }
}

/// The first kept group that claims `path`.
fn find_owner(groups: &Vec<Group>, kept: &Vec<usize>, log: &Vec<CommandRun>, path: &str) -> (r: Option<usize>)
    requires
        forall|k: int| 0 <= k < kept@.len() ==> #[trigger] kept@[k] < groups@.len(),
        indices_ok(group_views(groups@), log@.len()),
    ensures
        opt_index(r) == owner(pick_groups(group_views(groups@), kept@), runs(log@), path@),
        match r {
            Some(k) => k < kept@.len(),
            None => true,
        },
{
    let ghost ks = pick_groups(group_views(groups@), kept@);
    let mut k: usize = 0;
    while k < kept.len()
        invariant
            k <= kept@.len(),
            ks == pick_groups(group_views(groups@), kept@),
            forall|m: int| 0 <= m < kept@.len() ==> #[trigger] kept@[m] < groups@.len(),
            indices_ok(group_views(groups@), log@.len()),
            first_claim(ks, runs(log@), path@, 0) == first_claim(ks, runs(log@), path@, k as int),
        decreases kept.len() - k,
    {
        let gi = kept[k];
        assert(kept@[k as int] < groups@.len());
        assert(ks[k as int] == groups@[gi as int]@);
        assert forall|j: int| 0 <= j < groups@[gi as int]@.recorded.len()
            implies #[trigger] rec_ok(groups@[gi as int]@.recorded[j], log@.len()) by {
            assert(group_views(groups@)[gi as int] == groups@[gi as int]@);
        }
        if claims_exec(&groups[gi], log, path) {
            return Some(k);
        }
        k = k + 1;
    }
    None
}

/// Builds the runbook model. `changes` is session-wide, because snapshots
/// are taken once before and once after: a change goes to the first step
/// with a command that names its path, or to the other files.
pub fn build(evs: &[Event], chs: &[Change]) -> (r: Runbook)
    ensures
        runs(r.log@) == log_of(events(evs@)),
        runs(r.verifications@) == verifications_of(log_of(events(evs@))),
        r.without_steps == untitled(groups_of(events(evs@))),
        steps(r.steps@) == steps_of(events(evs@), changes(chs@)),
        changes(r.other_files@) == other_files_of(events(evs@), changes(chs@)),
        r.packages.spec_unknown(),
        r.other_packages@.len() == 0,
        r.state.spec_unknown(),
{
    let ghost ev = events(evs@);
    let ghost cs = changes(chs@);
    let (log, groups) = collect(evs);
    let ghost lg = runs(log@);
    let ghost gs = group_views(groups@);
    proof { lemma_groups(ev); }

    // Whether any heading was recorded.
    let mut without_steps = true;
    let mut i: usize = 0;
    while i < groups.len()
        invariant
            i <= groups@.len(),
            gs == group_views(groups@),
            without_steps == (forall|k: int| 0 <= k < i ==> (#[trigger] gs[k]).title.is_none()),
        decreases groups.len() - i,
    {
        assert(gs[i as int] == groups@[i as int]@);
        if groups[i].title.is_some() {
            without_steps = false;
        }
        i = i + 1;
    }

    // Checks, for their own chapter.
    let ghost fv = |r: RunV| if ran_ok(r) && checks(r.cmd) { Some(r) } else { None };
    let mut verifications: Vec<CommandRun> = Vec::new();
    let mut i: usize = 0;
    assert(lg.take(0).filter_map(fv) =~= runs(verifications@));
    while i < log.len()
        invariant
            i <= log@.len(),
            lg == runs(log@),
            fv == (|r: RunV| if ran_ok(r) && checks(r.cmd) { Some(r) } else { None }),
            runs(verifications@) == lg.take(i as int).filter_map(fv),
        decreases log.len() - i,
    {
        proof { lemma_filter_map_step(lg, fv, i as int); }
        let run = &log[i];
        if run.succeeded() && is_verification(run.cmd.as_str()) {
            let c = run.duplicate();
            proof { lemma_runs_push(verifications@, c); }
            verifications.push(c);
        }
        i = i + 1;
    }
    assert(lg.take(lg.len() as int) == lg);

    // The groups that become steps.
    let ghost fk = |g: GroupV| if kept(g, lg) { Some(g) } else { None };
    let mut kept_idx: Vec<usize> = Vec::new();
    let mut i: usize = 0;
    assert(gs.take(0).filter_map(fk) =~= pick_groups(gs, kept_idx@));
    while i < groups.len()
        invariant
            i <= groups@.len(),
            gs == group_views(groups@),
            lg == runs(log@),
            indices_ok(gs, log@.len()),
            fk == (|g: GroupV| if kept(g, lg) { Some(g) } else { None }),
            pick_groups(gs, kept_idx@) == gs.take(i as int).filter_map(fk),
            forall|k: int| 0 <= k < kept_idx@.len() ==> #[trigger] kept_idx@[k] < groups@.len(),
        decreases groups.len() - i,
    {
        proof { lemma_filter_map_step(gs, fk, i as int); }
        assert(gs[i as int] == groups@[i as int]@);
        assert forall|j: int| 0 <= j < groups@[i as int]@.recorded.len()
            implies #[trigger] rec_ok(groups@[i as int]@.recorded[j], log@.len()) by {
            assert(rec_ok(gs[i as int].recorded[j], log@.len()));
        }
        let its = group_items_exec(&groups[i], &log);
        if its.len() > 0 || groups[i].title.is_some() {
            kept_idx.push(i);
            assert(pick_groups(gs, kept_idx@) =~= gs.take(i as int).filter_map(fk).push(gs[i as int]));
        }
        i = i + 1;
    }
    assert(gs.take(gs.len() as int) == gs);
    let ghost ks = pick_groups(gs, kept_idx@);
    assert(ks == kept_groups(gs, lg));

    // The step each change goes to.
    let mut owners: Vec<Option<usize>> = Vec::new();
    let mut m: usize = 0;
    while m < chs.len()
        invariant
            m <= chs@.len(),
            cs == changes(chs@),
            ks == pick_groups(gs, kept_idx@),
            gs == group_views(groups@),
            lg == runs(log@),
            indices_ok(gs, log@.len()),
            forall|k: int| 0 <= k < kept_idx@.len() ==> #[trigger] kept_idx@[k] < groups@.len(),
            owners@.len() == m,
            forall|j: int| 0 <= j < m ==> #[trigger] opt_index(owners@[j]) == owner(ks, lg, change_path(cs[j])),
        decreases chs.len() - m,
    {
        assert(cs[m as int] == chs@[m as int]@);
        let o = find_owner(&groups, &kept_idx, &log, chs[m].path());
        owners.push(o);
        m = m + 1;
    }

    // The steps, each with the changes it claims.
    let mut steps_out: Vec<Step> = Vec::new();
    let mut k: usize = 0;
    assert(steps(steps_out@) =~= steps_of(ev, cs).take(0));
    while k < kept_idx.len()
        invariant
            k <= kept_idx@.len(),
            ev == events(evs@),
            cs == changes(chs@),
            ks == pick_groups(gs, kept_idx@),
            ks == kept_groups(gs, lg),
            gs == group_views(groups@),
            gs == groups_of(ev),
            lg == runs(log@),
            lg == log_of(ev),
            indices_ok(gs, log@.len()),
            forall|q: int| 0 <= q < kept_idx@.len() ==> #[trigger] kept_idx@[q] < groups@.len(),
            owners@.len() == chs@.len(),
            forall|j: int| 0 <= j < chs@.len() ==> #[trigger] opt_index(owners@[j]) == owner(ks, lg, change_path(cs[j])),
            steps(steps_out@) == steps_of(ev, cs).take(k as int),
        decreases kept_idx.len() - k,
    {
        let gi = kept_idx[k];
        assert(kept_idx@[k as int] < groups@.len());
        assert(ks[k as int] == groups@[gi as int]@);
        assert forall|j: int| 0 <= j < groups@[gi as int]@.recorded.len()
            implies #[trigger] rec_ok(groups@[gi as int]@.recorded[j], log@.len()) by {
            assert(gs[gi as int] == groups@[gi as int]@);
        }
        let its = group_items_exec(&groups[gi], &log);
        let title = clone_title(&groups[gi].title);
        let ghost ff = |c: ChangeV| if owner(ks, lg, change_path(c)) == Some(k as int) { Some(c) } else { None };
        let mut files: Vec<Change> = Vec::new();
        let mut m: usize = 0;
        assert(cs.take(0).filter_map(ff) =~= changes(files@));
        while m < chs.len()
            invariant
                m <= chs@.len(),
                cs == changes(chs@),
                owners@.len() == chs@.len(),
                forall|j: int| 0 <= j < chs@.len() ==> #[trigger] opt_index(owners@[j]) == owner(ks, lg, change_path(cs[j])),
                ff == (|c: ChangeV| if owner(ks, lg, change_path(c)) == Some(k as int) { Some(c) } else { None }),
                changes(files@) == cs.take(m as int).filter_map(ff),
            decreases chs.len() - m,
        {
            proof { lemma_filter_map_step(cs, ff, m as int); }
            assert(cs[m as int] == chs@[m as int]@);
            assert(opt_index(owners@[m as int]) == owner(ks, lg, change_path(cs[m as int])));
            let mine = match owners[m] {
                Some(o) => o == k,
                None => false,
            };
            if mine {
                let c = chs[m].duplicate();
                files.push(c);
                assert(changes(files@) =~= cs.take(m as int).filter_map(ff).push(cs[m as int]));
            }
            m = m + 1;
        }
        assert(cs.take(cs.len() as int) == cs);
        let step = Step { title, started: groups[gi].start, items: its, files, packages: Vec::new(), state: Vec::new() };
        assert(step@.packages =~= Seq::<PackageV>::empty());
        assert(step@.state =~= Seq::<Seq<char>>::empty());
        assert(step@ == step_at(ks, lg, cs, k as int));
        proof { lemma_steps_push(steps_out@, step); }
        steps_out.push(step);
        assert(steps(steps_out@) =~= steps_of(ev, cs).take(k + 1));
        k = k + 1;
    }
    assert(steps_of(ev, cs).take(ks.len() as int) =~= steps_of(ev, cs));

    // The changes no step claimed.
    let ghost fo = |c: ChangeV| if owner(ks, lg, change_path(c)).is_none() { Some(c) } else { None };
    let mut other_files: Vec<Change> = Vec::new();
    let mut m: usize = 0;
    assert(cs.take(0).filter_map(fo) =~= changes(other_files@));
    while m < chs.len()
        invariant
            m <= chs@.len(),
            cs == changes(chs@),
            owners@.len() == chs@.len(),
            forall|j: int| 0 <= j < chs@.len() ==> #[trigger] opt_index(owners@[j]) == owner(ks, lg, change_path(cs[j])),
            fo == (|c: ChangeV| if owner(ks, lg, change_path(c)).is_none() { Some(c) } else { None }),
            changes(other_files@) == cs.take(m as int).filter_map(fo),
        decreases chs.len() - m,
    {
        proof { lemma_filter_map_step(cs, fo, m as int); }
        assert(cs[m as int] == chs@[m as int]@);
        assert(opt_index(owners@[m as int]) == owner(ks, lg, change_path(cs[m as int])));
        if owners[m].is_none() {
            let c = chs[m].duplicate();
            other_files.push(c);
            assert(changes(other_files@) =~= cs.take(m as int).filter_map(fo).push(cs[m as int]));
        }
        m = m + 1;
    }
    assert(cs.take(cs.len() as int) == cs);

    Runbook {
        steps: steps_out,
        log,
        other_files,
        verifications,
        without_steps,
        packages: crate::packages::Diff::unknown(),
        other_packages: Vec::new(),
        state: crate::state::Diff::unknown(),
    }
}

// ----------------------------------------------------------------------------
// Attributing packages, units and accounts to steps.

pub open spec fn item_names(i: ItemV, name: Seq<char>) -> bool {
    match i {
        ItemV::Command(r) => names(r.cmd, name),
        ItemV::Note(_) => false,
    }
}

/// A command of the step names `name`.
pub open spec fn step_names(st: StepV, name: Seq<char>) -> bool {
    exists|j: int| 0 <= j < st.items.len() && #[trigger] item_names(st.items[j], name)
}

/// The first step, from `k` on, with a command that names `name`.
pub open spec fn first_namer(sts: Seq<StepV>, name: Seq<char>, k: int) -> Option<int>
    decreases sts.len() - k,
{
    if k < 0 || k >= sts.len() {
        None
    } else if step_names(sts[k], name) {
        Some(k)
    } else {
        first_namer(sts, name, k + 1)
    }
}

/// The packages of `ps` that step `k` is the first to name.
pub open spec fn packages_for(sts: Seq<StepV>, ps: Seq<PackageV>, k: int) -> Seq<PackageV> {
    ps.filter_map(|p: PackageV| if first_namer(sts, p.0, 0) == Some(k) { Some(p) } else { None })
}

pub open spec fn packages_unnamed(sts: Seq<StepV>, ps: Seq<PackageV>) -> Seq<PackageV> {
    ps.filter_map(|p: PackageV| if first_namer(sts, p.0, 0).is_none() { Some(p) } else { None })
}

pub open spec fn with_packages(st: StepV, ps: Seq<PackageV>) -> StepV {
    StepV { title: st.title, started: st.started, items: st.items, files: st.files, packages: st.packages + ps, state: st.state }
}

/// `acc` with each name of `xs` that it does not hold yet, in order.
pub open spec fn append_new(acc: Seq<Seq<char>>, xs: Seq<Seq<char>>) -> Seq<Seq<char>>
    decreases xs.len(),
{
    if xs.len() == 0 {
        acc
    } else {
        let a = append_new(acc, xs.drop_last());
        if a.contains(xs.last()) {
            a
        } else {
            a.push(xs.last())
        }
    }
}

/// The names of `ns` that step `k` is the first to name.
pub open spec fn names_for(sts: Seq<StepV>, ns: Seq<Seq<char>>, k: int) -> Seq<Seq<char>> {
    ns.filter_map(|n: Seq<char>| if first_namer(sts, n, 0) == Some(k) { Some(n) } else { None })
}

pub open spec fn with_state(st: StepV, ns: Seq<Seq<char>>) -> StepV {
    StepV { title: st.title, started: st.started, items: st.items, files: st.files, packages: st.packages, state: append_new(st.state, ns) }
}

/// Whether a command of `step` names `name`.
fn step_names_exec(step: &Step, name: &str) -> (r: bool)
    ensures
        r == step_names(step@, name@),
{
    let ghost its = items(step.items@);
    let mut j: usize = 0;
    while j < step.items.len()
        invariant
            j <= step.items@.len(),
            its == items(step.items@),
            forall|q: int| 0 <= q < j ==> !#[trigger] item_names(its[q], name@),
        decreases step.items.len() - j,
    {
        assert(its[j as int] == step.items@[j as int]@);
        match &step.items[j] {
            Item::Command(run) => {
                if names_item(run.cmd.as_str(), name) {
                    assert(item_names(its[j as int], name@));
                    assert(step@.items == its);
                    assert(item_names(step@.items[j as int], name@));
                    return true;
                }
            },
            Item::Note(_) => {},
        }
        j = j + 1;
    }
    false
}

/// The first step with a command that names `name`.
fn first_namer_exec(sts: &Vec<Step>, name: &str) -> (r: Option<usize>)
    ensures
        opt_index(r) == first_namer(steps(sts@), name@, 0),
        match r {
            Some(k) => k < sts@.len(),
            None => true,
        },
{
    let ghost sv = steps(sts@);
    let mut k: usize = 0;
    while k < sts.len()
        invariant
            k <= sts@.len(),
            sv == steps(sts@),
            first_namer(sv, name@, 0) == first_namer(sv, name@, k as int),
        decreases sts.len() - k,
    {
        assert(sv[k as int] == sts@[k as int]@);
        if step_names_exec(&sts[k], name) {
            return Some(k);
        }
        k = k + 1;
    }
    None
}

/// Gives each package installed by name to the first step with a command
/// that names it; the rest are the other packages. The comparison itself
/// becomes the session's package record.
pub fn attribute_packages(runbook: &mut Runbook, diff: crate::packages::Diff)
    ensures
        final(runbook).steps@.len() == old(runbook).steps@.len(),
        forall|k: int| 0 <= k < old(runbook).steps@.len() ==> #[trigger] final(runbook).steps@[k]@
            == with_packages(
                old(runbook).steps@[k]@,
                packages_for(steps(old(runbook).steps@), crate::packages::explicit_of(diff), k),
            ),
        pkgs(final(runbook).other_packages@) == pkgs(old(runbook).other_packages@)
            + packages_unnamed(steps(old(runbook).steps@), crate::packages::explicit_of(diff)),
        final(runbook).packages == diff,
        final(runbook).state == old(runbook).state,
        final(runbook).log == old(runbook).log,
        final(runbook).other_files == old(runbook).other_files,
        final(runbook).verifications == old(runbook).verifications,
        final(runbook).without_steps == old(runbook).without_steps,
{
    let explicit = diff.explicit_installs();
    let ghost ex = crate::packages::explicit_of(diff);
    let ghost sv = steps(runbook.steps@);
    let ghost old_others = pkgs(runbook.other_packages@);

    // The step each package goes to.
    let mut owners: Vec<Option<usize>> = Vec::new();
    let mut m: usize = 0;
    while m < explicit.len()
        invariant
            m <= explicit@.len(),
            pkgs(explicit@) == ex,
            sv == steps(runbook.steps@),
            owners@.len() == m,
            forall|j: int| 0 <= j < m ==> #[trigger] opt_index(owners@[j]) == first_namer(sv, ex[j].0, 0),
        decreases explicit.len() - m,
    {
        assert(ex[m as int] == explicit@[m as int]@);
        let o = first_namer_exec(&runbook.steps, explicit[m].name.as_str());
        owners.push(o);
        m = m + 1;
    }

    // The packages no step names.
    let ghost fo = |p: PackageV| if first_namer(sv, p.0, 0).is_none() { Some(p) } else { None };
    let mut m: usize = 0;
    assert(old_others + ex.take(0).filter_map(fo) =~= pkgs(runbook.other_packages@));
    while m < explicit.len()
        invariant
            m <= explicit@.len(),
            pkgs(explicit@) == ex,
            owners@.len() == explicit@.len(),
            forall|j: int| 0 <= j < explicit@.len() ==> #[trigger] opt_index(owners@[j]) == first_namer(sv, ex[j].0, 0),
            fo == (|p: PackageV| if first_namer(sv, p.0, 0).is_none() { Some(p) } else { None }),
            pkgs(runbook.other_packages@) == old_others + ex.take(m as int).filter_map(fo),
            steps(runbook.steps@) == sv,
            runbook.log == old(runbook).log,
            runbook.state == old(runbook).state,
            runbook.other_files == old(runbook).other_files,
            runbook.verifications == old(runbook).verifications,
            runbook.without_steps == old(runbook).without_steps,
            runbook.steps == old(runbook).steps,
        decreases explicit.len() - m,
    {
        proof { lemma_filter_map_step(ex, fo, m as int); }
        assert(ex[m as int] == explicit@[m as int]@);
        assert(opt_index(owners@[m as int]) == first_namer(sv, ex[m as int].0, 0));
        if owners[m].is_none() {
            let p = explicit[m].duplicate();
            proof { crate::packages::lemma_pkgs_push(runbook.other_packages@, p); }
            runbook.other_packages.push(p);
            assert(pkgs(runbook.other_packages@) =~= old_others + ex.take(m as int).filter_map(fo).push(ex[m as int]));
        }
        m = m + 1;
    }
    assert(ex.take(ex.len() as int) == ex);

    // Each step with the packages it names.
    let mut rest: Vec<Step> = Vec::new();
    std::mem::swap(&mut rest, &mut runbook.steps);
    let ghost orig = rest@;
    let n = rest.len();
    let mut k: usize = 0;
    assert(orig.skip(0) == orig);
    while k < n
        invariant
            k <= n == orig.len(),
            sv == steps(orig),
            rest@ == orig.skip(k as int),
            runbook.steps@.len() == k,
            forall|q: int| 0 <= q < k ==> #[trigger] runbook.steps@[q]@ == with_packages(orig[q]@, packages_for(sv, ex, q)),
            pkgs(explicit@) == ex,
            owners@.len() == explicit@.len(),
            forall|j: int| 0 <= j < explicit@.len() ==> #[trigger] opt_index(owners@[j]) == first_namer(sv, ex[j].0, 0),
            pkgs(runbook.other_packages@) == old_others + ex.filter_map(fo),
            fo == (|p: PackageV| if first_namer(sv, p.0, 0).is_none() { Some(p) } else { None }),
            runbook.log == old(runbook).log,
            runbook.state == old(runbook).state,
            runbook.other_files == old(runbook).other_files,
            runbook.verifications == old(runbook).verifications,
            runbook.without_steps == old(runbook).without_steps,
        decreases n - k,
    {
        assert(rest@[0] == orig[k as int]);
        let mut st = rest.remove(0);
        assert(rest@ =~= orig.skip(k + 1));
        let ghost before = st@;
        let ghost fp = |p: PackageV| if first_namer(sv, p.0, 0) == Some(k as int) { Some(p) } else { None };
        let mut m: usize = 0;
        assert(before.packages + ex.take(0).filter_map(fp) =~= pkgs(st.packages@));
        while m < explicit.len()
            invariant
                m <= explicit@.len(),
                pkgs(explicit@) == ex,
                owners@.len() == explicit@.len(),
                forall|j: int| 0 <= j < explicit@.len() ==> #[trigger] opt_index(owners@[j]) == first_namer(sv, ex[j].0, 0),
                fp == (|p: PackageV| if first_namer(sv, p.0, 0) == Some(k as int) { Some(p) } else { None }),
                pkgs(st.packages@) == before.packages + ex.take(m as int).filter_map(fp),
                st@.title == before.title,
                st@.started == before.started,
                st@.items == before.items,
                st@.files == before.files,
                st@.state == before.state,
            decreases explicit.len() - m,
        {
            proof { lemma_filter_map_step(ex, fp, m as int); }
            assert(ex[m as int] == explicit@[m as int]@);
            assert(opt_index(owners@[m as int]) == first_namer(sv, ex[m as int].0, 0));
            let mine = match owners[m] {
                Some(o) => o == k,
                None => false,
            };
            if mine {
                let p = explicit[m].duplicate();
                proof { crate::packages::lemma_pkgs_push(st.packages@, p); }
                st.packages.push(p);
                assert(pkgs(st.packages@) =~= before.packages + ex.take(m as int).filter_map(fp).push(ex[m as int]));
            }
            m = m + 1;
        }
        assert(ex.take(ex.len() as int) == ex);
        assert(sv[k as int] == before);
        assert(st@ == with_packages(orig[k as int]@, packages_for(sv, ex, k as int)));
        runbook.steps.push(st);
        k = k + 1;
    }
    runbook.packages = diff;
}

/// Gives each unit enabled, service started and account added to the first
/// step with a command that names it, once; the comparison itself becomes
/// the session's state record. Firewall rules belong to the whole session.
pub fn attribute_state(runbook: &mut Runbook, diff: crate::state::Diff)
    ensures
        final(runbook).steps@.len() == old(runbook).steps@.len(),
        forall|k: int| 0 <= k < old(runbook).steps@.len() ==> #[trigger] final(runbook).steps@[k]@
            == with_state(old(runbook).steps@[k]@, names_for(steps(old(runbook).steps@), diff.spec_names(), k)),
        final(runbook).state == diff,
        final(runbook).packages == old(runbook).packages,
        final(runbook).other_packages == old(runbook).other_packages,
        final(runbook).log == old(runbook).log,
        final(runbook).other_files == old(runbook).other_files,
        final(runbook).verifications == old(runbook).verifications,
        final(runbook).without_steps == old(runbook).without_steps,
{
    let all = diff.names();
    let ghost ns = diff.spec_names();
    let ghost sv = steps(runbook.steps@);

    let mut owners: Vec<Option<usize>> = Vec::new();
    let mut m: usize = 0;
    while m < all.len()
        invariant
            m <= all@.len(),
            strs(all@) == ns,
            sv == steps(runbook.steps@),
            owners@.len() == m,
            forall|j: int| 0 <= j < m ==> #[trigger] opt_index(owners@[j]) == first_namer(sv, ns[j], 0),
        decreases all.len() - m,
    {
        assert(ns[m as int] == all@[m as int]@);
        let o = first_namer_exec(&runbook.steps, all[m].as_str());
        owners.push(o);
        m = m + 1;
    }

    let mut rest: Vec<Step> = Vec::new();
    std::mem::swap(&mut rest, &mut runbook.steps);
    let ghost orig = rest@;
    let n = rest.len();
    let mut k: usize = 0;
    assert(orig.skip(0) == orig);
    while k < n
        invariant
            k <= n == orig.len(),
            sv == steps(orig),
            rest@ == orig.skip(k as int),
            runbook.steps@.len() == k,
            forall|q: int| 0 <= q < k ==> #[trigger] runbook.steps@[q]@ == with_state(orig[q]@, names_for(sv, ns, q)),
            strs(all@) == ns,
            owners@.len() == all@.len(),
            forall|j: int| 0 <= j < all@.len() ==> #[trigger] opt_index(owners@[j]) == first_namer(sv, ns[j], 0),
            runbook.log == old(runbook).log,
            runbook.state == old(runbook).state,
            runbook.packages == old(runbook).packages,
            runbook.other_packages == old(runbook).other_packages,
            runbook.other_files == old(runbook).other_files,
            runbook.verifications == old(runbook).verifications,
            runbook.without_steps == old(runbook).without_steps,
        decreases n - k,
    {
        assert(rest@[0] == orig[k as int]);
        let mut st = rest.remove(0);
        assert(rest@ =~= orig.skip(k + 1));
        let ghost before = st@;
        let ghost fp = |x: Seq<char>| if first_namer(sv, x, 0) == Some(k as int) { Some(x) } else { None };
        let mut m: usize = 0;
        assert(ns.take(0).filter_map(fp) =~= Seq::<Seq<char>>::empty());
        assert(append_new(before.state, ns.take(0).filter_map(fp)) == before.state);
        while m < all.len()
            invariant
                m <= all@.len(),
                strs(all@) == ns,
                owners@.len() == all@.len(),
                forall|j: int| 0 <= j < all@.len() ==> #[trigger] opt_index(owners@[j]) == first_namer(sv, ns[j], 0),
                fp == (|x: Seq<char>| if first_namer(sv, x, 0) == Some(k as int) { Some(x) } else { None }),
                strs(st.state@) == append_new(before.state, ns.take(m as int).filter_map(fp)),
                st@.title == before.title,
                st@.started == before.started,
                st@.items == before.items,
                st@.files == before.files,
                st@.packages == before.packages,
            decreases all.len() - m,
        {
            proof { lemma_filter_map_step(ns, fp, m as int); }
            assert(ns[m as int] == all@[m as int]@);
            assert(opt_index(owners@[m as int]) == first_namer(sv, ns[m as int], 0));
            let mine = match owners[m] {
                Some(o) => o == k,
                None => false,
            };
            if mine {
                let ghost prefix = ns.take(m as int).filter_map(fp);
                assert(ns.take(m + 1).filter_map(fp) == prefix.push(ns[m as int]));
                assert(prefix.push(ns[m as int]).drop_last() == prefix);
                if !crate::order::contains_str(&st.state, &all[m]) {
                    let x = all[m].clone();
                    proof { crate::order::lemma_strs_push(st.state@, x); }
                    st.state.push(x);
                }
            }
            m = m + 1;
        }
        assert(ns.take(ns.len() as int) == ns);
        assert(sv[k as int] == before);
        assert(st@ == with_state(orig[k as int]@, names_for(sv, ns, k as int)));
        runbook.steps.push(st);
        k = k + 1;
    }
    runbook.state = diff;
}

// ----------------------------------------------------------------------------
// Laws of the runbook model.

/// Nothing is lost: the log keeps one entry for every command that was
/// started, whether it worked or not, so the appendix shows everything.
pub proof fn law_log_keeps_every_command(evs: Seq<EventV>)
    ensures
        log_of(evs).len() == crate::event::command_count_of(evs),
    decreases evs.len(),
{
    if evs.len() > 0 {
        law_log_keeps_every_command(evs.drop_last());
    }
}

/// Only commands that worked, and that neither inspect nor check, become
/// instructions of a step: trial and error does not end up in the procedure.
pub proof fn law_steps_hold_only_instructions(evs: Seq<EventV>, cs: Seq<ChangeV>, k: int, j: int)
    requires
        0 <= k < steps_of(evs, cs).len(),
        0 <= j < steps_of(evs, cs)[k].items.len(),
        steps_of(evs, cs)[k].items[j] is Command,
    ensures
        instruction(steps_of(evs, cs)[k].items[j]->Command_0),
{
    let log = log_of(evs);
    let ks = kept_groups(groups_of(evs), log);
    let g = ks[k];
    let it = steps_of(evs, cs)[k].items[j];
    let f = |r: RecV| match r {
        RecV::Command(i) => if instruction(log[i as int]) {
            Some(ItemV::Command(log[i as int]))
        } else {
            None
        },
        RecV::Note(t) => Some(ItemV::Note(t)),
    };
    assert(steps_of(evs, cs)[k].items == g.recorded.filter_map(f));
    assert(g.recorded.filter_map(f).contains(it));
    g.recorded.lemma_filter_map_contains(f, it);
}

/// No step holds a command that only looks at the system, pages through a
/// file or opens an editor, nor one of exarare's own: a command that worked
/// but starts with one of these words never becomes an instruction.
pub proof fn law_inspections_are_never_instructions(evs: Seq<EventV>, cs: Seq<ChangeV>, k: int, j: int)
    requires
        0 <= k < steps_of(evs, cs).len(),
        0 <= j < steps_of(evs, cs)[k].items.len(),
        steps_of(evs, cs)[k].items[j] is Command,
    ensures
        command_head(steps_of(evs, cs)[k].items[j]->Command_0.cmd) != "exarare"@,
        !seq![
            "exit"@, "logout"@, "clear"@, "pwd"@, "history"@, "ls"@, "ll"@, "la"@, "cat"@,
            "less"@, "more"@, "tail"@, "head"@, "man"@, "top"@, "htop"@, "df"@, "free"@, "id"@,
            "whoami"@, "date"@, "env"@, "printenv"@, "which"@, "type"@, "ps"@, "grep"@, "find"@,
            "diff"@, "vi"@, "vim"@, "nano"@, "emacs"@, "view"@,
        ].contains(command_head(steps_of(evs, cs)[k].items[j]->Command_0.cmd)),
{
    law_steps_hold_only_instructions(evs, cs, k, j);
    assert(seq![
        "exit"@, "logout"@, "clear"@, "pwd"@, "history"@, "ls"@, "ll"@, "la"@, "cat"@,
        "less"@, "more"@, "tail"@, "head"@, "man"@, "top"@, "htop"@, "df"@, "free"@, "id"@,
        "whoami"@, "date"@, "env"@, "printenv"@, "which"@, "type"@, "ps"@, "grep"@, "find"@,
        "diff"@, "vi"@, "vim"@, "nano"@, "emacs"@, "view"@,
    ] =~= noise_words());
}

/// No step holds a command that reads state back to check it: one that
/// holds one of these phrases, or asks a program for its version, belongs
/// in the verification chapter and never becomes an instruction.
pub proof fn law_checks_are_never_instructions(evs: Seq<EventV>, cs: Seq<ChangeV>, k: int, j: int)
    requires
        0 <= k < steps_of(evs, cs).len(),
        0 <= j < steps_of(evs, cs)[k].items.len(),
        steps_of(evs, cs)[k].items[j] is Command,
    ensures
        forall|p: Seq<char>|
            #![trigger contains(trim(steps_of(evs, cs)[k].items[j]->Command_0.cmd), p)]
            seq![
                "systemctl status"@, "systemctl is-active"@, "systemctl is-enabled"@,
                "systemctl list-unit-files"@, "journalctl"@, "curl"@, "wget -q -O-"@, "ss "@,
                "netstat"@, "ping"@, "dig"@, "nslookup"@, "rpm -q"@, "dnf list installed"@,
                "firewall-cmd --list"@, "getenforce"@, "sestatus"@, "nginx -t"@, "httpd -t"@,
                "sshd -t"@, "openssl s_client"@,
            ].contains(p) ==> !contains(trim(steps_of(evs, cs)[k].items[j]->Command_0.cmd), p),
        !ends_with(trim(steps_of(evs, cs)[k].items[j]->Command_0.cmd), "--version"@),
        !ends_with(trim(steps_of(evs, cs)[k].items[j]->Command_0.cmd), "-V"@),
{
    law_steps_hold_only_instructions(evs, cs, k, j);
    let cmd = steps_of(evs, cs)[k].items[j]->Command_0.cmd;
    let list = seq![
        "systemctl status"@, "systemctl is-active"@, "systemctl is-enabled"@,
        "systemctl list-unit-files"@, "journalctl"@, "curl"@, "wget -q -O-"@, "ss "@,
        "netstat"@, "ping"@, "dig"@, "nslookup"@, "rpm -q"@, "dnf list installed"@,
        "firewall-cmd --list"@, "getenforce"@, "sestatus"@, "nginx -t"@, "httpd -t"@,
        "sshd -t"@, "openssl s_client"@,
    ];
    assert(list =~= verification_patterns());
    assert forall|p: Seq<char>|
        #![trigger contains(trim(cmd), p)]
        list.contains(p) implies !contains(trim(cmd), p) by {
        let i = choose|i: int| 0 <= i < list.len() && list[i] == p;
        assert(verification_patterns()[i] == p);
    }
}

/// Whether an event is a heading.
pub open spec fn is_heading(e: EventV) -> bool {
    e.kind is Step
}

/// Without a heading, the whole session is one group, without a title.
proof fn lemma_one_group(evs: Seq<EventV>)
    requires
        forall|i: int| 0 <= i < evs.len() ==> !is_heading(#[trigger] evs[i]),
    ensures
        groups_of(evs).len() == 1,
        groups_of(evs)[0].title.is_none(),
    decreases evs.len(),
{
    if evs.len() > 0 {
        assert forall|i: int| 0 <= i < evs.drop_last().len() implies !is_heading(#[trigger] evs.drop_last()[i]) by {
            assert(evs.drop_last()[i] == evs[i]);
        }
        lemma_one_group(evs.drop_last());
        assert(!is_heading(evs[evs.len() - 1]));
    }
}

/// A session in which no heading was recorded has at most one step, and it
/// has no title.
pub proof fn law_no_heading_one_step(evs: Seq<EventV>, cs: Seq<ChangeV>)
    requires
        forall|i: int| 0 <= i < evs.len() ==> !is_heading(#[trigger] evs[i]),
    ensures
        steps_of(evs, cs).len() <= 1,
        forall|k: int| 0 <= k < steps_of(evs, cs).len() ==> (#[trigger] steps_of(evs, cs)[k]).title.is_none(),
        untitled(groups_of(evs)),
{
    lemma_one_group(evs);
    let log = log_of(evs);
    let gs = groups_of(evs);
    let fk = |g: GroupV| if kept(g, log) { Some(g) } else { None };
    assert(gs.drop_last().len() == 0);
    assert(gs.drop_last().filter_map(fk) =~= Seq::<GroupV>::empty());
    let ks = kept_groups(gs, log);
    assert(ks.len() <= 1);
    assert forall|k: int| 0 <= k < steps_of(evs, cs).len() implies (#[trigger] steps_of(evs, cs)[k]).title.is_none() by {
        assert(ks[k] == gs[0]);
    }
}

/// How many of the changes the first `n` steps take.
pub open spec fn placed(ks: Seq<GroupV>, log: Seq<RunV>, cs: Seq<ChangeV>, n: int) -> nat
    decreases n,
{
    if n <= 0 {
        0
    } else {
        placed(ks, log, cs, n - 1) + files_of(ks, log, cs, n - 1).len()
    }
}

proof fn lemma_first_claim_range(ks: Seq<GroupV>, log: Seq<RunV>, p: Seq<char>, k: int)
    requires
        0 <= k,
    ensures
        first_claim(ks, log, p, k) matches Some(j) ==> k <= j < ks.len(),
    decreases ks.len() - k,
{
    if k < ks.len() && !claims(ks[k], log, p) {
        lemma_first_claim_range(ks, log, p, k + 1);
    }
}

proof fn lemma_placed_step(ks: Seq<GroupV>, log: Seq<RunV>, cs: Seq<ChangeV>, n: int)
    requires
        cs.len() > 0,
    ensures
        placed(ks, log, cs, n) == placed(ks, log, cs.drop_last(), n) + (if owner(ks, log, change_path(cs.last())) matches Some(j) && 0 <= j < n { 1nat } else { 0nat }),
    decreases n,
{
    if n > 0 {
        lemma_placed_step(ks, log, cs, n - 1);
    }
}

proof fn lemma_partition(ks: Seq<GroupV>, log: Seq<RunV>, cs: Seq<ChangeV>)
    ensures
        placed(ks, log, cs, ks.len() as int) + unclaimed(ks, log, cs).len() == cs.len(),
    decreases cs.len(),
{
    if cs.len() == 0 {
        lemma_placed_zero(ks, log, cs, ks.len() as int);
    } else {
        lemma_partition(ks, log, cs.drop_last());
        lemma_placed_step(ks, log, cs, ks.len() as int);
        lemma_first_claim_range(ks, log, change_path(cs.last()), 0);
    }
}

proof fn lemma_placed_zero(ks: Seq<GroupV>, log: Seq<RunV>, cs: Seq<ChangeV>, n: int)
    requires
        cs.len() == 0,
    ensures
        placed(ks, log, cs, n) == 0,
    decreases n,
{
    if n > 0 {
        lemma_placed_zero(ks, log, cs, n - 1);
    }
}

/// How many changes the first `n` steps hold.
pub open spec fn files_held(sts: Seq<StepV>, n: int) -> nat
    decreases n,
{
    if n <= 0 {
        0
    } else {
        files_held(sts, n - 1) + sts[n - 1].files.len()
    }
}

proof fn lemma_files_held(evs: Seq<EventV>, cs: Seq<ChangeV>, n: int)
    requires
        0 <= n <= steps_of(evs, cs).len(),
    ensures
        files_held(steps_of(evs, cs), n) == placed(kept_groups(groups_of(evs), log_of(evs)), log_of(evs), cs, n),
    decreases n,
{
    if n > 0 {
        lemma_files_held(evs, cs, n - 1);
    }
}

/// Every change is placed exactly once: in the first step with a command
/// that names its path, or among the other files.
pub proof fn law_each_change_placed_once(evs: Seq<EventV>, cs: Seq<ChangeV>)
    ensures
        files_held(steps_of(evs, cs), steps_of(evs, cs).len() as int) + other_files_of(evs, cs).len() == cs.len(),
{
    let log = log_of(evs);
    let ks = kept_groups(groups_of(evs), log);
    lemma_files_held(evs, cs, steps_of(evs, cs).len() as int);
    lemma_partition(ks, log, cs);
}

/// The changes the first `n` steps hold, in order.
pub open spec fn held(sts: Seq<StepV>, n: int) -> Seq<ChangeV>
    decreases n,
{
    if n <= 0 {
        Seq::empty()
    } else {
        held(sts, n - 1) + sts[n - 1].files
    }
}

/// The changes the first `n` kept groups take, in order.
pub open spec fn placed_seq(ks: Seq<GroupV>, log: Seq<RunV>, cs: Seq<ChangeV>, n: int) -> Seq<ChangeV>
    decreases n,
{
    if n <= 0 {
        Seq::empty()
    } else {
        placed_seq(ks, log, cs, n - 1) + files_of(ks, log, cs, n - 1)
    }
}

proof fn lemma_held(evs: Seq<EventV>, cs: Seq<ChangeV>, n: int)
    requires
        0 <= n <= steps_of(evs, cs).len(),
    ensures
        held(steps_of(evs, cs), n) == placed_seq(kept_groups(groups_of(evs), log_of(evs)), log_of(evs), cs, n),
    decreases n,
{
    if n > 0 {
        lemma_held(evs, cs, n - 1);
    }
}

/// One change more: it joins the group that owns it, and no other.
proof fn lemma_placed_seq_step(ks: Seq<GroupV>, log: Seq<RunV>, cs: Seq<ChangeV>, n: int)
    requires
        cs.len() > 0,
    ensures
        placed_seq(ks, log, cs, n).to_multiset() == placed_seq(ks, log, cs.drop_last(), n).to_multiset().add(
            if owner(ks, log, change_path(cs.last())) matches Some(j) && 0 <= j < n {
                Multiset::singleton(cs.last())
            } else {
                Multiset::empty()
            },
        ),
    decreases n,
{
    broadcast use vstd::multiset::group_multiset_axioms;
    if n <= 0 {
        broadcast use vstd::seq_lib::group_to_multiset_ensures;
        vstd::multiset::lemma_multiset_empty_len(placed_seq(ks, log, cs, n).to_multiset());
        vstd::multiset::lemma_multiset_empty_len(placed_seq(ks, log, cs.drop_last(), n).to_multiset());
        assert(placed_seq(ks, log, cs, n).to_multiset() =~= Multiset::empty());
        assert(placed_seq(ks, log, cs.drop_last(), n).to_multiset() =~= Multiset::empty());
    } else {
        lemma_placed_seq_step(ks, log, cs, n - 1);
        let c = cs.last();
        let f = |x: ChangeV| if owner(ks, log, change_path(x)) == Some(n - 1) { Some(x) } else { None };
        let fa = files_of(ks, log, cs, n - 1);
        let fb = files_of(ks, log, cs.drop_last(), n - 1);
        vstd::seq_lib::lemma_multiset_commutative(placed_seq(ks, log, cs, n - 1), fa);
        vstd::seq_lib::lemma_multiset_commutative(placed_seq(ks, log, cs.drop_last(), n - 1), fb);
        if owner(ks, log, change_path(c)) == Some(n - 1) {
            assert(fa == fb + seq![c]);
            vstd::seq_lib::lemma_multiset_commutative(fb, seq![c]);
            assert(seq![c].to_multiset() =~= Multiset::singleton(c)) by {
                broadcast use vstd::seq_lib::group_to_multiset_ensures;
                assert(seq![c] == Seq::<ChangeV>::empty().push(c));
            }
        } else {
            assert(fa == fb);
        }
        assert(placed_seq(ks, log, cs, n).to_multiset() =~= placed_seq(ks, log, cs.drop_last(), n).to_multiset().add(
            if owner(ks, log, change_path(c)) matches Some(j) && 0 <= j < n {
                Multiset::singleton(c)
            } else {
                Multiset::empty()
            },
        ));
    }
}

proof fn lemma_permutation(ks: Seq<GroupV>, log: Seq<RunV>, cs: Seq<ChangeV>)
    ensures
        placed_seq(ks, log, cs, ks.len() as int).to_multiset().add(unclaimed(ks, log, cs).to_multiset())
            == cs.to_multiset(),
    decreases cs.len(),
{
    broadcast use vstd::multiset::group_multiset_axioms;
    broadcast use vstd::seq_lib::group_to_multiset_ensures;
    if cs.len() == 0 {
        lemma_placed_seq_empty(ks, log, cs, ks.len() as int);
        assert(unclaimed(ks, log, cs).len() == 0);
        assert(unclaimed(ks, log, cs).to_multiset() =~= Multiset::empty());
        assert(cs.to_multiset() =~= Multiset::empty());
        vstd::multiset::lemma_multiset_empty_len(placed_seq(ks, log, cs, ks.len() as int).to_multiset());
        vstd::multiset::lemma_multiset_empty_len(unclaimed(ks, log, cs).to_multiset());
        vstd::multiset::lemma_multiset_empty_len(cs.to_multiset());
        assert(placed_seq(ks, log, cs, ks.len() as int).to_multiset() =~= Multiset::empty());
    } else {
        let c = cs.last();
        let rest = cs.drop_last();
        lemma_permutation(ks, log, rest);
        lemma_placed_seq_step(ks, log, cs, ks.len() as int);
        lemma_first_claim_range(ks, log, change_path(c), 0);
        assert(cs == rest.push(c));
        let ua = unclaimed(ks, log, cs);
        let ub = unclaimed(ks, log, rest);
        if owner(ks, log, change_path(c)).is_none() {
            assert(ua == ub.push(c));
        } else {
            assert(ua == ub);
        }
        assert(placed_seq(ks, log, cs, ks.len() as int).to_multiset().add(ua.to_multiset()) =~= cs.to_multiset());
    }
}

proof fn lemma_placed_seq_empty(ks: Seq<GroupV>, log: Seq<RunV>, cs: Seq<ChangeV>, n: int)
    requires
        cs.len() == 0,
    ensures
        placed_seq(ks, log, cs, n).len() == 0,
    decreases n,
{
    if n > 0 {
        lemma_placed_seq_empty(ks, log, cs, n - 1);
    }
}

/// The changes of the steps, in order, then the other files, are the
/// changes of the session rearranged: none is lost and none is repeated.
pub proof fn law_changes_placed_as_permutation(evs: Seq<EventV>, cs: Seq<ChangeV>)
    ensures
        (held(steps_of(evs, cs), steps_of(evs, cs).len() as int) + other_files_of(evs, cs)).to_multiset()
            == cs.to_multiset(),
{
    let log = log_of(evs);
    let ks = kept_groups(groups_of(evs), log);
    lemma_held(evs, cs, steps_of(evs, cs).len() as int);
    lemma_permutation(ks, log, cs);
    vstd::seq_lib::lemma_multiset_commutative(
        held(steps_of(evs, cs), steps_of(evs, cs).len() as int),
        other_files_of(evs, cs),
    );
}

} // verus!
