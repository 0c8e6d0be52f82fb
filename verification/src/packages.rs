//! Package state before and after a session.
//!
//! What a `dnf install` actually did is read from the rpm database rather than
//! from the command's output. Commands that are missing or fail are recorded,
//! so a report can say what could not be read instead of quietly claiming
//! nothing changed.

use vstd::prelude::*;

use crate::order::{
    is_sorted_set_of,
    added, added_strings, merge_strings, merged, push_labeled,
    first_after, lemma_first_after, lemma_stable_sort_len, lemma_strs_push, sorted_unique,
    stable_sort, strictly_sorted, strs, to_strings,
};
use crate::text::{
    lemma_map_values_step,
    lemma_filter_map_step,
    chars_lt, chars_of, concat, decimal, ends_with, has_prefix, has_suffix, contains_chars,
    contains, lemma_concat_push, lemma_views_push, lines, lines_chars, lower, lower_chars,
    push_decimal, push_str, seq_equal, seq_lt, split, split_chars, starts_with, string_of,
    trim, trim_chars, views, words, words_chars,
};

verus! {

#[derive(Clone, Debug, PartialEq, Eq, PartialOrd, Ord)]
pub struct Package {
    pub name: String,
    /// Epoch, version and release, as rpm prints `%{EVR}`.
    pub version: String,
    pub arch: String,
}

/// A package as its name, version and architecture.
pub type PackageV = (Seq<char>, Seq<char>, Seq<char>);

impl View for Package {
    type V = PackageV;

    open spec fn view(&self) -> PackageV {
        (self.name@, self.version@, self.arch@)
    }
}

pub open spec fn pkgs(s: Seq<Package>) -> Seq<PackageV> {
    s.map_values(|p: Package| p@)
}

pub proof fn lemma_pkgs_push(s: Seq<Package>, p: Package)
    ensures
        pkgs(s.push(p)) == pkgs(s).push(p@),
{
    assert(pkgs(s.push(p)) =~= pkgs(s).push(p@));
}

impl Package {
    /// A copy of this package.
    pub fn duplicate(&self) -> (r: Package)
        ensures
            r@ == self@,
    {
        Package { name: self.name.clone(), version: self.version.clone(), arch: self.arch.clone() }
    }
}

/// The order that `#[derive(Ord)]` gives `Package`: by name, then version,
/// then architecture.
pub open spec fn package_lt(a: PackageV, b: PackageV) -> bool {
    ||| seq_lt(a.0, b.0)
    ||| (a.0 == b.0 && seq_lt(a.1, b.1))
    ||| (a.0 == b.0 && a.1 == b.1 && seq_lt(a.2, b.2))
}

/// The relation `sort` places packages by: `a` comes after `b`.
pub open spec fn package_after() -> spec_fn(PackageV, PackageV) -> bool {
    |a: PackageV, b: PackageV| package_lt(b, a)
}

fn package_lt_exec(a: &Package, b: &Package) -> (r: bool)
    ensures
        r == package_lt(a@, b@),
{
    let an = chars_of(a.name.as_str());
    let bn = chars_of(b.name.as_str());
    if chars_lt(&an, &bn) {
        return true;
    }
    if !seq_equal(&an, &bn) {
        return false;
    }
    let av = chars_of(a.version.as_str());
    let bv = chars_of(b.version.as_str());
    if chars_lt(&av, &bv) {
        return true;
    }
    if !seq_equal(&av, &bv) {
        return false;
    }
    let aa = chars_of(a.arch.as_str());
    let ba = chars_of(b.arch.as_str());
    chars_lt(&aa, &ba)
}

/// One line of `rpm -qa --qf '%{NAME}\t%{EVR}\t%{ARCH}\n'`: three tab-separated
/// fields, trimmed, with a name.
pub open spec fn rpm_line(line: Seq<char>) -> Option<PackageV> {
    let fields = split(line, '\t');
    if fields.len() < 3 || trim(fields[0]).len() == 0 {
        None
    } else {
        Some((trim(fields[0]), trim(fields[1]), trim(fields[2])))
    }
}

/// The packages listed in `text`, sorted.
pub open spec fn rpm_packages(text: Seq<char>) -> Seq<PackageV> {
    stable_sort(lines(text).filter_map(|l: Seq<char>| rpm_line(l)), package_after())
}

/// Inserts `p` where a stable sort by `package_lt` would place it.
fn insert_package(sorted: &mut Vec<Package>, p: Package)
    ensures
        pkgs(final(sorted)@) == pkgs(old(sorted)@).insert(
            first_after(pkgs(old(sorted)@), p@, package_after()),
            p@,
        ),
{
    let ghost s = pkgs(sorted@);
    let mut k: usize = 0;
    while k < sorted.len() && !package_lt_exec(&p, &sorted[k])
        invariant
            k <= sorted@.len(),
            s == pkgs(sorted@),
            forall|m: int| 0 <= m < k ==> !(package_after())(#[trigger] s[m], p@),
        decreases sorted.len() - k,
    {
        k = k + 1;
    }
    proof {
        lemma_first_after(s, p@, package_after(), k as int);
    }
    let ghost pv = p@;
    sorted.insert(k, p);
    assert(pkgs(sorted@) =~= s.insert(k as int, pv));
}

/// `name\tEVR\tarch` per line, as produced by `rpm -qa --qf`, sorted.
pub fn parse_rpm_qa(text: &str) -> (r: Vec<Package>)
    ensures
        pkgs(r@) == rpm_packages(text@),
{
    let v = chars_of(text);
    let ls = lines_chars(&v);
    let ghost src = views(ls@);
    let ghost f = |l: Seq<char>| rpm_line(l);
    let mut parsed: Vec<Package> = Vec::new();
    let mut i: usize = 0;
    assert(src.take(0).filter_map(f) =~= pkgs(parsed@));
    while i < ls.len()
        invariant
            i <= ls@.len(),
            src == views(ls@),
            src == lines(text@),
            f == (|l: Seq<char>| rpm_line(l)),
            pkgs(parsed@) == src.take(i as int).filter_map(f),
        decreases ls.len() - i,
    {
        assert(src.take(i + 1).drop_last() == src.take(i as int));
        assert(src.take(i + 1).last() == ls@[i as int]@);
        let ghost line = ls@[i as int]@;
        let ghost prev = src.take(i as int).filter_map(f);

        proof { lemma_filter_map_step(src, f, i as int); }
        assert(src.take(i + 1).filter_map(f) == (match rpm_line(line) {
            Some(x) => prev + seq![x],
            None => prev,
        }));
        let fields = split_chars(&ls[i], '\t');
        assert(views(fields@) == split(line, '\t'));
        if fields.len() >= 3 {
            assert(views(fields@)[0] == fields@[0]@);
            assert(views(fields@)[1] == fields@[1]@);
            assert(views(fields@)[2] == fields@[2]@);
            let name = trim_chars(&fields[0]);
            if name.len() > 0 {
                let version = trim_chars(&fields[1]);
                let arch = trim_chars(&fields[2]);
                let p = Package {
                    name: string_of(&name, 0, name.len()),
                    version: string_of(&version, 0, version.len()),
                    arch: string_of(&arch, 0, arch.len()),
                };
                assert(name@.subrange(0, name@.len() as int) == name@);
                assert(version@.subrange(0, version@.len() as int) == version@);
                assert(arch@.subrange(0, arch@.len() as int) == arch@);
                proof { lemma_pkgs_push(parsed@, p); }
                parsed.push(p);
                assert(pkgs(parsed@) =~= prev + seq![rpm_line(line).unwrap()]);
            }
        }
        i = i + 1;
    }
    assert(src.take(ls@.len() as int) == src);
    let ghost all = pkgs(parsed@);
    let mut sorted: Vec<Package> = Vec::new();
    let mut j: usize = 0;
    assert(pkgs(sorted@) =~= stable_sort(all.take(0), package_after()));
    while j < parsed.len()
        invariant
            j <= parsed@.len(),
            all == pkgs(parsed@),
            pkgs(sorted@) == stable_sort(all.take(j as int), package_after()),
        decreases parsed.len() - j,
    {
        assert(all.take(j + 1).drop_last() == all.take(j as int));
        assert(all.take(j + 1).last() == parsed@[j as int]@);
        let p = parsed[j].duplicate();
        insert_package(&mut sorted, p);
        j = j + 1;
    }
    assert(all.take(parsed@.len() as int) == all);
    sorted
}

// ----------------------------------------------------------------------------
// Name lists.


/// A line of dnf's output that holds a name: not blank, no space, not a
/// comment, and not a heading ending in a colon.
pub open spec fn name_line(line: Seq<char>) -> Option<Seq<char>> {
    let t = trim(line);
    if t.len() > 0 && !t.contains(' ') && !starts_with(t, seq!['#']) && !ends_with(t, seq![':']) {
        Some(t)
    } else {
        None
    }
}

/// Collects `f(line)` for every line of `text` where it is `Some`, for the
/// filters whose executable form is `keep`.
fn collect_lines(
    text: &str,
    which: u8,
) -> (r: Vec<Vec<char>>)
    requires
        which < 3,
    ensures
        which == 0 ==> views(r@) == lines(text@).filter_map(|l: Seq<char>| name_line(l)),
        which == 1 ==> views(r@) == lines(text@).filter_map(|l: Seq<char>| repo_line(l)),
        which == 2 ==> views(r@) == lines(text@).filter_map(|l: Seq<char>| module_line(l)),
{
    let v = chars_of(text);
    let ls = lines_chars(&v);
    let ghost src = views(ls@);
    let ghost f0 = |l: Seq<char>| name_line(l);
    let ghost f1 = |l: Seq<char>| repo_line(l);
    let ghost f2 = |l: Seq<char>| module_line(l);
    let mut out: Vec<Vec<char>> = Vec::new();
    let mut i: usize = 0;
    assert(src.take(0).filter_map(f0) =~= views(out@));
    assert(src.take(0).filter_map(f1) =~= views(out@));
    assert(src.take(0).filter_map(f2) =~= views(out@));
    while i < ls.len()
        invariant
            which < 3,
            i <= ls@.len(),
            src == views(ls@),
            src == lines(text@),
            f0 == (|l: Seq<char>| name_line(l)),
            f1 == (|l: Seq<char>| repo_line(l)),
            f2 == (|l: Seq<char>| module_line(l)),
            which == 0 ==> views(out@) == src.take(i as int).filter_map(f0),
            which == 1 ==> views(out@) == src.take(i as int).filter_map(f1),
            which == 2 ==> views(out@) == src.take(i as int).filter_map(f2),
        decreases ls.len() - i,
    {
        assert(src.take(i + 1).drop_last() == src.take(i as int));
        assert(src.take(i + 1).last() == ls@[i as int]@);
        let ghost line = ls@[i as int]@;
        let ghost p0 = src.take(i as int).filter_map(f0);
        let ghost p1 = src.take(i as int).filter_map(f1);
        let ghost p2 = src.take(i as int).filter_map(f2);

        proof {
            lemma_filter_map_step(src, f0, i as int);
            lemma_filter_map_step(src, f1, i as int);
            lemma_filter_map_step(src, f2, i as int);
        }
        assert(src.take(i + 1).filter_map(f0) == (match name_line(line) {
            Some(x) => p0 + seq![x],
            None => p0,
        }));
        assert(src.take(i + 1).filter_map(f1) == (match repo_line(line) {
            Some(x) => p1 + seq![x],
            None => p1,
        }));
        assert(src.take(i + 1).filter_map(f2) == (match module_line(line) {
            Some(x) => p2 + seq![x],
            None => p2,
        }));
        let t = trim_chars(&ls[i]);
        assert(t@ == trim(line));
        let picked: Option<Vec<char>> = if which == 0 {
            keep_name(t)
        } else if which == 1 {
            keep_repo(t)
        } else {
            keep_module(t)
        };
        match picked {
            Some(x) => {
                proof { lemma_views_push(out@, x); }
                out.push(x);
                assert(which == 0 ==> views(out@) =~= p0 + seq![name_line(line).unwrap()]);
                assert(which == 1 ==> views(out@) =~= p1 + seq![repo_line(line).unwrap()]);
                assert(which == 2 ==> views(out@) =~= p2 + seq![module_line(line).unwrap()]);
            },
            None => {},
        }
        i = i + 1;
    }
    assert(src.take(ls@.len() as int) == src);
    out
}

fn keep_name(t: Vec<char>) -> (r: Option<Vec<char>>)
    ensures
        forall|line: Seq<char>| trim(line) == t@ ==> (match r {
            Some(x) => name_line(line) == Some(x@),
            None => name_line(line).is_none(),
        }),
{
    let hash = vec!['#'];
    let colon = vec![':'];
    assert(hash@ =~= seq!['#']);
    assert(colon@ =~= seq![':']);
    if t.len() > 0 && !crate::text::has_char(&t, ' ') && !has_prefix(&t, &hash) && !has_suffix(&t, &colon) {
        Some(t)
    } else {
        None
    }
}

/// A line of `dnf repolist --enabled` that names a repository: its first
/// column, the header and dnf's metadata notice left out.
pub open spec fn repo_line(line: Seq<char>) -> Option<Seq<char>> {
    let t = trim(line);
    let l = lower(t);
    if t.len() > 0 && !starts_with(l, "repo id"@) && !starts_with(l, "last metadata"@)
        && words(t).len() > 0 {
        Some(words(t)[0])
    } else {
        None
    }
}

fn keep_repo(t: Vec<char>) -> (r: Option<Vec<char>>)
    ensures
        forall|line: Seq<char>| trim(line) == t@ ==> (match r {
            Some(x) => repo_line(line) == Some(x@),
            None => repo_line(line).is_none(),
        }),
{
    if t.len() == 0 {
        return None;
    }
    let l = lower_chars(&t);
    let p1 = chars_of("repo id");
    let p2 = chars_of("last metadata");
    if has_prefix(&l, &p1) || has_prefix(&l, &p2) {
        return None;
    }
    let ws = words_chars(&t);
    if ws.len() == 0 {
        return None;
    }
    let first = ws[0].clone();
    assert(first@ == views(ws@)[0]);
    Some(first)
}

/// A line of `dnf module list --enabled` that names a module, kept verbatim
/// because the columns differ between releases.
pub open spec fn module_line(line: Seq<char>) -> Option<Seq<char>> {
    let t = trim(line);
    let l = lower(t);
    if t.len() > 0 && !starts_with(l, "name "@) && !starts_with(l, "last metadata"@)
        && !contains(l, "hint:"@) && !ends_with(l, "repository"@) {
        Some(t)
    } else {
        None
    }
}

fn keep_module(t: Vec<char>) -> (r: Option<Vec<char>>)
    ensures
        forall|line: Seq<char>| trim(line) == t@ ==> (match r {
            Some(x) => module_line(line) == Some(x@),
            None => module_line(line).is_none(),
        }),
{
    if t.len() == 0 {
        return None;
    }
    let l = lower_chars(&t);
    let p1 = chars_of("name ");
    let p2 = chars_of("last metadata");
    let p3 = chars_of("hint:");
    let p4 = chars_of("repository");
    if has_prefix(&l, &p1) || has_prefix(&l, &p2) || contains_chars(&l, &p3) || has_suffix(&l, &p4) {
        return None;
    }
    Some(t)
}

/// One name per line, ignoring dnf's warnings and blank lines; sorted, each
/// once.
pub fn parse_names(text: &str) -> (r: Vec<String>)
    ensures
        is_sorted_set_of(strs(r@), lines(text@).filter_map(|l: Seq<char>| name_line(l))),
{
    let items = collect_lines(text, 0);
    let sorted = sorted_unique(items);
    to_strings(&sorted)
}

/// First column of `dnf repolist --enabled`, without its header; sorted, each
/// once.
pub fn parse_repolist(text: &str) -> (r: Vec<String>)
    ensures
        is_sorted_set_of(strs(r@), lines(text@).filter_map(|l: Seq<char>| repo_line(l))),
{
    let items = collect_lines(text, 1);
    let sorted = sorted_unique(items);
    to_strings(&sorted)
}

/// Lines of `dnf module list --enabled` that name a module; sorted, each once.
pub fn parse_modules(text: &str) -> (r: Vec<String>)
    ensures
        is_sorted_set_of(strs(r@), lines(text@).filter_map(|l: Seq<char>| module_line(l))),
{
    let items = collect_lines(text, 2);
    let sorted = sorted_unique(items);
    to_strings(&sorted)
}

// ----------------------------------------------------------------------------
// Snapshots.

#[derive(Debug, Default, Clone)]
pub struct Snapshot {
    /// False when the host has no rpm, so nothing could be read.
    pub available: bool,
    pub packages: Vec<Package>,
    /// Names dnf reports as installed on purpose, rather than as dependencies.
    /// Empty when dnf could not answer; see `errors`.
    pub user_installed: Vec<String>,
    pub repositories: Vec<String>,
    /// Enabled module streams, as dnf prints them (EL8 and EL9).
    pub modules: Vec<String>,
    /// Commands that could not be run, with the reason.
    pub errors: Vec<String>,
}

impl Snapshot {
    pub fn knows_user_installed(&self) -> (r: bool)
        ensures
            r == (self.user_installed@.len() > 0),
    {
        self.user_installed.len() > 0
    }
}

/// What the package commands answered. `rpm_qa` is `None` when rpm is not
/// installed, `dnf` is `None` when dnf is not; each answer is the command's
/// output, or the reason it failed.
pub struct PackageProbes {
    pub rpm_qa: Option<Result<String, String>>,
    pub dnf: Option<DnfAnswers>,
}

/// The answers of `dnf repoquery --userinstalled`, `dnf repolist --enabled`
/// and `dnf module list --enabled`.
pub struct DnfAnswers {
    pub user_installed: Result<String, String>,
    pub repolist: Result<String, String>,
    pub modules: Result<String, String>,
}

pub open spec fn dnf_missing() -> Seq<char> {
    "dnf is not installed: packages cannot be told apart from their dependencies, and repositories are unknown"@
}

/// Reads the package state from what the probes answered. Never fails as a
/// whole: what could not be read is reported in `errors`.
pub fn capture(probes: PackageProbes) -> (r: Snapshot)
    ensures
        r.available == probes.rpm_qa.is_some(),
        probes.rpm_qa.is_none() ==> r.packages@.len() == 0 && r.user_installed@.len() == 0
            && r.repositories@.len() == 0 && r.modules@.len() == 0 && r.errors@.len() == 0,
        probes.rpm_qa matches Some(rpm) ==> {
            let rpm_errors: Seq<Seq<char>> = match rpm {
                Ok(_) => seq![],
                Err(e) => seq![e@],
            };
            &&& pkgs(r.packages@) == (match rpm {
                Ok(text) => rpm_packages(text@),
                Err(_) => seq![],
            })
            &&& probes.dnf.is_none() ==> {
                &&& strs(r.errors@) == rpm_errors.push(dnf_missing())
                &&& r.user_installed@.len() == 0 && r.repositories@.len() == 0
                    && r.modules@.len() == 0
            }
            &&& probes.dnf matches Some(dnf) ==> {
                &&& strs(r.errors@) == rpm_errors + (match dnf.user_installed {
                    Ok(_) => seq![],
                    Err(e) => seq![e@],
                }) + (match dnf.repolist {
                    Ok(_) => seq![],
                    Err(e) => seq![e@],
                })
                &&& (match dnf.user_installed {
                    Ok(text) => is_sorted_set_of(
                        strs(r.user_installed@),
                        lines(text@).filter_map(|l: Seq<char>| name_line(l)),
                    ),
                    Err(_) => r.user_installed@.len() == 0,
                })
                &&& (match dnf.repolist {
                    Ok(text) => is_sorted_set_of(
                        strs(r.repositories@),
                        lines(text@).filter_map(|l: Seq<char>| repo_line(l)),
                    ),
                    Err(_) => r.repositories@.len() == 0,
                })
                &&& (match dnf.modules {
                    Ok(text) => is_sorted_set_of(
                        strs(r.modules@),
                        lines(text@).filter_map(|l: Seq<char>| module_line(l)),
                    ),
                    Err(_) => r.modules@.len() == 0,
                })
            }
        },
{
    let mut snapshot = Snapshot {
        available: false,
        packages: Vec::new(),
        user_installed: Vec::new(),
        repositories: Vec::new(),
        modules: Vec::new(),
        errors: Vec::new(),
    };
    let rpm = match probes.rpm_qa {
        None => return snapshot,
        Some(rpm) => rpm,
    };
    snapshot.available = true;
    match rpm {
        Ok(text) => snapshot.packages = parse_rpm_qa(text.as_str()),
        Err(e) => {
            proof { lemma_strs_push(snapshot.errors@, e); }
            snapshot.errors.push(e);
        },
    }
    let ghost after_rpm = strs(snapshot.errors@);
    let dnf = match probes.dnf {
        None => {
            let msg = crate::text::owned(
                "dnf is not installed: packages cannot be told apart from their dependencies, and repositories are unknown",
            );
            proof { lemma_strs_push(snapshot.errors@, msg); }
            snapshot.errors.push(msg);
            return snapshot;
        },
        Some(dnf) => dnf,
    };
    match dnf.user_installed {
        Ok(text) => snapshot.user_installed = parse_names(text.as_str()),
        Err(e) => {
            proof { lemma_strs_push(snapshot.errors@, e); }
            snapshot.errors.push(e);
        },
    }
    let ghost after_user = strs(snapshot.errors@);
    match dnf.repolist {
        Ok(text) => snapshot.repositories = parse_repolist(text.as_str()),
        Err(e) => {
            proof { lemma_strs_push(snapshot.errors@, e); }
            snapshot.errors.push(e);
        },
    }
    // Modules exist on EL8 and EL9 only; a failure here is expected elsewhere.
    match dnf.modules {
        Ok(text) => snapshot.modules = parse_modules(text.as_str()),
        Err(_) => {},
    }
    proof {
        assert(after_rpm =~= (match rpm {
            Ok(_) => seq![],
            Err(e) => seq![e@],
        }));
    }
    assert(strs(snapshot.errors@) =~= after_rpm + (match dnf.user_installed {
        Ok(_) => seq![],
        Err(e) => seq![e@],
    }) + (match dnf.repolist {
        Ok(_) => seq![],
        Err(e) => seq![e@],
    }));
    snapshot
}

// ----------------------------------------------------------------------------
// Comparison.

#[derive(Debug, Clone, PartialEq, Eq)]
pub struct Upgrade {
    pub name: String,
    pub arch: String,
    pub from: String,
    pub to: String,
}

/// An upgrade as name, architecture, old version and new version.
pub type UpgradeV = (Seq<char>, Seq<char>, Seq<char>, Seq<char>);

impl View for Upgrade {
    type V = UpgradeV;

    open spec fn view(&self) -> UpgradeV {
        (self.name@, self.arch@, self.from@, self.to@)
    }
}

pub open spec fn upgrades(s: Seq<Upgrade>) -> Seq<UpgradeV> {
    s.map_values(|u: Upgrade| u@)
}

#[derive(Debug, Clone, Default)]
pub struct Diff {
    /// False when either snapshot could not be taken, so nothing is known.
    pub available: bool,
    pub installed: Vec<Package>,
    pub removed: Vec<Package>,
    pub upgraded: Vec<Upgrade>,
    /// Of the installed packages, those dnf says were asked for by name;
    /// sorted, each once.
    pub explicit: Vec<String>,
    /// Whether dnf could tell explicit installs from dependencies at all.
    pub explicit_known: bool,
    pub repositories_added: Vec<String>,
    pub repositories_removed: Vec<String>,
    pub modules_added: Vec<String>,
    /// Reasons the picture may be incomplete, from either snapshot.
    pub errors: Vec<String>,
}

/// Whether an installed package counts as asked for by name.
pub open spec fn is_explicit(d: Diff, name: Seq<char>) -> bool {
    !d.explicit_known || strs(d.explicit@).contains(name)
}

pub open spec fn explicit_of(d: Diff) -> Seq<PackageV> {
    pkgs(d.installed@).filter_map(|p: PackageV| if is_explicit(d, p.0) { Some(p) } else { None })
}

pub open spec fn dependencies_of(d: Diff) -> Seq<PackageV> {
    pkgs(d.installed@).filter_map(|p: PackageV| if !is_explicit(d, p.0) { Some(p) } else { None })
}

impl Diff {
    /// Nothing is known: the state of a runbook before a package comparison
    /// is attributed to it.
    pub open spec fn spec_unknown(&self) -> bool {
        &&& !self.available
        &&& !self.explicit_known
        &&& self.spec_is_empty()
        &&& self.explicit@.len() == 0
        &&& self.errors@.len() == 0
    }

    pub fn unknown() -> (r: Diff)
        ensures
            r.spec_unknown(),
    {
        Diff {
            available: false,
            installed: Vec::new(),
            removed: Vec::new(),
            upgraded: Vec::new(),
            explicit: Vec::new(),
            explicit_known: false,
            repositories_added: Vec::new(),
            repositories_removed: Vec::new(),
            modules_added: Vec::new(),
            errors: Vec::new(),
        }
    }

    pub open spec fn spec_is_empty(&self) -> bool {
        &&& self.installed@.len() == 0
        &&& self.removed@.len() == 0
        &&& self.upgraded@.len() == 0
        &&& self.repositories_added@.len() == 0
        &&& self.repositories_removed@.len() == 0
        &&& self.modules_added@.len() == 0
    }

    pub fn is_empty(&self) -> (r: bool)
        ensures
            r == self.spec_is_empty(),
    {
        self.installed.len() == 0 && self.removed.len() == 0 && self.upgraded.len() == 0
            && self.repositories_added.len() == 0 && self.repositories_removed.len() == 0
            && self.modules_added.len() == 0
    }

    fn installs_where(&self, explicit: bool) -> (r: Vec<Package>)
        ensures
            explicit ==> pkgs(r@) == explicit_of(*self),
            !explicit ==> pkgs(r@) == dependencies_of(*self),
    {
        let ghost a = pkgs(self.installed@);
        let ghost fe = |p: PackageV| if is_explicit(*self, p.0) { Some(p) } else { None };
        let ghost fd = |p: PackageV| if !is_explicit(*self, p.0) { Some(p) } else { None };
        let mut r: Vec<Package> = Vec::new();
        let mut i: usize = 0;
        assert(a.take(0).filter_map(fe) =~= pkgs(r@));
        assert(a.take(0).filter_map(fd) =~= pkgs(r@));
        while i < self.installed.len()
            invariant
                i <= self.installed@.len(),
                a == pkgs(self.installed@),
                fe == (|p: PackageV| if is_explicit(*self, p.0) { Some(p) } else { None }),
                fd == (|p: PackageV| if !is_explicit(*self, p.0) { Some(p) } else { None }),
                explicit ==> pkgs(r@) == a.take(i as int).filter_map(fe),
                !explicit ==> pkgs(r@) == a.take(i as int).filter_map(fd),
            decreases self.installed.len() - i,
        {
            proof {
                lemma_filter_map_step(a, fe, i as int);
                lemma_filter_map_step(a, fd, i as int);
            }
            let p = &self.installed[i];
            let is = !self.explicit_known || crate::order::contains_str(&self.explicit, &p.name);
            if is == explicit {
                let c = p.duplicate();
                proof { lemma_pkgs_push(r@, c); }
                r.push(c);
            }
            i = i + 1;
        }
        assert(a.take(a.len() as int) == a);
        r
    }

    /// Installed packages the operator asked for by name. With no answer from
    /// dnf, every installed package is treated as explicit: hiding them would
    /// leave the runbook with nothing to say.
    pub fn explicit_installs(&self) -> (r: Vec<Package>)
        ensures
            pkgs(r@) == explicit_of(*self),
    {
        self.installs_where(true)
    }

    /// Installed only to satisfy something else.
    pub fn dependency_installs(&self) -> (r: Vec<Package>)
        ensures
            pkgs(r@) == dependencies_of(*self),
    {
        self.installs_where(false)
    }
}

/// The version of the last package in `list` with this name and
/// architecture, as a map built from the list would hold it.
pub open spec fn version_in(list: Seq<PackageV>, name: Seq<char>, arch: Seq<char>) -> Option<Seq<char>>
    decreases list.len(),
{
    if list.len() == 0 {
        None
    } else if list.last().0 == name && list.last().2 == arch {
        Some(list.last().1)
    } else {
        version_in(list.drop_last(), name, arch)
    }
}

fn find_version(list: &Vec<Package>, name: &String, arch: &String) -> (r: Option<usize>)
    ensures
        match r {
            Some(j) => j < list@.len() && version_in(pkgs(list@), name@, arch@) == Some(list@[j as int].version@),
            None => version_in(pkgs(list@), name@, arch@).is_none(),
        },
{
    let ghost l = pkgs(list@);
    let mut j = list.len();
    assert(l.take(j as int) == l);
    while j > 0
        invariant
            j <= list@.len(),
            l == pkgs(list@),
            version_in(l, name@, arch@) == version_in(l.take(j as int), name@, arch@),
        decreases j,
    {
        let ghost t = l.take(j as int);
        assert(t.last() == list@[j - 1]@);
        assert(t.drop_last() == l.take(j - 1));
        if list[j - 1].name == *name && list[j - 1].arch == *arch {
            return Some(j - 1);
        }
        j = j - 1;
    }
    assert(l.take(0).len() == 0);
    None
}

pub open spec fn installed_of(before: Seq<PackageV>, after: Seq<PackageV>) -> Seq<PackageV> {
    after.filter_map(|p: PackageV| if version_in(before, p.0, p.2).is_none() { Some(p) } else { None })
}

pub open spec fn upgraded_of(before: Seq<PackageV>, after: Seq<PackageV>) -> Seq<UpgradeV> {
    after.filter_map(|p: PackageV| match version_in(before, p.0, p.2) {
        Some(v) => if v != p.1 { Some((p.0, p.2, v, p.1)) } else { None },
        None => None,
    })
}

/// Compares two snapshots. Nothing is reported changed unless both were
/// available; errors of both are kept, each once.
pub fn compare(before: &Snapshot, after: &Snapshot) -> (r: Diff)
    ensures
        r.available == (before.available && after.available),
        r.explicit_known == (after.user_installed@.len() > 0),
        strs(r.errors@) == merged(strs(before.errors@), strs(after.errors@)),
        !r.available ==> r.spec_is_empty() && r.explicit@.len() == 0,
        r.available ==> {
            &&& pkgs(r.installed@) == installed_of(pkgs(before.packages@), pkgs(after.packages@))
            &&& upgrades(r.upgraded@) == upgraded_of(pkgs(before.packages@), pkgs(after.packages@))
            &&& pkgs(r.removed@) == installed_of(pkgs(after.packages@), pkgs(before.packages@))
            &&& is_sorted_set_of(
                strs(r.explicit@),
                added(strs(before.user_installed@), strs(after.user_installed@)),
            )
            &&& strs(r.repositories_added@) == added(strs(before.repositories@), strs(after.repositories@))
            &&& strs(r.repositories_removed@) == added(strs(after.repositories@), strs(before.repositories@))
            &&& strs(r.modules_added@) == added(strs(before.modules@), strs(after.modules@))
        },
{
    let mut diff = Diff {
        available: before.available && after.available,
        installed: Vec::new(),
        removed: Vec::new(),
        upgraded: Vec::new(),
        explicit: Vec::new(),
        explicit_known: after.knows_user_installed(),
        repositories_added: Vec::new(),
        repositories_removed: Vec::new(),
        modules_added: Vec::new(),
        errors: merge_strings(&before.errors, &after.errors),
    };
    if !diff.available {
        return diff;
    }
    let ghost b = pkgs(before.packages@);
    let ghost a = pkgs(after.packages@);
    let ghost fi = |p: PackageV| if version_in(b, p.0, p.2).is_none() { Some(p) } else { None };
    let ghost fu = |p: PackageV| match version_in(b, p.0, p.2) {
        Some(v) => if v != p.1 { Some((p.0, p.2, v, p.1)) } else { None },
        None => None,
    };
    let mut i: usize = 0;
    assert(a.take(0).filter_map(fi) =~= pkgs(diff.installed@));
    assert(a.take(0).filter_map(fu) =~= upgrades(diff.upgraded@));
    while i < after.packages.len()
        invariant
            i <= after.packages@.len(),
            a == pkgs(after.packages@),
            b == pkgs(before.packages@),
            fi == (|p: PackageV| if version_in(b, p.0, p.2).is_none() { Some(p) } else { None }),
            fu == (|p: PackageV| match version_in(b, p.0, p.2) {
                Some(v) => if v != p.1 { Some((p.0, p.2, v, p.1)) } else { None },
                None => None,
            }),
            pkgs(diff.installed@) == a.take(i as int).filter_map(fi),
            upgrades(diff.upgraded@) == a.take(i as int).filter_map(fu),
            diff.available == (before.available && after.available),
            diff.explicit_known == (after.user_installed@.len() > 0),
            strs(diff.errors@) == merged(strs(before.errors@), strs(after.errors@)),
            diff.removed@.len() == 0,
        decreases after.packages.len() - i,
    {
        proof {
            lemma_filter_map_step(a, fi, i as int);
            lemma_filter_map_step(a, fu, i as int);
        }
        let package = &after.packages[i];
        assert(a[i as int] == package@);
        match find_version(&before.packages, &package.name, &package.arch) {
            None => {
                let c = package.duplicate();
                proof { lemma_pkgs_push(diff.installed@, c); }
                diff.installed.push(c);
            },
            Some(j) => {
                if before.packages[j].version != package.version {
                    let u = Upgrade {
                        name: package.name.clone(),
                        arch: package.arch.clone(),
                        from: before.packages[j].version.clone(),
                        to: package.version.clone(),
                    };
                    let ghost uv = u@;
                    diff.upgraded.push(u);
                    assert(upgrades(diff.upgraded@) =~= a.take(i as int).filter_map(fu).push(uv));
                }
            },
        }
        i = i + 1;
    }
    assert(a.take(a.len() as int) == a);
    assert(pkgs(diff.installed@) == installed_of(b, a));
    assert(upgrades(diff.upgraded@) == upgraded_of(b, a));
    let ghost fr = |p: PackageV| if version_in(a, p.0, p.2).is_none() { Some(p) } else { None };
    let mut k: usize = 0;
    assert(b.take(0).filter_map(fr) =~= pkgs(diff.removed@));
    while k < before.packages.len()
        invariant
            k <= before.packages@.len(),
            a == pkgs(after.packages@),
            b == pkgs(before.packages@),
            fr == (|p: PackageV| if version_in(a, p.0, p.2).is_none() { Some(p) } else { None }),
            pkgs(diff.removed@) == b.take(k as int).filter_map(fr),
            pkgs(diff.installed@) == installed_of(b, a),
            upgrades(diff.upgraded@) == upgraded_of(b, a),
            diff.available == (before.available && after.available),
            diff.explicit_known == (after.user_installed@.len() > 0),
            strs(diff.errors@) == merged(strs(before.errors@), strs(after.errors@)),
        decreases before.packages.len() - k,
    {
        proof { lemma_filter_map_step(b, fr, k as int); }
        let package = &before.packages[k];
        assert(b[k as int] == package@);
        if find_version(&after.packages, &package.name, &package.arch).is_none() {
            let c = package.duplicate();
            proof { lemma_pkgs_push(diff.removed@, c); }
            diff.removed.push(c);
        }
        k = k + 1;
    }
    assert(b.take(b.len() as int) == b);

    let new_names = added_strings(&before.user_installed, &after.user_installed);
    let explicit = sorted_unique(to_char_vectors(&new_names));
    diff.explicit = to_strings(&explicit);
    diff.repositories_added = added_strings(&before.repositories, &after.repositories);
    diff.repositories_removed = added_strings(&after.repositories, &before.repositories);
    diff.modules_added = added_strings(&before.modules, &after.modules);
    diff
}

/// The characters of each string.
fn to_char_vectors(v: &Vec<String>) -> (r: Vec<Vec<char>>)
    ensures
        views(r@) == strs(v@),
{
    let mut r: Vec<Vec<char>> = Vec::new();
    let mut i: usize = 0;
    while i < v.len()
        invariant
            i <= v@.len(),
            views(r@) == strs(v@.take(i as int)),
        decreases v.len() - i,
    {
        let c = chars_of(v[i].as_str());
        proof { lemma_views_push(r@, c); }
        r.push(c);
        assert(strs(v@.take(i + 1)) =~= strs(v@.take(i as int)).push(v@[i as int]@));
        i = i + 1;
    }
    assert(v@.take(v@.len() as int) == v@);
    r
}

// ----------------------------------------------------------------------------
// Report.

/// `label name-version.arch` and a newline.
pub open spec fn package_line(label: Seq<char>, p: PackageV) -> Seq<char> {
    label + p.0 + seq!['-'] + p.1 + seq!['.'] + p.2 + seq!['\n']
}

pub open spec fn package_lines(label: Seq<char>, list: Seq<PackageV>) -> Seq<char> {
    concat(list.map_values(|p: PackageV| package_line(label, p)))
}

pub open spec fn upgrade_line(u: UpgradeV) -> Seq<char> {
    "upgraded     "@ + u.0 + seq![' '] + u.2 + seq![' ', '-', '>', ' '] + u.3 + seq!['\n']
}

pub open spec fn dependency_line(n: nat) -> Seq<char> {
    if n > 0 {
        "installed    "@ + decimal(n) + " package(s) as dependencies\n"@
    } else {
        Seq::empty()
    }
}

/// The plain report of a package comparison.
pub open spec fn report(d: Diff) -> Seq<char> {
    package_lines("installed    "@, explicit_of(d))
        + dependency_line(dependencies_of(d).len())
        + package_lines("removed      "@, pkgs(d.removed@))
        + concat(upgrades(d.upgraded@).map_values(|u: UpgradeV| upgrade_line(u)))
        + crate::text::labeled_lines("repo added   "@, strs(d.repositories_added@))
        + crate::text::labeled_lines("repo removed "@, strs(d.repositories_removed@))
        + crate::text::labeled_lines("module       "@, strs(d.modules_added@))
        + crate::text::labeled_lines("warning      "@, strs(d.errors@))
}

fn push_package_lines(out: &mut String, label: &str, list: &Vec<Package>)
    ensures
        final(out)@ == old(out)@ + package_lines(label@, pkgs(list@)),
{
    let ghost a = pkgs(list@);
    let ghost f = |p: PackageV| package_line(label@, p);
    let ghost start = out@;
    let mut i: usize = 0;
    assert(concat(a.take(0).map_values(f)) =~= Seq::<char>::empty());
    assert(out@ =~= start + concat(a.take(0).map_values(f)));
    while i < list.len()
        invariant
            i <= list@.len(),
            a == pkgs(list@),
            f == (|p: PackageV| package_line(label@, p)),
            out@ == start + concat(a.take(i as int).map_values(f)),
        decreases list.len() - i,
    {
        proof {
            lemma_map_values_step(a, f, i as int);
            lemma_concat_push(a.take(i as int).map_values(f), f(a[i as int]));
        }
        let p = &list[i];
        push_str(out, label);
        push_str(out, p.name.as_str());
        crate::text::push_char(out, '-');
        push_str(out, p.version.as_str());
        crate::text::push_char(out, '.');
        push_str(out, p.arch.as_str());
        crate::text::push_char(out, '\n');
        assert(out@ =~= start + concat(a.take(i + 1).map_values(f)));
        i = i + 1;
    }
    assert(a.take(a.len() as int) == a);
}

fn push_upgrade_lines(out: &mut String, list: &Vec<Upgrade>)
    ensures
        final(out)@ == old(out)@ + concat(upgrades(list@).map_values(|u: UpgradeV| upgrade_line(u))),
{
    let ghost a = upgrades(list@);
    let ghost f = |u: UpgradeV| upgrade_line(u);
    let ghost start = out@;
    let mut i: usize = 0;
    assert(concat(a.take(0).map_values(f)) =~= Seq::<char>::empty());
    assert(out@ =~= start + concat(a.take(0).map_values(f)));
    while i < list.len()
        invariant
            i <= list@.len(),
            a == upgrades(list@),
            f == (|u: UpgradeV| upgrade_line(u)),
            out@ == start + concat(a.take(i as int).map_values(f)),
        decreases list.len() - i,
    {
        proof {
            lemma_map_values_step(a, f, i as int);
            lemma_concat_push(a.take(i as int).map_values(f), f(a[i as int]));
        }
        let u = &list[i];
        assert(a[i as int] == u@);
        push_str(out, "upgraded     ");
        push_str(out, u.name.as_str());
        crate::text::push_char(out, ' ');
        push_str(out, u.from.as_str());
        crate::text::push_char(out, ' ');
        crate::text::push_char(out, '-');
        crate::text::push_char(out, '>');
        crate::text::push_char(out, ' ');
        push_str(out, u.to.as_str());
        crate::text::push_char(out, '\n');
        assert(out@ =~= start + concat(a.take(i + 1).map_values(f)));
        i = i + 1;
    }
    assert(a.take(a.len() as int) == a);
    assert(a.map_values(f) == upgrades(list@).map_values(|u: UpgradeV| upgrade_line(u)));
}

/// A plain report for `exarare diff`, in English like the rest of the CLI.
pub fn render(diff: &Diff) -> (r: String)
    ensures
        r@ == report(*diff),
{
    let mut out = String::new();
    let explicit = diff.explicit_installs();
    push_package_lines(&mut out, "installed    ", &explicit);
    let dependencies = diff.dependency_installs();
    let ghost at_deps = out@;
    if dependencies.len() > 0 {
        push_str(&mut out, "installed    ");
        push_decimal(&mut out, dependencies.len() as u64);
        push_str(&mut out, " package(s) as dependencies\n");
    }
    assert(out@ =~= at_deps + dependency_line(dependencies@.len()));
    push_package_lines(&mut out, "removed      ", &diff.removed);
    push_upgrade_lines(&mut out, &diff.upgraded);
    push_labeled(&mut out, "repo added   ", &diff.repositories_added);
    push_labeled(&mut out, "repo removed ", &diff.repositories_removed);
    push_labeled(&mut out, "module       ", &diff.modules_added);
    push_labeled(&mut out, "warning      ", &diff.errors);
    assert(out@ =~= report(*diff));
    out
}

// ----------------------------------------------------------------------------
// Laws of the package comparison.

proof fn lemma_split_installs(d: Diff, s: Seq<PackageV>)
    ensures
        s.filter_map(|p: PackageV| if is_explicit(d, p.0) { Some(p) } else { None }).len()
            + s.filter_map(|p: PackageV| if !is_explicit(d, p.0) { Some(p) } else { None }).len() == s.len(),
    decreases s.len(),
{
    if s.len() > 0 {
        lemma_split_installs(d, s.drop_last());
    }
}

/// Each installed package is either asked for by name or a dependency,
/// never both.
pub proof fn law_installs_split(d: Diff)
    ensures
        explicit_of(d).len() + dependencies_of(d).len() == d.installed@.len(),
{
    lemma_split_installs(d, pkgs(d.installed@));
}

proof fn lemma_all_kept(d: Diff, s: Seq<PackageV>)
    requires
        !d.explicit_known,
    ensures
        s.filter_map(|p: PackageV| if is_explicit(d, p.0) { Some(p) } else { None }) == s,
    decreases s.len(),
{
    if s.len() > 0 {
        lemma_all_kept(d, s.drop_last());
        assert(s.drop_last().push(s.last()) =~= s);
    }
}

/// Without an answer from dnf, every installed package counts as asked for:
/// hiding them would leave the runbook with nothing to say.
pub proof fn law_without_dnf_all_explicit(d: Diff)
    requires
        !d.explicit_known,
    ensures
        explicit_of(d) == pkgs(d.installed@),
        dependencies_of(d).len() == 0,
{
    lemma_all_kept(d, pkgs(d.installed@));
    law_installs_split(d);
}

proof fn lemma_version_found(s: Seq<PackageV>, i: int)
    requires
        0 <= i < s.len(),
    ensures
        version_in(s, s[i].0, s[i].2).is_some(),
    decreases s.len(),
{
    if i < s.len() - 1 {
        let last = s.last();
        if !(last.0 == s[i].0 && last.2 == s[i].2) {
            assert(s.drop_last()[i] == s[i]);
            lemma_version_found(s.drop_last(), i);
        }
    }
}

/// Each name and architecture occurs once.
pub open spec fn unique_packages(s: Seq<PackageV>) -> bool {
    forall|i: int, j: int| 0 <= i < j < s.len() ==> !(#[trigger] s[i].0 == #[trigger] s[j].0 && s[i].2 == s[j].2)
}

proof fn lemma_version_exact(s: Seq<PackageV>, i: int)
    requires
        0 <= i < s.len(),
        unique_packages(s),
    ensures
        version_in(s, s[i].0, s[i].2) == Some(s[i].1),
    decreases s.len(),
{
    if i < s.len() - 1 {
        assert(!(s[i].0 == s[s.len() - 1].0 && s[i].2 == s[s.len() - 1].2));
        assert(s.drop_last()[i] == s[i]);
        assert(unique_packages(s.drop_last())) by {
            assert forall|a: int, b: int| 0 <= a < b < s.drop_last().len() implies
                !(#[trigger] s.drop_last()[a].0 == #[trigger] s.drop_last()[b].0 && s.drop_last()[a].2 == s.drop_last()[b].2) by {
                assert(s.drop_last()[a] == s[a] && s.drop_last()[b] == s[b]);
            }
        }
        lemma_version_exact(s.drop_last(), i);
    }
}

proof fn lemma_nothing_new(before: Seq<PackageV>, s: Seq<PackageV>)
    requires
        forall|i: int| 0 <= i < s.len() ==> version_in(before, #[trigger] s[i].0, s[i].2).is_some(),
    ensures
        installed_of(before, s).len() == 0,
    decreases s.len(),
{
    if s.len() > 0 {
        assert(version_in(before, s[s.len() - 1].0, s[s.len() - 1].2).is_some());
        assert forall|i: int| 0 <= i < s.drop_last().len() implies version_in(before, #[trigger] s.drop_last()[i].0, s.drop_last()[i].2).is_some() by {
            assert(s.drop_last()[i] == s[i]);
        }
        lemma_nothing_new(before, s.drop_last());
    }
}

proof fn lemma_nothing_upgraded(before: Seq<PackageV>, s: Seq<PackageV>)
    requires
        forall|i: int| 0 <= i < s.len() ==> version_in(before, #[trigger] s[i].0, s[i].2) == Some(s[i].1),
    ensures
        upgraded_of(before, s).len() == 0,
    decreases s.len(),
{
    if s.len() > 0 {
        assert(version_in(before, s[s.len() - 1].0, s[s.len() - 1].2) == Some(s[s.len() - 1].1));
        assert forall|i: int| 0 <= i < s.drop_last().len() implies version_in(before, #[trigger] s.drop_last()[i].0, s.drop_last()[i].2) == Some(s.drop_last()[i].1) by {
            assert(s.drop_last()[i] == s[i]);
        }
        lemma_nothing_upgraded(before, s.drop_last());
    }
}

/// Comparing the packages of a host with themselves reports nothing
/// installed or removed; nothing upgraded either, when each name and
/// architecture is installed once.
pub proof fn law_same_packages_no_change(s: Seq<PackageV>)
    ensures
        installed_of(s, s).len() == 0,
        unique_packages(s) ==> upgraded_of(s, s).len() == 0,
{
    assert forall|i: int| 0 <= i < s.len() implies version_in(s, #[trigger] s[i].0, s[i].2).is_some() by {
        lemma_version_found(s, i);
    }
    lemma_nothing_new(s, s);
    if unique_packages(s) {
        assert forall|i: int| 0 <= i < s.len() implies version_in(s, #[trigger] s[i].0, s[i].2) == Some(s[i].1) by {
            lemma_version_exact(s, i);
        }
        lemma_nothing_upgraded(s, s);
    }
}

/// Lines that are none of them empty make an empty text only when there is
/// no line.
proof fn lemma_concat_empty(s: Seq<Seq<char>>)
    requires
        forall|i: int| 0 <= i < s.len() ==> (#[trigger] s[i]).len() > 0,
    ensures
        (concat(s).len() == 0) == (s.len() == 0),
    decreases s.len(),
{
    if s.len() > 0 {
        assert(s.last().len() > 0);
        assert(concat(s) == concat(s.drop_last()) + s.last());
    }
}

/// The report of a package comparison is empty exactly when nothing was
/// installed, removed, upgraded, or added or removed among repositories and
/// modules, and no warning was carried.
pub proof fn law_report_empty_iff_nothing(d: Diff)
    ensures
        (report(d).len() == 0) == (d.spec_is_empty() && d.errors@.len() == 0),
{
    law_installs_split(d);
    reveal_strlit("installed    ");
    let ex = explicit_of(d);
    let f1 = |p: PackageV| package_line("installed    "@, p);
    lemma_concat_empty(ex.map_values(f1));
    let rm = pkgs(d.removed@);
    let f2 = |p: PackageV| package_line("removed      "@, p);
    lemma_concat_empty(rm.map_values(f2));
    let up = upgrades(d.upgraded@);
    let f3 = |u: UpgradeV| upgrade_line(u);
    lemma_concat_empty(up.map_values(f3));
    let f4 = |x: Seq<char>| "repo added   "@ + x + seq!['\n'];
    lemma_concat_empty(strs(d.repositories_added@).map_values(f4));
    let f5 = |x: Seq<char>| "repo removed "@ + x + seq!['\n'];
    lemma_concat_empty(strs(d.repositories_removed@).map_values(f5));
    let f6 = |x: Seq<char>| "module       "@ + x + seq!['\n'];
    lemma_concat_empty(strs(d.modules_added@).map_values(f6));
    let f7 = |x: Seq<char>| "warning      "@ + x + seq!['\n'];
    lemma_concat_empty(strs(d.errors@).map_values(f7));
    assert(dependency_line(dependencies_of(d).len()).len() == 0 <==> dependencies_of(d).len() == 0);
}

proof fn lemma_version_in_listed(list: Seq<PackageV>, name: Seq<char>, arch: Seq<char>)
    ensures
        version_in(list, name, arch) matches Some(v) ==> list.contains((name, v, arch)),
    decreases list.len(),
{
    if list.len() > 0 {
        let rest = list.drop_last();
        lemma_version_in_listed(rest, name, arch);
        if list.last().0 == name && list.last().2 == arch {
            assert(list[list.len() - 1] == (name, list.last().1, arch));
        } else if version_in(rest, name, arch) is Some {
            let v = version_in(rest, name, arch)->Some_0;
            let j = choose|j: int| 0 <= j < rest.len() && rest[j] == (name, v, arch);
            assert(list[j] == rest[j]);
        }
    }
}

/// An upgrade found by comparing two listings goes from the version the
/// `before` listing holds for that name and architecture to the version of a
/// package of the `after` listing, and the two versions differ.
pub proof fn law_upgrade_goes_from_before_to_after(before: Seq<PackageV>, after: Seq<PackageV>)
    ensures
        forall|k: int|
            #![trigger upgraded_of(before, after)[k]]
            0 <= k < upgraded_of(before, after).len() ==> {
                let u = upgraded_of(before, after)[k];
                &&& version_in(before, u.0, u.1) == Some(u.2)
                &&& before.contains((u.0, u.2, u.1))
                &&& after.contains((u.0, u.3, u.1))
                &&& u.2 != u.3
            },
{
    let f = |p: PackageV| match version_in(before, p.0, p.2) {
        Some(v) => if v != p.1 { Some((p.0, p.2, v, p.1)) } else { None },
        None => None,
    };
    assert forall|k: int|
        #![trigger upgraded_of(before, after)[k]]
        0 <= k < upgraded_of(before, after).len() implies {
            let u = upgraded_of(before, after)[k];
            &&& version_in(before, u.0, u.1) == Some(u.2)
            &&& before.contains((u.0, u.2, u.1))
            &&& after.contains((u.0, u.3, u.1))
            &&& u.2 != u.3
        } by {
        let u = upgraded_of(before, after)[k];
        assert(after.filter_map(f).contains(u));
        crate::text::lemma_filter_map_contains(after, f, u);
        let i = choose|i: int| 0 <= i < after.len() && #[trigger] f(after[i]) == Some(u);
        assert(after[i] == (u.0, u.3, u.1));
        lemma_version_in_listed(before, u.0, u.1);
    }
}

/// Each upgrade of a package comparison is reported on a line of its own,
/// the old version before the arrow and the new one after it:
/// `upgraded     {name} {from} -> {to}`.
pub proof fn law_upgrade_reported_old_first(d: Diff)
    ensures
        forall|k: int|
            #![trigger d.upgraded@[k]]
            0 <= k < d.upgraded@.len() ==> contains(
                report(d),
                "upgraded     "@ + d.upgraded@[k].name@ + " "@ + d.upgraded@[k].from@ + " -> "@
                    + d.upgraded@[k].to@ + "\n"@,
            ),
{
    reveal_strlit(" ");
    reveal_strlit(" -> ");
    reveal_strlit("\n");
    let up = upgrades(d.upgraded@);
    let f3 = |u: UpgradeV| upgrade_line(u);
    let ups = up.map_values(f3);
    let pre = package_lines("installed    "@, explicit_of(d)) + dependency_line(dependencies_of(d).len())
        + package_lines("removed      "@, pkgs(d.removed@));
    let post = crate::text::labeled_lines("repo added   "@, strs(d.repositories_added@))
        + crate::text::labeled_lines("repo removed "@, strs(d.repositories_removed@))
        + crate::text::labeled_lines("module       "@, strs(d.modules_added@))
        + crate::text::labeled_lines("warning      "@, strs(d.errors@));
    assert(report(d) =~= pre + concat(ups) + post);
    assert forall|k: int|
        #![trigger d.upgraded@[k]]
        0 <= k < d.upgraded@.len() implies contains(
            report(d),
            "upgraded     "@ + d.upgraded@[k].name@ + " "@ + d.upgraded@[k].from@ + " -> "@
                + d.upgraded@[k].to@ + "\n"@,
        ) by {
        let u = d.upgraded@[k];
        assert(ups[k] == upgrade_line(u@));
        assert(upgrade_line(u@) =~= "upgraded     "@ + u.name@ + " "@ + u.from@ + " -> "@ + u.to@ + "\n"@);
        crate::text::lemma_concat_contains(ups, k);
        crate::text::lemma_contains_within(pre, concat(ups), post, ups[k]);
    }
}

proof fn lemma_listed_line(label: Seq<char>, list: Seq<PackageV>, k: int)
    requires
        0 <= k < list.len(),
    ensures
        contains(package_lines(label, list), label + list[k].0 + seq!['-'] + list[k].1 + seq!['.'] + list[k].2 + seq!['\n']),
{
    let f = |p: PackageV| package_line(label, p);
    assert(list.map_values(f)[k] == package_line(label, list[k]));
    crate::text::lemma_concat_contains(list.map_values(f), k);
}

/// Each removed package, and each installed package that counts as asked
/// for by name, is reported on a line of its own as `name-version.arch`,
/// under its own label.
pub proof fn law_packages_reported_by_label(d: Diff)
    ensures
        forall|k: int|
            #![trigger d.removed@[k]]
            0 <= k < d.removed@.len() ==> contains(
                report(d),
                "removed      "@ + d.removed@[k].name@ + seq!['-'] + d.removed@[k].version@ + seq!['.']
                    + d.removed@[k].arch@ + seq!['\n'],
            ),
        forall|k: int|
            #![trigger d.installed@[k]]
            0 <= k < d.installed@.len() && (!d.explicit_known || strs(d.explicit@).contains(d.installed@[k].name@))
                ==> contains(
                report(d),
                "installed    "@ + d.installed@[k].name@ + seq!['-'] + d.installed@[k].version@ + seq!['.']
                    + d.installed@[k].arch@ + seq!['\n'],
            ),
{
    let ins = package_lines("installed    "@, explicit_of(d));
    let dep = dependency_line(dependencies_of(d).len());
    let rem = package_lines("removed      "@, pkgs(d.removed@));
    let post = concat(upgrades(d.upgraded@).map_values(|u: UpgradeV| upgrade_line(u)))
        + crate::text::labeled_lines("repo added   "@, strs(d.repositories_added@))
        + crate::text::labeled_lines("repo removed "@, strs(d.repositories_removed@))
        + crate::text::labeled_lines("module       "@, strs(d.modules_added@))
        + crate::text::labeled_lines("warning      "@, strs(d.errors@));
    assert(report(d) =~= (ins + dep) + rem + post);
    assert(report(d) =~= Seq::<char>::empty() + ins + (dep + rem + post));
    assert forall|k: int|
        #![trigger d.removed@[k]]
        0 <= k < d.removed@.len() implies contains(
            report(d),
            "removed      "@ + d.removed@[k].name@ + seq!['-'] + d.removed@[k].version@ + seq!['.']
                + d.removed@[k].arch@ + seq!['\n'],
        ) by {
        assert(pkgs(d.removed@)[k] == d.removed@[k]@);
        lemma_listed_line("removed      "@, pkgs(d.removed@), k);
        crate::text::lemma_contains_within(ins + dep, rem, post, "removed      "@ + d.removed@[k].name@ + seq!['-']
            + d.removed@[k].version@ + seq!['.'] + d.removed@[k].arch@ + seq!['\n']);
    }
    assert forall|k: int|
        #![trigger d.installed@[k]]
        0 <= k < d.installed@.len() && (!d.explicit_known || strs(d.explicit@).contains(d.installed@[k].name@))
            implies contains(
            report(d),
            "installed    "@ + d.installed@[k].name@ + seq!['-'] + d.installed@[k].version@ + seq!['.']
                + d.installed@[k].arch@ + seq!['\n'],
        ) by {
        let all = pkgs(d.installed@);
        let f = |p: PackageV| if is_explicit(d, p.0) { Some(p) } else { None };
        let p = all[k];
        assert(p == d.installed@[k]@);
        assert(f(all[k]) == Some(p));
        crate::text::lemma_filter_map_contains(all, f, p);
        let ex = explicit_of(d);
        assert(ex == all.filter_map(f));
        let j = choose|j: int| 0 <= j < ex.len() && ex[j] == p;
        lemma_listed_line("installed    "@, ex, j);
        crate::text::lemma_contains_within(Seq::<char>::empty(), ins, dep + rem + post, "installed    "@ + d.installed@[k].name@
            + seq!['-'] + d.installed@[k].version@ + seq!['.'] + d.installed@[k].arch@ + seq!['\n']);
    }
}

} // verus!
