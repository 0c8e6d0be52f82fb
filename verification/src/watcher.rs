//! Which touched paths the filesystem watcher keeps, and the record of them.
//!
//! This complements the snapshots rather than replacing them. A snapshot says
//! what a file's content became; the watcher says a path was written to at
//! all, which covers two cases the snapshots miss: a directory nobody thought
//! to snapshot, and a file that was edited and then put back.
//!
//! Only paths are recorded, never content. The set is deduplicated and
//! capped, and when a limit is reached that fact is recorded rather than
//! hidden.

use vstd::prelude::*;

use crate::diff::{lemma_path_lt_total, lemma_path_lt_transitive, path_lt, path_lt_exec};
use crate::order::strs;
use crate::text::{chars_of, concat, decimal, lemma_concat_push, lemma_split_nonempty, push_decimal, push_str, seq_equal, split, split_chars, views};
use crate::step::{is_named_part, named_part};
use crate::snapshot::{all_valid, any_match, glob_set, glob_valid, set_builds, set_globs, set_matches, PatternError};

verus! {

pub open spec fn watch_candidates() -> Seq<Seq<char>> {
    seq!["/opt"@, "/usr/local"@, "/srv"@, "/var/www"@, "/root"@, "/home"@]
}

/// The directories watched for touches when they exist. They are not
/// snapshotted, so nothing is diffed there: the point is to notice work in a
/// place the operator forgot to pass to `--snapshot`.
pub fn candidate_roots() -> (r: Vec<String>)
    ensures
        strs(r@) == watch_candidates(),
{
    let list = ["/opt", "/usr/local", "/srv", "/var/www", "/root", "/home"];
    let mut r: Vec<String> = Vec::new();
    let mut i: usize = 0;
    assert(strs(r@) =~= list@.map_values(|p: &str| p@).take(0));
    while i < list.len()
        invariant
            i <= list@.len(),
            strs(r@) == list@.map_values(|p: &str| p@).take(i as int),
        decreases list.len() - i,
    {
        let s = crate::text::owned(list[i]);
        proof { crate::order::lemma_strs_push(r@, s); }
        r.push(s);
        assert(list@.map_values(|p: &str| p@).take(i + 1)
            =~= list@.map_values(|p: &str| p@).take(i as int).push(list@[i as int]@));
        i = i + 1;
    }
    assert(list@.map_values(|p: &str| p@) =~= watch_candidates());
    r
}

/// The candidates whose flag in `present` is set, in order.
pub open spec fn chosen(c: Seq<Seq<char>>, present: Seq<bool>) -> Seq<Seq<char>>
    decreases c.len(),
{
    if c.len() == 0 {
        Seq::empty()
    } else {
        let init = chosen(c.drop_last(), present);
        if c.len() - 1 < present.len() && present[c.len() - 1] {
            init.push(c.last())
        } else {
            init
        }
    }
}

/// The candidate roots that exist: `present[i]` says whether the `i`-th
/// candidate is a directory on this host.
pub fn default_roots(present: &[bool]) -> (r: Vec<String>)
    ensures
        strs(r@) == chosen(watch_candidates(), present@),
{
    let all = candidate_roots();
    let ghost c = strs(all@);
    let mut r: Vec<String> = Vec::new();
    let mut i: usize = 0;
    assert(c.take(0) =~= Seq::<Seq<char>>::empty());
    while i < all.len()
        invariant
            i <= all@.len(),
            c == strs(all@),
            c == watch_candidates(),
            strs(r@) == chosen(c.take(i as int), present@),
        decreases all.len() - i,
    {
        let ghost t = c.take(i + 1);
        assert(t.drop_last() == c.take(i as int));
        assert(t.last() == all@[i as int]@);
        if i < present.len() && present[i] {
            let s = all[i].clone();
            proof { crate::order::lemma_strs_push(r@, s); }
            r.push(s);
        }
        i = i + 1;
    }
    assert(c.take(c.len() as int) == c);
    r
}

/// Paths that say nothing about the work, or that would never stop reporting.
pub open spec fn exclude_globs() -> Seq<Seq<char>> {
    seq![
        "/proc/**"@, "/sys/**"@, "/dev/**"@, "/run/**"@, "/var/run/**"@, "/tmp/**"@,
        "/var/tmp/**"@, "/var/log/**"@, "/var/lib/rpm/**"@, "/var/lib/dnf/**"@,
        "/var/cache/**"@, "/var/lib/systemd/**"@, "/var/lib/selinux/**"@, "/var/spool/**"@,
        "/var/lib/containers/**"@, "/var/lib/docker/**"@, "**/.bash_history"@,
        "**/.zsh_history"@, "**/.sh_history"@, "**/*.swp"@, "**/*.swx"@, "**/*~"@,
        "**/4913"@, "**/.#*"@, "**/#*#"@, "**/*.lock"@, "**/__pycache__/**"@, "**/.git/**"@,
    ]
}

/// The parts of `parts` that name something, in order.
pub open spec fn named_parts(parts: Seq<Seq<char>>) -> Seq<Seq<char>>
    decreases parts.len(),
{
    if parts.len() == 0 {
        Seq::empty()
    } else if named_part(parts.last()) {
        named_parts(parts.drop_last()).push(parts.last())
    } else {
        named_parts(parts.drop_last())
    }
}

/// The components of `path`, as `std::path::Path::components` yields them on
/// Unix: the root (written `/`) for a path that starts with `/`, else the
/// current directory (written `.`) for one whose first part is `.`; then
/// each part between `/` that names something.
pub open spec fn path_components(path: Seq<char>) -> Seq<Seq<char>> {
    let head = if path.len() > 0 && path[0] == '/' {
        seq![seq!['/']]
    } else if split(path, '/')[0] == seq!['.'] {
        seq![seq!['.']]
    } else {
        Seq::empty()
    };
    head + named_parts(split(path, '/'))
}

/// Whether `path` starts with `base`, whole components at a time, as
/// `std::path::Path::starts_with` answers.
pub open spec fn path_starts_with(path: Seq<char>, base: Seq<char>) -> bool {
    path_components(base).is_prefix_of(path_components(path))
}

fn copy_chars(v: &Vec<char>) -> (r: Vec<char>)
    ensures
        r@ == v@,
{
    let mut r: Vec<char> = Vec::new();
    let mut i: usize = 0;
    while i < v.len()
        invariant
            i <= v@.len(),
            r@ == v@.take(i as int),
        decreases v.len() - i,
    {
        r.push(v[i]);
        assert(v@.take(i + 1) =~= v@.take(i as int).push(v@[i as int]));
        i = i + 1;
    }
    assert(v@.take(v@.len() as int) =~= v@);
    r
}

fn components_of(path: &str) -> (r: Vec<Vec<char>>)
    ensures
        views(r@) == path_components(path@),
{
    let c = chars_of(path);
    let parts = split_chars(&c, '/');
    let ghost ps = views(parts@);
    proof { lemma_split_nonempty(path@, '/'); }
    let mut out: Vec<Vec<char>> = Vec::new();
    let ghost head: Seq<Seq<char>> = Seq::empty();
    if c.len() > 0 && c[0] == '/' {
        let mut root: Vec<char> = Vec::new();
        root.push('/');
        assert(root@ =~= seq!['/']);
        out.push(root);
        proof { head = seq![seq!['/']]; }
    } else if parts[0].len() == 1 && parts[0][0] == '.' {
        assert(ps[0] =~= seq!['.']);
        let mut cur: Vec<char> = Vec::new();
        cur.push('.');
        assert(cur@ =~= seq!['.']);
        out.push(cur);
        proof { head = seq![seq!['.']]; }
    } else {
        assert(ps[0].len() != 1 ==> ps[0] != seq!['.']);
    }
    assert(views(out@) =~= head);
    let mut i: usize = 0;
    assert(ps.take(0) =~= Seq::<Seq<char>>::empty());
    while i < parts.len()
        invariant
            i <= parts@.len(),
            ps == views(parts@),
            views(out@) == head + named_parts(ps.take(i as int)),
        decreases parts.len() - i,
    {
        assert(ps.take(i + 1).drop_last() =~= ps.take(i as int));
        assert(ps.take(i + 1).last() == parts@[i as int]@);
        if is_named_part(&parts[i]) {
            let x = copy_chars(&parts[i]);
            let ghost before = out@;
            out.push(x);
            assert(views(out@) =~= views(before).push(ps[i as int]));
            assert(views(out@) =~= head + named_parts(ps.take(i as int)).push(ps[i as int]));
        }
        i = i + 1;
    }
    assert(ps.take(ps.len() as int) =~= ps);
    out
}

/// Whether `path` starts with `base`, whole components at a time.
fn starts_with_path(path: &str, base: &str) -> (r: bool)
    ensures
        r == path_starts_with(path@, base@),
{
    let p = components_of(path);
    let b = components_of(base);
    if b.len() > p.len() {
        return false;
    }
    let mut i: usize = 0;
    while i < b.len()
        invariant
            views(p@) == path_components(path@),
            views(b@) == path_components(base@),
            b@.len() <= p@.len(),
            i <= b@.len(),
            forall|k: int| 0 <= k < i ==> #[trigger] views(b@)[k] == views(p@)[k],
        decreases b.len() - i,
    {
        if !seq_equal(b[i].as_slice(), p[i].as_slice()) {
            assert(views(b@)[i as int] != views(p@)[i as int]);
            assert(views(p@).subrange(0, views(b@).len() as int)[i as int] == views(p@)[i as int]);
            return false;
        }
        assert(views(b@)[i as int] == views(p@)[i as int]);
        i = i + 1;
    }
    assert(views(b@) =~= views(p@).subrange(0, views(b@).len() as int));
    true
}

pub struct Rules {
    exclude: globset::GlobSet,
    /// exarare's own data directory: the session writes to it constantly, so
    /// watching it would report exarare watching itself.
    own_data: Option<String>,
}

impl Rules {
    pub closed spec fn spec_exclude(&self) -> Seq<Seq<char>> {
        set_globs(self.exclude)
    }

    pub closed spec fn spec_own_data(&self) -> Option<Seq<char>> {
        crate::step::opt_text(self.own_data)
    }

    /// The rules, with `own_data` (as the filesystem resolves it) excluded
    /// too. They are built when `globset` accepts every pattern and builds
    /// the set; an error names a refused pattern, or carries `globset`'s
    /// error.
    pub fn new(own_data: Option<String>) -> (r: Result<Rules, PatternError>)
        ensures
            r is Ok <==> all_valid(exclude_globs()) && set_builds(exclude_globs()),
            match r {
                Ok(rules) => rules.spec_exclude() == exclude_globs()
                    && rules.spec_own_data() == crate::step::opt_text(own_data),
                Err(PatternError::Glob { pattern }) => !glob_valid(pattern@)
                    && exclude_globs().contains(pattern@),
                Err(PatternError::Build { .. }) => all_valid(exclude_globs()),
            },
    {
        let list = [
            "/proc/**", "/sys/**", "/dev/**", "/run/**", "/var/run/**", "/tmp/**", "/var/tmp/**",
            "/var/log/**", "/var/lib/rpm/**", "/var/lib/dnf/**", "/var/cache/**",
            "/var/lib/systemd/**", "/var/lib/selinux/**", "/var/spool/**",
            "/var/lib/containers/**", "/var/lib/docker/**", "**/.bash_history",
            "**/.zsh_history", "**/.sh_history", "**/*.swp", "**/*.swx", "**/*~", "**/4913",
            "**/.#*", "**/#*#", "**/*.lock", "**/__pycache__/**", "**/.git/**",
        ];
        assert(list@.map_values(|p: &str| p@) =~= exclude_globs());
        match glob_set(&list) {
            Ok(exclude) => Ok(Rules { exclude, own_data }),
            Err(e) => {
                proof {
                    if let PatternError::Glob { pattern } = &e {
                        let i = choose|i: int| 0 <= i < list@.len() && list@[i]@ == pattern@
                            && !glob_valid(pattern@) && all_valid(list@.take(i).map_values(|p: &str| p@));
                        assert(exclude_globs()[i] == pattern@);
                    }
                }
                Err(e)
            },
        }
    }

    /// Whether the rules leave `path` out: a pattern matches it, or it lies
    /// under the data directory.
    pub open spec fn excludes(&self, path: Seq<char>) -> bool {
        any_match(self.spec_exclude(), path) || match self.spec_own_data() {
            Some(own) => path_starts_with(path, own),
            None => false,
        }
    }

    pub fn is_excluded(&self, path: &str) -> (r: bool)
        ensures
            r == self.excludes(path@),
    {
        if set_matches(&self.exclude, path) {
            return true;
        }
        match &self.own_data {
            Some(own) => starts_with_path(path, own.as_str()),
            None => false,
        }
    }
}

// ----------------------------------------------------------------------------
// The record of touched paths.

/// At most this many paths are remembered. A loop that writes forever should
/// not be able to grow the session without bound.
pub const MAX_PATHS: usize = 10000;

#[derive(Debug, Clone)]
pub struct Touched {
    /// Each path with the time it was first seen, which is what places it in
    /// a step; sorted by path, each path once.
    pub paths: Vec<(String, i128)>,
    /// More paths were touched than `MAX_PATHS`, so the list is incomplete.
    pub truncated: bool,
    /// Watching a directory failed, usually because the kernel's watch limit
    /// was reached, so touches under it were missed.
    pub incomplete_roots: Vec<String>,
    /// Roots that were watched, for the report to say what was covered.
    pub roots: Vec<String>,
}

pub open spec fn seen(s: Seq<(String, i128)>) -> Seq<(Seq<char>, i128)> {
    s.map_values(|p: (String, i128)| (p.0@, p.1))
}

/// Sorted by path, each path once.
pub open spec fn sorted_paths(s: Seq<(Seq<char>, i128)>) -> bool {
    forall|i: int, j: int| 0 <= i < j < s.len() ==> path_lt(#[trigger] s[i].0, #[trigger] s[j].0)
}

/// Index of the first path that is not below `p`.
pub open spec fn seen_position(s: Seq<(Seq<char>, i128)>, p: Seq<char>) -> int
    decreases s.len(),
{
    if s.len() == 0 || !path_lt(s[0].0, p) {
        0
    } else {
        1 + seen_position(s.drop_first(), p)
    }
}

pub open spec fn has_path(s: Seq<(Seq<char>, i128)>, p: Seq<char>) -> bool {
    exists|i: int| 0 <= i < s.len() && #[trigger] s[i].0 == p
}

/// What `record` makes of the list: a path already there keeps its first
/// time; a new one goes in its place in the order, unless the list is full.
pub open spec fn recorded(s: Seq<(Seq<char>, i128)>, p: Seq<char>, at: i128) -> Seq<(Seq<char>, i128)> {
    if has_path(s, p) || s.len() >= MAX_PATHS {
        s
    } else {
        s.insert(seen_position(s, p), (p, at))
    }
}

proof fn lemma_seen_position(s: Seq<(Seq<char>, i128)>, p: Seq<char>, k: int)
    requires
        0 <= k <= s.len(),
        forall|m: int| 0 <= m < k ==> path_lt(#[trigger] s[m].0, p),
        k == s.len() || !path_lt(s[k].0, p),
    ensures
        seen_position(s, p) == k,
    decreases k,
{
    if k > 0 {
        assert forall|m: int| 0 <= m < k - 1 implies path_lt(#[trigger] s.drop_first()[m].0, p) by {
            assert(s.drop_first()[m] == s[m + 1]);
        }
        if k < s.len() {
            assert(s.drop_first()[k - 1] == s[k]);
        }
        lemma_seen_position(s.drop_first(), p, k - 1);
    }
}

impl Touched {
    pub open spec fn well_formed(&self) -> bool {
        sorted_paths(seen(self.paths@))
    }

    /// Nothing seen yet, over the given roots.
    pub fn new(roots: Vec<String>) -> (r: Touched)
        ensures
            r.paths@.len() == 0,
            !r.truncated,
            r.incomplete_roots@.len() == 0,
            r.roots == roots,
            r.well_formed(),
    {
        Touched { paths: Vec::new(), truncated: false, incomplete_roots: Vec::new(), roots }
    }

    /// When `path` was first seen, if it was.
    pub fn first_seen(&self, path: &str) -> (r: Option<i128>)
        ensures
            match r {
                Some(t) => exists|i: int| 0 <= i < self.paths@.len()
                    && #[trigger] seen(self.paths@)[i] == (path@, t),
                None => !has_path(seen(self.paths@), path@),
            },
    {
        let ghost s = seen(self.paths@);
        let mut i: usize = 0;
        while i < self.paths.len()
            invariant
                i <= self.paths@.len(),
                s == seen(self.paths@),
                forall|k: int| 0 <= k < i ==> #[trigger] s[k].0 != path@,
            decreases self.paths.len() - i,
        {
            assert(s[i as int] == (self.paths@[i as int].0@, self.paths@[i as int].1));
            if crate::text::str_eq(self.paths[i].0.as_str(), path) {
                return Some(self.paths[i].1);
            }
            i = i + 1;
        }
        None
    }

    /// Paths first seen in `[from, until)`, or from `from` onwards when
    /// `until` is `None`, in the order of the paths. A step's window runs
    /// until the next step begins rather than until its own last command: a
    /// watcher reports with some delay, and a write during the work belongs
    /// to the step that was running, however late the notification arrives.
    pub fn in_window(&self, from: i128, until: Option<i128>) -> (r: Vec<String>)
        ensures
            strs(r@) == in_window_of(seen(self.paths@), from, until),
    {
        let ghost s = seen(self.paths@);
        let ghost f = |p: (Seq<char>, i128)| if window_holds(p.1, from, until) { Some(p.0) } else { None };
        let mut r: Vec<String> = Vec::new();
        let mut i: usize = 0;
        assert(s.take(0).filter_map(f) =~= strs(r@));
        while i < self.paths.len()
            invariant
                i <= self.paths@.len(),
                s == seen(self.paths@),
                f == (|p: (Seq<char>, i128)| if window_holds(p.1, from, until) { Some(p.0) } else { None }),
                strs(r@) == s.take(i as int).filter_map(f),
            decreases self.paths.len() - i,
        {
            proof { crate::text::lemma_filter_map_step(s, f, i as int); }
            assert(s[i as int] == (self.paths@[i as int].0@, self.paths@[i as int].1));
            let at = self.paths[i].1;
            let inside = at >= from && match until {
                Some(u) => at < u,
                None => true,
            };
            if inside {
                let p = self.paths[i].0.clone();
                proof { crate::order::lemma_strs_push(r@, p); }
                r.push(p);
            }
            i = i + 1;
        }
        assert(s.take(s.len() as int) == s);
        r
    }
}

impl Default for Touched {
    fn default() -> (r: Touched)
        ensures
            r.paths@.len() == 0,
            !r.truncated,
            r.incomplete_roots@.len() == 0,
            r.roots@.len() == 0,
    {
        Touched { paths: Vec::new(), truncated: false, incomplete_roots: Vec::new(), roots: Vec::new() }
    }
}

pub open spec fn window_holds(at: i128, from: i128, until: Option<i128>) -> bool {
    at >= from && match until {
        Some(u) => at < u,
        None => true,
    }
}

pub open spec fn in_window_of(s: Seq<(Seq<char>, i128)>, from: i128, until: Option<i128>) -> Seq<Seq<char>> {
    s.filter_map(|p: (Seq<char>, i128)| if window_holds(p.1, from, until) { Some(p.0) } else { None })
}

/// Records a touched path, respecting the cap: a path seen before keeps the
/// time it was first seen, and a new path past the cap only marks the list
/// as truncated.
pub fn record(touched: &mut Touched, path: String, at: i128)
    requires
        old(touched).well_formed(),
    ensures
        final(touched).well_formed(),
        seen(final(touched).paths@) == recorded(seen(old(touched).paths@), path@, at),
        final(touched).truncated == (old(touched).truncated || (!has_path(seen(old(touched).paths@), path@)
            && old(touched).paths@.len() >= MAX_PATHS)),
        final(touched).roots == old(touched).roots,
        final(touched).incomplete_roots == old(touched).incomplete_roots,
{
    let ghost s = seen(touched.paths@);
    // Binary search for the first path that is not below `path`.
    let mut lo: usize = 0;
    let mut hi: usize = touched.paths.len();
    while lo < hi
        invariant
            lo <= hi <= touched.paths@.len(),
            s == seen(touched.paths@),
            sorted_paths(s),
            forall|m: int| 0 <= m < lo ==> path_lt(#[trigger] s[m].0, path@),
            hi == touched.paths@.len() || !path_lt(s[hi as int].0, path@),
        decreases hi - lo,
    {
        let mid = lo + (hi - lo) / 2;
        assert(s[mid as int] == (touched.paths@[mid as int].0@, touched.paths@[mid as int].1));
        if path_lt_exec(touched.paths[mid].0.as_str(), path.as_str()) {
            proof {
                assert forall|m: int| 0 <= m < mid + 1 implies path_lt(#[trigger] s[m].0, path@) by {
                    if m < mid {
                        lemma_path_lt_transitive(s[m].0, s[mid as int].0, path@);
                    }
                }
            }
            lo = mid + 1;
        } else {
            hi = mid;
        }
    }
    let k = lo;
    proof { lemma_seen_position(s, path@, k as int); }
    if k < touched.paths.len() {
        assert(s[k as int] == (touched.paths@[k as int].0@, touched.paths@[k as int].1));
    }
    if k < touched.paths.len() && touched.paths[k].0 == path {
        assert(has_path(s, path@));
        return;
    }
    proof {
        assert forall|i: int| 0 <= i < s.len() implies #[trigger] s[i].0 != path@ by {
            if i < k {
                assert(path_lt(s[i].0, path@));
                crate::diff::lemma_path_lt_irreflexive(path@);
            } else if i > k {
                assert(path_lt(s[k as int].0, s[i].0));
                if s[i].0 == path@ {
                    assert(!path_lt(s[k as int].0, path@));
                }
            }
        }
        assert(!has_path(s, path@));
    }
    if touched.paths.len() >= MAX_PATHS {
        touched.truncated = true;
        return;
    }
    let ghost e = (path@, at);
    let mut items = Vec::new();
    std::mem::swap(&mut items, &mut touched.paths);
    items.insert(k, (path, at));
    let ghost t = seen(items@);
    assert(t =~= s.insert(k as int, e));
    proof {
        if k < s.len() {
            lemma_path_lt_total(s[k as int].0, e.0);
        }
        assert forall|i: int, j: int| 0 <= i < j < t.len() implies
            path_lt(#[trigger] t[i].0, #[trigger] t[j].0) by {
            let pos = k as int;
            if j < pos {
                assert(t[i] == s[i] && t[j] == s[j]);
            } else if j == pos {
                assert(t[i] == s[i]);
            } else if i == pos {
                assert(t[j] == s[j - 1]);
                if j - 1 > pos {
                    lemma_path_lt_transitive(e.0, s[pos].0, s[j - 1].0);
                }
            } else if i < pos {
                assert(t[i] == s[i] && t[j] == s[j - 1]);
            } else {
                assert(t[i] == s[i - 1] && t[j] == s[j - 1]);
            }
        }
    }
    touched.paths = items;
}

// ----------------------------------------------------------------------------
// Laws of the record.

// ----------------------------------------------------------------------------
// The report.

pub open spec fn touched_line(p: (Seq<char>, i128)) -> Seq<char> {
    "touched      "@ + p.0 + "\n"@
}

pub open spec fn truncation_line() -> Seq<char> {
    "warning      more than "@ + decimal(MAX_PATHS as nat) + " paths were touched, list is incomplete\n"@
}

pub open spec fn gap_line(g: Seq<char>) -> Seq<char> {
    "warning      could not watch "@ + g + "\n"@
}

/// The touched paths as `exarare diff` lists them, after the changes: each
/// path, then a warning when the list was cut at the cap, then one for each
/// directory that could not be watched.
pub open spec fn report_of(paths: Seq<(Seq<char>, i128)>, truncated: bool, gaps: Seq<Seq<char>>) -> Seq<char> {
    concat(paths.map_values(|p: (Seq<char>, i128)| touched_line(p)))
        + (if truncated { truncation_line() } else { Seq::<char>::empty() })
        + concat(gaps.map_values(|g: Seq<char>| gap_line(g)))
}

pub fn report(touched: &Touched) -> (r: String)
    ensures
        r@ == report_of(seen(touched.paths@), touched.truncated, strs(touched.incomplete_roots@)),
{
    let ghost ps = seen(touched.paths@).map_values(|p: (Seq<char>, i128)| touched_line(p));
    let mut out = String::new();
    let mut i: usize = 0;
    assert(ps.take(0) =~= Seq::<Seq<char>>::empty());
    while i < touched.paths.len()
        invariant
            i <= touched.paths@.len(),
            ps == seen(touched.paths@).map_values(|p: (Seq<char>, i128)| touched_line(p)),
            out@ == concat(ps.take(i as int)),
        decreases touched.paths.len() - i,
    {
        let ghost before = out@;
        push_str(&mut out, "touched      ");
        push_str(&mut out, touched.paths[i].0.as_str());
        push_str(&mut out, "\n");
        proof {
            assert(ps.take(i + 1) =~= ps.take(i as int).push(ps[i as int]));
            lemma_concat_push(ps.take(i as int), ps[i as int]);
            assert(ps[i as int] =~= "touched      "@ + touched.paths@[i as int].0@ + "\n"@);
        }
        assert(out@ =~= concat(ps.take(i + 1)));
        i = i + 1;
    }
    assert(ps.take(ps.len() as int) == ps);
    let ghost head = out@;
    if touched.truncated {
        push_str(&mut out, "warning      more than ");
        push_decimal(&mut out, MAX_PATHS as u64);
        push_str(&mut out, " paths were touched, list is incomplete\n");
    }
    let ghost middle = out@;
    assert(middle =~= head + (if touched.truncated { truncation_line() } else { Seq::<char>::empty() }));
    let ghost gs = strs(touched.incomplete_roots@).map_values(|g: Seq<char>| gap_line(g));
    let mut k: usize = 0;
    assert(gs.take(0) =~= Seq::<Seq<char>>::empty());
    while k < touched.incomplete_roots.len()
        invariant
            k <= touched.incomplete_roots@.len(),
            gs == strs(touched.incomplete_roots@).map_values(|g: Seq<char>| gap_line(g)),
            out@ == middle + concat(gs.take(k as int)),
        decreases touched.incomplete_roots.len() - k,
    {
        push_str(&mut out, "warning      could not watch ");
        push_str(&mut out, touched.incomplete_roots[k].as_str());
        push_str(&mut out, "\n");
        proof {
            assert(gs.take(k + 1) =~= gs.take(k as int).push(gs[k as int]));
            lemma_concat_push(gs.take(k as int), gs[k as int]);
            assert(gs[k as int] =~= "warning      could not watch "@ + touched.incomplete_roots@[k as int]@ + "\n"@);
        }
        assert(out@ =~= middle + concat(gs.take(k + 1)));
        k = k + 1;
    }
    assert(gs.take(gs.len() as int) == gs);
    out
}

/// The record never grows past the cap.
pub proof fn law_record_stays_under_cap(s: Seq<(Seq<char>, i128)>, p: Seq<char>, at: i128)
    requires
        s.len() <= MAX_PATHS,
    ensures
        recorded(s, p, at).len() <= MAX_PATHS,
{
    lemma_seen_position_range(s, p);
}

/// A path keeps the time it was first seen: recording it again changes
/// nothing.
pub proof fn law_first_time_wins(s: Seq<(Seq<char>, i128)>, p: Seq<char>, first: i128, later: i128)
    ensures
        recorded(recorded(s, p, first), p, later) == recorded(s, p, first),
{
    if !has_path(s, p) && s.len() < MAX_PATHS {
        let t = recorded(s, p, first);
        let k = seen_position(s, p);
        lemma_seen_position_range(s, p);
        assert(t[k] == (p, first));
        assert(t[k].0 == p);
        assert(has_path(t, p));
    }
}

proof fn lemma_seen_position_range(s: Seq<(Seq<char>, i128)>, p: Seq<char>)
    ensures
        0 <= seen_position(s, p) <= s.len(),
    decreases s.len(),
{
    if s.len() > 0 && path_lt(s[0].0, p) {
        lemma_seen_position_range(s.drop_first(), p);
    }
}

/// Consecutive windows split what was seen from their start: a path seen
/// at the boundary belongs to the later window, and none is counted twice.
pub proof fn law_windows_split(s: Seq<(Seq<char>, i128)>, from: i128, boundary: i128)
    requires
        from <= boundary,
    ensures
        in_window_of(s, from, Some(boundary)).len() + in_window_of(s, boundary, None).len()
            == in_window_of(s, from, None).len(),
    decreases s.len(),
{
    if s.len() > 0 {
        law_windows_split(s.drop_last(), from, boundary);
    }
}

// ----------------------------------------------------------------------------
// Filesystem events.

/// The kind of a filesystem event, as the watcher reports it.
#[derive(Clone, Copy, Debug, PartialEq, Eq)]
pub enum FsEvent {
    Any,
    Access,
    Create,
    Modify,
    Remove,
    Other,
}

/// Reads are not work; creating, changing (a chmod is a change) and removing
/// a file are.
pub open spec fn is_touch_spec(k: FsEvent) -> bool {
    k is Create || k is Modify || k is Remove
}

pub fn is_touch(k: FsEvent) -> (r: bool)
    ensures
        r == is_touch_spec(k),
{
    match k {
        FsEvent::Create | FsEvent::Modify | FsEvent::Remove => true,
        _ => false,
    }
}

/// The list of touched paths and whether it was cut short, after `record`
/// of `p` at `at`.
pub open spec fn record_step(t: (Seq<(Seq<char>, i128)>, bool), p: Seq<char>, at: i128) -> (Seq<(Seq<char>, i128)>, bool) {
    (recorded(t.0, p, at), t.1 || (!has_path(t.0, p) && t.0.len() >= MAX_PATHS))
}

/// The list and its truncation after recording, in order, each of `paths`
/// that `rules` do not exclude.
pub open spec fn observed(t: (Seq<(Seq<char>, i128)>, bool), rules: Rules, paths: Seq<Seq<char>>, at: i128) -> (Seq<(Seq<char>, i128)>, bool)
    decreases paths.len(),
{
    if paths.len() == 0 {
        t
    } else {
        let before = observed(t, rules, paths.drop_last(), at);
        if rules.excludes(paths.last()) {
            before
        } else {
            record_step(before, paths.last(), at)
        }
    }
}

/// Takes in one filesystem event seen at `at`: an event that is not a touch
/// changes nothing; otherwise each of its paths that the rules do not
/// exclude is recorded, in order.
pub fn observe(touched: &mut Touched, rules: &Rules, kind: FsEvent, paths: &Vec<String>, at: i128)
    requires
        old(touched).well_formed(),
    ensures
        final(touched).well_formed(),
        final(touched).roots == old(touched).roots,
        final(touched).incomplete_roots == old(touched).incomplete_roots,
        !is_touch_spec(kind) ==> *final(touched) == *old(touched),
        is_touch_spec(kind) ==> (seen(final(touched).paths@), final(touched).truncated) == observed(
            (seen(old(touched).paths@), old(touched).truncated),
            *rules,
            strs(paths@),
            at,
        ),
{
    if !is_touch(kind) {
        return;
    }
    let ghost start = (seen(touched.paths@), touched.truncated);
    let ghost roots = touched.roots;
    let ghost incomplete = touched.incomplete_roots;
    let ghost ps = strs(paths@);
    let mut i: usize = 0;
    assert(ps.take(0).len() == 0);
    while i < paths.len()
        invariant
            i <= paths@.len(),
            ps == strs(paths@),
            touched.well_formed(),
            touched.roots == roots,
            touched.incomplete_roots == incomplete,
            (seen(touched.paths@), touched.truncated) == observed(start, *rules, ps.take(i as int), at),
        decreases paths.len() - i,
    {
        let p = &paths[i];
        assert(ps.take(i + 1).drop_last() =~= ps.take(i as int));
        assert(ps.take(i + 1).last() == p@);
        if !rules.is_excluded(p.as_str()) {
            record(touched, crate::text::owned(p.as_str()), at);
        }
        i = i + 1;
    }
    assert(ps.take(ps.len() as int) =~= ps);
}

} // verus!
