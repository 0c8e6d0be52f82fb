//! Compares two snapshots and renders what changed.

use vstd::prelude::*;

use crate::snapshot::{
    content_differs, has_blob, is_masked, metadata_differs, ContentV, Content, Entry, EntryV,
};
use crate::text::{
    chars_of, concat, decimal, lemma_concat_push, lemma_map_values_step, lines, lines_chars,
    octal, pad, push_char, push_decimal, push_octal, push_padded, push_str, string_of, views,
};

verus! {

// ----------------------------------------------------------------------------
// Paths in the order of `Path`.

/// `/` sorts before every other character, so that a path comes before the
/// paths whose last component merely starts with its own: the order in which
/// `Path` compares normalized paths, component by component.
pub open spec fn path_char_lt(x: char, y: char) -> bool {
    if x == y {
        false
    } else if x == '/' {
        true
    } else if y == '/' {
        false
    } else {
        x < y
    }
}

pub open spec fn path_lt(a: Seq<char>, b: Seq<char>) -> bool
    decreases a.len(),
{
    if a.len() == 0 {
        b.len() > 0
    } else if b.len() == 0 {
        false
    } else if a[0] != b[0] {
        path_char_lt(a[0], b[0])
    } else {
        path_lt(a.drop_first(), b.drop_first())
    }
}

pub proof fn lemma_path_lt_irreflexive(a: Seq<char>)
    ensures
        !path_lt(a, a),
    decreases a.len(),
{
    if a.len() > 0 {
        lemma_path_lt_irreflexive(a.drop_first());
    }
}

pub proof fn lemma_path_lt_transitive(a: Seq<char>, b: Seq<char>, c: Seq<char>)
    requires
        path_lt(a, b),
        path_lt(b, c),
    ensures
        path_lt(a, c),
    decreases a.len(),
{
    if a.len() > 0 && b.len() > 0 && c.len() > 0 {
        if a[0] == b[0] && b[0] == c[0] {
            lemma_path_lt_transitive(a.drop_first(), b.drop_first(), c.drop_first());
        }
    }
}

pub proof fn lemma_path_lt_total(a: Seq<char>, b: Seq<char>)
    ensures
        path_lt(a, b) || path_lt(b, a) || a == b,
    decreases a.len(),
{
    if a.len() > 0 && b.len() > 0 {
        if a[0] == b[0] {
            lemma_path_lt_total(a.drop_first(), b.drop_first());
            if a.drop_first() == b.drop_first() {
                assert(a =~= seq![a[0]] + a.drop_first());
                assert(b =~= seq![b[0]] + b.drop_first());
            }
        }
    } else if a.len() == 0 && b.len() == 0 {
        assert(a =~= b);
    }
}

proof fn lemma_path_lt_prefix(a: Seq<char>, b: Seq<char>, i: int)
    requires
        0 <= i <= a.len(),
        i <= b.len(),
        a.take(i) == b.take(i),
    ensures
        path_lt(a, b) == path_lt(a.skip(i), b.skip(i)),
    decreases i,
{
    if i > 0 {
        assert(a[0] == a.take(i)[0]);
        assert(b[0] == b.take(i)[0]);
        assert(a.drop_first().take(i - 1) == a.take(i).drop_first());
        assert(b.drop_first().take(i - 1) == b.take(i).drop_first());
        lemma_path_lt_prefix(a.drop_first(), b.drop_first(), i - 1);
        assert(a.drop_first().skip(i - 1) == a.skip(i));
        assert(b.drop_first().skip(i - 1) == b.skip(i));
    } else {
        assert(a.skip(0) == a);
        assert(b.skip(0) == b);
    }
}

pub fn path_lt_exec(a: &str, b: &str) -> (r: bool)
    ensures
        r == path_lt(a@, b@),
{
    let a = chars_of(a);
    let b = chars_of(b);
    let mut i: usize = 0;
    while i < a.len() && i < b.len() && a[i] == b[i]
        invariant
            i <= a@.len(),
            i <= b@.len(),
            a@.take(i as int) == b@.take(i as int),
        decreases a.len() - i,
    {
        assert(a@.take(i + 1) == a@.take(i as int).push(a@[i as int]));
        assert(b@.take(i + 1) == b@.take(i as int).push(b@[i as int]));
        i = i + 1;
    }
    proof {
        lemma_path_lt_prefix(a@, b@, i as int);
    }
    if i == a.len() {
        i < b.len()
    } else if i == b.len() {
        false
    } else {
        assert(a@.skip(i as int)[0] == a@[i as int]);
        assert(b@.skip(i as int)[0] == b@[i as int]);
        if a[i] == '/' {
            true
        } else if b[i] == '/' {
            false
        } else {
            a[i] < b[i]
        }
    }
}

// ----------------------------------------------------------------------------
// Listings: the entries of a snapshot, by path.

pub open spec fn entries(s: Seq<Entry>) -> Seq<EntryV> {
    s.map_values(|e: Entry| e@)
}

/// Sorted by path, each path once.
pub open spec fn sorted_by_path(s: Seq<EntryV>) -> bool {
    forall|i: int, j: int| 0 <= i < j < s.len() ==> path_lt(#[trigger] s[i].path, #[trigger] s[j].path)
}

/// Index of the first entry whose path is not below `p`.
pub open spec fn position(s: Seq<EntryV>, p: Seq<char>) -> int
    decreases s.len(),
{
    if s.len() == 0 || !path_lt(s[0].path, p) {
        0
    } else {
        1 + position(s.drop_first(), p)
    }
}

/// `s` with `e` recorded under its path: replacing the entry of that path,
/// or added in its place in the order.
pub open spec fn insert_by_path(s: Seq<EntryV>, e: EntryV) -> Seq<EntryV> {
    let k = position(s, e.path);
    if k < s.len() && s[k].path == e.path {
        s.update(k, e)
    } else {
        s.insert(k, e)
    }
}

proof fn lemma_position(s: Seq<EntryV>, p: Seq<char>, k: int)
    requires
        0 <= k <= s.len(),
        forall|m: int| 0 <= m < k ==> path_lt(#[trigger] s[m].path, p),
        k == s.len() || !path_lt(s[k].path, p),
    ensures
        position(s, p) == k,
    decreases k,
{
    if k > 0 {
        assert forall|m: int| 0 <= m < k - 1 implies path_lt(#[trigger] s.drop_first()[m].path, p) by {
            assert(s.drop_first()[m] == s[m + 1]);
        }
        if k < s.len() {
            assert(s.drop_first()[k - 1] == s[k]);
        }
        lemma_position(s.drop_first(), p, k - 1);
    }
}

/// The entries of a snapshot, sorted by path, each path once: what a map
/// from path to entry holds.
pub struct Listing {
    items: Vec<Entry>,
}

impl Listing {
    #[verifier::type_invariant]
    spec fn sorted(self) -> bool {
        sorted_by_path(entries(self.items@))
    }

    pub closed spec fn spec_entries(&self) -> Seq<EntryV> {
        entries(self.items@)
    }

    pub fn new() -> (r: Listing)
        ensures
            r.spec_entries() == Seq::<EntryV>::empty(),
    {
        let r = Listing { items: Vec::new() };
        assert(entries(r.items@) =~= Seq::<EntryV>::empty());
        r
    }

    pub fn len(&self) -> (r: usize)
        ensures
            r == self.spec_entries().len(),
    {
        self.items.len()
    }

    /// The entries, sorted by path.
    pub fn entries(&self) -> (r: &Vec<Entry>)
        ensures
            entries(r@) == self.spec_entries(),
            sorted_by_path(entries(r@)),
    {
        proof { use_type_invariant(self); }
        &self.items
    }

    /// Records `entry` under its path, replacing what was recorded there.
    pub fn insert(&mut self, entry: Entry)
        ensures
            final(self).spec_entries() == insert_by_path(old(self).spec_entries(), entry@),
            sorted_by_path(final(self).spec_entries()),
    {
        proof { use_type_invariant(&*self); }
        let ghost s = entries(self.items@);
        let ghost e = entry@;
        // Binary search for the first entry whose path is not below the new one.
        let mut lo: usize = 0;
        let mut hi: usize = self.items.len();
        while lo < hi
            invariant
                lo <= hi <= self.items@.len(),
                s == entries(self.items@),
                e == entry@,
                sorted_by_path(s),
                forall|m: int| 0 <= m < lo ==> path_lt(#[trigger] s[m].path, e.path),
                forall|m: int| hi <= m < s.len() ==> !path_lt(#[trigger] s[m].path, e.path),
            decreases hi - lo,
        {
            let mid = lo + (hi - lo) / 2;
            assert(s[mid as int] == self.items@[mid as int]@);
            if path_lt_exec(self.items[mid].path.as_str(), entry.path.as_str()) {
                proof {
                    assert forall|m: int| 0 <= m <= mid implies path_lt(#[trigger] s[m].path, e.path) by {
                        if m < mid {
                            lemma_path_lt_transitive(s[m].path, s[mid as int].path, e.path);
                        }
                    }
                }
                lo = mid + 1;
            } else {
                proof {
                    assert forall|m: int| mid <= m < s.len() implies !path_lt(#[trigger] s[m].path, e.path) by {
                        if m > mid && path_lt(s[m].path, e.path) {
                            lemma_path_lt_transitive(s[mid as int].path, s[m].path, e.path);
                        }
                    }
                }
                hi = mid;
            }
        }
        let k = lo;
        proof { lemma_position(s, e.path, k as int); }
        if k < self.items.len() && self.items[k].path == entry.path {
            let mut items = Vec::new();
            std::mem::swap(&mut items, &mut self.items);
            items.set(k, entry);
            assert(entries(items@) =~= s.update(k as int, e));
            proof {
                assert forall|i: int, j: int| 0 <= i < j < entries(items@).len() implies
                    path_lt(#[trigger] entries(items@)[i].path, #[trigger] entries(items@)[j].path) by {
                    assert(s[i].path == entries(items@)[i].path);
                    assert(s[j].path == entries(items@)[j].path);
                }
            }
            self.items = items;
        } else {
            let mut items = Vec::new();
            std::mem::swap(&mut items, &mut self.items);
            items.insert(k, entry);
            let ghost t = entries(items@);
            assert(t =~= s.insert(k as int, e));
            proof {
                if k < s.len() {
                    assert(s[k as int].path != e.path);
                    lemma_path_lt_total(s[k as int].path, e.path);
                }
                assert forall|i: int, j: int| 0 <= i < j < t.len() implies
                    path_lt(#[trigger] t[i].path, #[trigger] t[j].path) by {
                    let pos = k as int;
                    if j < pos {
                        assert(t[i] == s[i] && t[j] == s[j]);
                    } else if j == pos {
                        assert(t[i] == s[i]);
                    } else if i == pos {
                        assert(t[j] == s[j - 1]);
                        if j - 1 > pos {
                            lemma_path_lt_transitive(e.path, s[pos].path, s[j - 1].path);
                        }
                    } else if i < pos {
                        assert(t[i] == s[i] && t[j] == s[j - 1]);
                    } else {
                        assert(t[i] == s[i - 1] && t[j] == s[j - 1]);
                    }
                }
            }
            self.items = items;
        }
    }
}

// ----------------------------------------------------------------------------
// Changes.

#[derive(Debug, Clone, PartialEq, Eq)]
pub enum Change {
    Added(Entry),
    Removed(Entry),
    Modified { before: Entry, after: Entry },
    /// Same content, different mode or owner.
    MetadataChanged { before: Entry, after: Entry },
}

pub enum ChangeV {
    Added(EntryV),
    Removed(EntryV),
    Modified(EntryV, EntryV),
    MetadataChanged(EntryV, EntryV),
}

impl View for Change {
    type V = ChangeV;

    open spec fn view(&self) -> ChangeV {
        match self {
            Change::Added(e) => ChangeV::Added(e@),
            Change::Removed(e) => ChangeV::Removed(e@),
            Change::Modified { before, after } => ChangeV::Modified(before@, after@),
            Change::MetadataChanged { before, after } => ChangeV::MetadataChanged(before@, after@),
        }
    }
}

pub open spec fn changes(s: Seq<Change>) -> Seq<ChangeV> {
    s.map_values(|c: Change| c@)
}

/// The path a change is about: the entry after it, or the one that was
/// removed.
pub open spec fn change_path(c: ChangeV) -> Seq<char> {
    match c {
        ChangeV::Added(e) => e.path,
        ChangeV::Removed(e) => e.path,
        ChangeV::Modified(_, a) => a.path,
        ChangeV::MetadataChanged(_, a) => a.path,
    }
}

pub open spec fn change_label(c: ChangeV) -> Seq<char> {
    match c {
        ChangeV::Added(_) => "added"@,
        ChangeV::Removed(_) => "removed"@,
        ChangeV::Modified(..) => "modified"@,
        ChangeV::MetadataChanged(..) => "permissions"@,
    }
}

impl Change {
    pub fn duplicate(&self) -> (r: Change)
        ensures
            r@ == self@,
    {
        match self {
            Change::Added(e) => Change::Added(e.duplicate()),
            Change::Removed(e) => Change::Removed(e.duplicate()),
            Change::Modified { before, after } => Change::Modified {
                before: before.duplicate(),
                after: after.duplicate(),
            },
            Change::MetadataChanged { before, after } => Change::MetadataChanged {
                before: before.duplicate(),
                after: after.duplicate(),
            },
        }
    }

    pub fn path(&self) -> (r: &str)
        ensures
            r@ == change_path(self@),
    {
        match self {
            Change::Added(e) => e.path.as_str(),
            Change::Removed(e) => e.path.as_str(),
            Change::Modified { after, .. } => after.path.as_str(),
            Change::MetadataChanged { after, .. } => after.path.as_str(),
        }
    }

    pub fn label(&self) -> (r: &'static str)
        ensures
            r@ == change_label(self@),
    {
        match self {
            Change::Added(_) => "added",
            Change::Removed(_) => "removed",
            Change::Modified { .. } => "modified",
            Change::MetadataChanged { .. } => "permissions",
        }
    }
}

/// What became of a path present before and after: modified when the
/// content differs, re-permissioned when only the mode or owner does.
pub open spec fn classify(b: EntryV, a: EntryV) -> Seq<ChangeV> {
    if content_differs(b, a) {
        seq![ChangeV::Modified(b, a)]
    } else if metadata_differs(b, a) {
        seq![ChangeV::MetadataChanged(b, a)]
    } else {
        seq![]
    }
}

/// The changes between two listings sorted by path, in the order of their
/// paths.
pub open spec fn merge_changes(b: Seq<EntryV>, a: Seq<EntryV>) -> Seq<ChangeV>
    decreases b.len() + a.len(),
{
    if a.len() == 0 && b.len() == 0 {
        seq![]
    } else if a.len() == 0 || (b.len() > 0 && path_lt(b[0].path, a[0].path)) {
        seq![ChangeV::Removed(b[0])] + merge_changes(b.drop_first(), a)
    } else if b.len() == 0 || path_lt(a[0].path, b[0].path) {
        seq![ChangeV::Added(a[0])] + merge_changes(b, a.drop_first())
    } else {
        classify(b[0], a[0]) + merge_changes(b.drop_first(), a.drop_first())
    }
}

/// The changes from `before` to `after`: a path only after is added, only
/// before is removed, in both it is modified or re-permissioned; sorted by
/// path.
pub fn compare(before: &Listing, after: &Listing) -> (r: Vec<Change>)
    ensures
        changes(r@) == merge_changes(before.spec_entries(), after.spec_entries()),
{
    let b = before.entries();
    let a = after.entries();
    let ghost bs = entries(b@);
    let ghost as_ = entries(a@);
    let mut out: Vec<Change> = Vec::new();
    let mut i: usize = 0;
    let mut j: usize = 0;
    assert(bs.skip(0) == bs);
    assert(as_.skip(0) == as_);
    assert(changes(out@) + merge_changes(bs.skip(0), as_.skip(0)) =~= merge_changes(bs, as_));
    while i < b.len() || j < a.len()
        invariant
            i <= b@.len(),
            j <= a@.len(),
            bs == entries(b@),
            as_ == entries(a@),
            changes(out@) + merge_changes(bs.skip(i as int), as_.skip(j as int)) == merge_changes(bs, as_),
        decreases b@.len() - i + a@.len() - j,
    {
        let ghost bt = bs.skip(i as int);
        let ghost at = as_.skip(j as int);
        let ghost prev = changes(out@);
        assert(i < b@.len() ==> bt[0] == b@[i as int]@);
        assert(j < a@.len() ==> at[0] == a@[j as int]@);
        assert(i < b@.len() ==> bt.drop_first() == bs.skip(i + 1));
        assert(j < a@.len() ==> at.drop_first() == as_.skip(j + 1));
        if j == a.len() || (i < b.len() && path_lt_exec(b[i].path.as_str(), a[j].path.as_str())) {
            let c = Change::Removed(b[i].duplicate());
            let ghost cv = c@;
            out.push(c);
            assert(changes(out@) =~= prev.push(cv));
            assert(merge_changes(bt, at) == seq![cv] + merge_changes(bs.skip(i + 1), at));
            assert(changes(out@) + merge_changes(bs.skip(i + 1), at) =~= prev + merge_changes(bt, at));
            i = i + 1;
        } else if i == b.len() || path_lt_exec(a[j].path.as_str(), b[i].path.as_str()) {
            let c = Change::Added(a[j].duplicate());
            let ghost cv = c@;
            out.push(c);
            assert(changes(out@) =~= prev.push(cv));
            assert(merge_changes(bt, at) == seq![cv] + merge_changes(bt, as_.skip(j + 1)));
            assert(changes(out@) + merge_changes(bt, as_.skip(j + 1)) =~= prev + merge_changes(bt, at));
            j = j + 1;
        } else {
            let ghost cl = classify(bt[0], at[0]);
            if b[i].content_differs(&a[j]) {
                let c = Change::Modified { before: b[i].duplicate(), after: a[j].duplicate() };
                let ghost cv = c@;
                out.push(c);
                assert(changes(out@) =~= prev.push(cv));
                assert(cl == seq![cv]);
            } else if b[i].metadata_differs(&a[j]) {
                let c = Change::MetadataChanged { before: b[i].duplicate(), after: a[j].duplicate() };
                let ghost cv = c@;
                out.push(c);
                assert(changes(out@) =~= prev.push(cv));
                assert(cl == seq![cv]);
            } else {
                assert(cl =~= Seq::<ChangeV>::empty());
                assert(changes(out@) =~= prev + cl);
            }
            assert(changes(out@) =~= prev + cl);
            assert(merge_changes(bt, at) == cl + merge_changes(bs.skip(i + 1), as_.skip(j + 1)));
            assert(changes(out@) + merge_changes(bs.skip(i + 1), as_.skip(j + 1)) =~= prev + merge_changes(bt, at));
            i = i + 1;
            j = j + 1;
        }
    }
    assert(bs.skip(i as int).len() == 0 && as_.skip(j as int).len() == 0);
    assert(merge_changes(bs.skip(i as int), as_.skip(j as int)) =~= Seq::<ChangeV>::empty());
    assert(changes(out@) =~= merge_changes(bs, as_));
    out
}

// ----------------------------------------------------------------------------
// Unified diffs.

/// The unified diff that `similar` renders from `before` to `after`, line by
/// line with three lines of context, under the headers `from` and `to`.
pub uninterp spec fn unified_diff_text(
    before: Seq<char>,
    after: Seq<char>,
    from: Seq<char>,
    to: Seq<char>,
) -> Seq<char>;

/// `similar::TextDiff::from_lines(before, after).unified_diff()` with a
/// context radius of 3 and the given header, as a string. The contract
/// names the result: it depends on these four arguments alone.
#[verifier::external_body]
fn unified_diff(before: &str, after: &str, from: &str, to: &str) -> (r: String)
    ensures
        r@ == unified_diff_text(before@, after@, from@, to@),
{
    similar::TextDiff::from_lines(before, after)
        .unified_diff()
        .context_radius(3)
        .header(from, to)
        .to_string()
}

/// The unified diff of the file at `path`, headed `a{path}` and `b{path}`.
pub open spec fn unified_raw(path: Seq<char>, before: Seq<char>, after: Seq<char>) -> Seq<char> {
    unified_diff_text(before, after, seq!['a'] + path, seq!['b'] + path)
}

/// Each line of `text` indented by two spaces.
pub open spec fn indented(text: Seq<char>) -> Seq<char> {
    concat(lines(text).map_values(|l: Seq<char>| seq![' ', ' '] + l + seq!['\n']))
}

pub open spec fn unified(path: Seq<char>, before: Seq<char>, after: Seq<char>) -> Seq<char> {
    indented(unified_raw(path, before, after))
}

pub fn unified_raw_exec(path: &str, before: &str, after: &str) -> (r: String)
    ensures
        r@ == unified_raw(path@, before@, after@),
{
    let mut from = String::new();
    push_char(&mut from, 'a');
    push_str(&mut from, path);
    let mut to = String::new();
    push_char(&mut to, 'b');
    push_str(&mut to, path);
    unified_diff(before, after, from.as_str(), to.as_str())
}

/// Indents each line of `text` by two spaces.
pub fn indent(text: &str) -> (r: String)
    ensures
        r@ == indented(text@),
{
    let v = chars_of(text);
    let ls = lines_chars(&v);
    let ghost src = views(ls@);
    let ghost f = |l: Seq<char>| seq![' ', ' '] + l + seq!['\n'];
    let mut out = String::new();
    let mut i: usize = 0;
    assert(concat(src.take(0).map_values(f)) =~= out@);
    while i < ls.len()
        invariant
            i <= ls@.len(),
            src == views(ls@),
            src == lines(text@),
            f == (|l: Seq<char>| seq![' ', ' '] + l + seq!['\n']),
            out@ == concat(src.take(i as int).map_values(f)),
        decreases ls.len() - i,
    {
        proof {
            lemma_map_values_step(src, f, i as int);
            lemma_concat_push(src.take(i as int).map_values(f), f(src[i as int]));
        }
        assert(src[i as int] == ls@[i as int]@);
        push_char(&mut out, ' ');
        push_char(&mut out, ' ');
        let line = string_of(&ls[i], 0, ls[i].len());
        assert(ls@[i as int]@.subrange(0, ls@[i as int]@.len() as int) == ls@[i as int]@);
        push_str(&mut out, line.as_str());
        push_char(&mut out, '\n');
        assert(out@ =~= concat(src.take(i + 1).map_values(f)));
        i = i + 1;
    }
    assert(src.take(src.len() as int) == src);
    out
}

/// The unified diff of one change, indented for the report.
pub fn unified_exec(path: &str, before: &str, after: &str) -> (r: String)
    ensures
        r@ == unified(path@, before@, after@),
{
    let raw = unified_raw_exec(path, before, after);
    indent(raw.as_str())
}

// ----------------------------------------------------------------------------
// Reports.

/// Why the content of an entry is not shown.
pub open spec fn note_text(e: EntryV) -> Seq<char> {
    if is_masked(e) {
        "  (content not recorded: the path matched a secret pattern)\n"@
    } else {
        "  (content not recorded: binary or too large)\n"@
    }
}

fn note(entry: &Entry) -> (r: &'static str)
    ensures
        r@ == note_text(entry@),
{
    if entry.is_masked() {
        "  (content not recorded: the path matched a secret pattern)\n"
    } else {
        "  (content not recorded: binary or too large)\n"
    }
}

/// What the report shows under a change.
pub open spec fn change_body(c: ChangeV, blobs: Seq<(Seq<char>, Seq<char>)>) -> Seq<char> {
    let path = change_path(c);
    match c {
        ChangeV::Added(e) => match crate::snapshot::blob_text_of(blobs, e) {
            Some(t) => unified(path, seq![], t),
            None => note_text(e),
        },
        ChangeV::Removed(e) => match crate::snapshot::blob_text_of(blobs, e) {
            Some(t) => unified(path, t, seq![]),
            None => note_text(e),
        },
        ChangeV::Modified(b, a) => match (
            crate::snapshot::blob_text_of(blobs, b),
            crate::snapshot::blob_text_of(blobs, a),
        ) {
            (Some(x), Some(y)) => unified(path, x, y),
            _ => note_text(a),
        },
        ChangeV::MetadataChanged(b, a) => "  mode "@ + octal(b.mode as nat) + " -> "@
            + octal(a.mode as nat) + ", owner "@ + decimal(b.uid as nat) + seq![':']
            + decimal(b.gid as nat) + " -> "@ + decimal(a.uid as nat) + seq![':']
            + decimal(a.gid as nat) + seq!['\n'],
    }
}

/// One change in the report: its kind padded to twelve columns, its path,
/// and what changed.
pub open spec fn change_report(c: ChangeV, blobs: Seq<(Seq<char>, Seq<char>)>) -> Seq<char> {
    pad(change_label(c), 12) + seq![' '] + change_path(c) + seq!['\n'] + change_body(c, blobs)
}

pub open spec fn report(cs: Seq<ChangeV>, blobs: Seq<(Seq<char>, Seq<char>)>) -> Seq<char> {
    if cs.len() == 0 {
        "no file changes\n"@
    } else {
        concat(cs.map_values(|c: ChangeV| change_report(c, blobs)))
    }
}

#[verifier::spinoff_prover]
#[verifier::rlimit(30)]
fn push_body(out: &mut String, change: &Change, blobs: &crate::snapshot::Blobs)
    ensures
        final(out)@ == old(out)@ + change_body(change@, blobs.spec_texts()),
{
    let path = change.path();
    match change {
        Change::Added(entry) => match crate::snapshot::blob_text(blobs, entry) {
            Some(text) => {
                let u = unified_exec(path, "", text.as_str());
                proof { reveal_strlit(""); }
                assert(""@ =~= Seq::<char>::empty());
                push_str(out, u.as_str());
            },
            None => push_str(out, note(entry)),
        },
        Change::Removed(entry) => match crate::snapshot::blob_text(blobs, entry) {
            Some(text) => {
                let u = unified_exec(path, text.as_str(), "");
                proof { reveal_strlit(""); }
                assert(""@ =~= Seq::<char>::empty());
                push_str(out, u.as_str());
            },
            None => push_str(out, note(entry)),
        },
        Change::Modified { before, after } => {
            match (crate::snapshot::blob_text(blobs, before), crate::snapshot::blob_text(blobs, after)) {
                (Some(a), Some(b)) => {
                    let u = unified_exec(path, a.as_str(), b.as_str());
                    push_str(out, u.as_str());
                },
                _ => push_str(out, note(after)),
            }
        },
        Change::MetadataChanged { before, after } => {
            push_str(out, "  mode ");
            push_octal(out, before.mode as u64);
            push_str(out, " -> ");
            push_octal(out, after.mode as u64);
            push_str(out, ", owner ");
            push_decimal(out, before.uid as u64);
            push_char(out, ':');
            push_decimal(out, before.gid as u64);
            push_str(out, " -> ");
            push_decimal(out, after.uid as u64);
            push_char(out, ':');
            push_decimal(out, after.gid as u64);
            push_char(out, '\n');
        },
    }
}

/// A human-readable report, used by `exarare diff`.
pub fn render(changes_list: &Vec<Change>, blobs: &crate::snapshot::Blobs) -> (r: String)
    ensures
        r@ == report(changes(changes_list@), blobs.spec_texts()),
{
    if changes_list.len() == 0 {
        return crate::text::owned("no file changes\n");
    }
    let ghost cs = changes(changes_list@);
    let ghost bt = blobs.spec_texts();
    let ghost f = |c: ChangeV| change_report(c, bt);
    let mut out = String::new();
    let mut i: usize = 0;
    assert(concat(cs.take(0).map_values(f)) =~= out@);
    while i < changes_list.len()
        invariant
            i <= changes_list@.len(),
            cs == changes(changes_list@),
            bt == blobs.spec_texts(),
            f == (|c: ChangeV| change_report(c, bt)),
            out@ == concat(cs.take(i as int).map_values(f)),
        decreases changes_list.len() - i,
    {
        proof {
            lemma_map_values_step(cs, f, i as int);
            lemma_concat_push(cs.take(i as int).map_values(f), f(cs[i as int]));
        }
        let change = &changes_list[i];
        assert(cs[i as int] == change@);
        push_padded(&mut out, change.label(), 12);
        push_char(&mut out, ' ');
        push_str(&mut out, change.path());
        push_char(&mut out, '\n');
        push_body(&mut out, change, blobs);
        assert(out@ =~= concat(cs.take(i + 1).map_values(f)));
        i = i + 1;
    }
    assert(cs.take(cs.len() as int) == cs);
    out
}

/// The unified diff of one change, when both sides were recorded as text.
/// `None` for a binary, oversized or masked file, for symlinks, and for a
/// change that is only in the mode or owner.
pub open spec fn unified_body_of(c: ChangeV, blobs: Seq<(Seq<char>, Seq<char>)>) -> Option<Seq<char>> {
    let path = change_path(c);
    match c {
        ChangeV::Added(e) => match crate::snapshot::blob_text_of(blobs, e) {
            Some(t) => Some(unified_raw(path, seq![], t)),
            None => None,
        },
        ChangeV::Removed(e) => match crate::snapshot::blob_text_of(blobs, e) {
            Some(t) => Some(unified_raw(path, t, seq![])),
            None => None,
        },
        ChangeV::Modified(b, a) => match (
            crate::snapshot::blob_text_of(blobs, b),
            crate::snapshot::blob_text_of(blobs, a),
        ) {
            (Some(x), Some(y)) => Some(unified_raw(path, x, y)),
            _ => None,
        },
        ChangeV::MetadataChanged(..) => None,
    }
}

pub fn unified_body(change: &Change, blobs: &crate::snapshot::Blobs) -> (r: Option<String>)
    ensures
        match unified_body_of(change@, blobs.spec_texts()) {
            Some(t) => r matches Some(x) && x@ == t,
            None => r.is_none(),
        },
{
    let path = change.path();
    proof {
        reveal_strlit("");
        assert(""@ =~= Seq::<char>::empty());
    }
    match change {
        Change::Added(entry) => match crate::snapshot::blob_text(blobs, entry) {
            Some(text) => Some(unified_raw_exec(path, "", text.as_str())),
            None => None,
        },
        Change::Removed(entry) => match crate::snapshot::blob_text(blobs, entry) {
            Some(text) => Some(unified_raw_exec(path, text.as_str(), "")),
            None => None,
        },
        Change::Modified { before, after } => {
            match (crate::snapshot::blob_text(blobs, before), crate::snapshot::blob_text(blobs, after)) {
                (Some(a), Some(b)) => Some(unified_raw_exec(path, a.as_str(), b.as_str())),
                _ => None,
            }
        },
        Change::MetadataChanged { .. } => None,
    }
}

// ----------------------------------------------------------------------------
// Laws.

/// A listing compared with itself has no changes.
pub proof fn law_no_change_without_work(e: Seq<EntryV>)
    ensures
        merge_changes(e, e).len() == 0,
    decreases e.len(),
{
    if e.len() > 0 {
        lemma_path_lt_irreflexive(e[0].path);
        law_no_change_without_work(e.drop_first());
        assert(classify(e[0], e[0]).len() == 0);
    }
}

/// Some entry of the listing has the path `p`.
pub open spec fn listed(s: Seq<EntryV>, p: Seq<char>) -> bool {
    exists|i: int| 0 <= i < s.len() && (#[trigger] s[i]).path == p
}

/// `p` is in both listings, and its content, mode or owner differs.
pub open spec fn altered(b: Seq<EntryV>, a: Seq<EntryV>, p: Seq<char>) -> bool {
    exists|i: int, j: int|
        0 <= i < b.len() && 0 <= j < a.len() && (#[trigger] b[i]).path == p && (#[trigger] a[j]).path == p
            && (content_differs(b[i], a[j]) || metadata_differs(b[i], a[j]))
}

/// Some change is about the path `p`.
pub open spec fn reported(cs: Seq<ChangeV>, p: Seq<char>) -> bool {
    exists|i: int| 0 <= i < cs.len() && change_path(#[trigger] cs[i]) == p
}

proof fn lemma_reported_concat(x: Seq<ChangeV>, y: Seq<ChangeV>, p: Seq<char>)
    ensures
        reported(x + y, p) == (reported(x, p) || reported(y, p)),
{
    let z = x + y;
    if reported(z, p) {
        let i = choose|i: int| 0 <= i < z.len() && change_path(#[trigger] z[i]) == p;
        if i < x.len() {
            assert(z[i] == x[i]);
        } else {
            assert(z[i] == y[i - x.len()]);
        }
    }
    if reported(x, p) {
        let i = choose|i: int| 0 <= i < x.len() && change_path(#[trigger] x[i]) == p;
        assert(z[i] == x[i]);
    }
    if reported(y, p) {
        let i = choose|i: int| 0 <= i < y.len() && change_path(#[trigger] y[i]) == p;
        assert(z[i + x.len()] == y[i]);
    }
}

proof fn lemma_sorted_tail(s: Seq<EntryV>)
    requires
        sorted_by_path(s),
        s.len() > 0,
    ensures
        sorted_by_path(s.drop_first()),
        !listed(s.drop_first(), s[0].path),
{
    let t = s.drop_first();
    assert forall|i: int, j: int| 0 <= i < j < t.len() implies path_lt(#[trigger] t[i].path, #[trigger] t[j].path) by {
        assert(t[i] == s[i + 1] && t[j] == s[j + 1]);
    }
    if listed(t, s[0].path) {
        let i = choose|i: int| 0 <= i < t.len() && (#[trigger] t[i]).path == s[0].path;
        assert(t[i] == s[i + 1]);
        assert(path_lt(s[0].path, s[i + 1].path));
        lemma_path_lt_irreflexive(s[0].path);
    }
}

/// A path below the first of a sorted listing is in none of it.
proof fn lemma_below_first(s: Seq<EntryV>, p: Seq<char>)
    requires
        sorted_by_path(s),
        s.len() > 0,
        path_lt(p, s[0].path),
    ensures
        !listed(s, p),
{
    if listed(s, p) {
        let i = choose|i: int| 0 <= i < s.len() && (#[trigger] s[i]).path == p;
        if i > 0 {
            assert(path_lt(s[0].path, s[i].path));
            lemma_path_lt_transitive(p, s[0].path, s[i].path);
        }
        lemma_path_lt_irreflexive(p);
    }
}

proof fn lemma_listed_front(s: Seq<EntryV>, p: Seq<char>)
    requires
        s.len() > 0,
    ensures
        listed(s, p) == (s[0].path == p || listed(s.drop_first(), p)),
{
    let t = s.drop_first();
    if listed(s, p) && s[0].path != p {
        let i = choose|i: int| 0 <= i < s.len() && (#[trigger] s[i]).path == p;
        assert(t[i - 1] == s[i]);
    }
    if listed(t, p) {
        let i = choose|i: int| 0 <= i < t.len() && (#[trigger] t[i]).path == p;
        assert(t[i] == s[i + 1]);
    }
    if s[0].path == p {
        assert(s[0].path == p);
    }
}

/// Away from the first path of `b`, what `altered` says does not depend on
/// that first entry.
proof fn lemma_altered_before_tail(b: Seq<EntryV>, a: Seq<EntryV>, p: Seq<char>)
    requires
        b.len() > 0,
        b[0].path != p,
    ensures
        altered(b, a, p) == altered(b.drop_first(), a, p),
{
    let t = b.drop_first();
    if altered(b, a, p) {
        let (i, j) = choose|i: int, j: int|
            0 <= i < b.len() && 0 <= j < a.len() && (#[trigger] b[i]).path == p && (#[trigger] a[j]).path == p
                && (content_differs(b[i], a[j]) || metadata_differs(b[i], a[j]));
        assert(t[i - 1] == b[i]);
        assert(t[i - 1].path == p && a[j].path == p);
    }
    if altered(t, a, p) {
        let (i, j) = choose|i: int, j: int|
            0 <= i < t.len() && 0 <= j < a.len() && (#[trigger] t[i]).path == p && (#[trigger] a[j]).path == p
                && (content_differs(t[i], a[j]) || metadata_differs(t[i], a[j]));
        assert(t[i] == b[i + 1]);
        assert(b[i + 1].path == p && a[j].path == p);
    }
}

proof fn lemma_altered_after_tail(b: Seq<EntryV>, a: Seq<EntryV>, p: Seq<char>)
    requires
        a.len() > 0,
        a[0].path != p,
    ensures
        altered(b, a, p) == altered(b, a.drop_first(), p),
{
    let t = a.drop_first();
    if altered(b, a, p) {
        let (i, j) = choose|i: int, j: int|
            0 <= i < b.len() && 0 <= j < a.len() && (#[trigger] b[i]).path == p && (#[trigger] a[j]).path == p
                && (content_differs(b[i], a[j]) || metadata_differs(b[i], a[j]));
        assert(t[j - 1] == a[j]);
        assert(b[i].path == p && t[j - 1].path == p);
    }
    if altered(b, t, p) {
        let (i, j) = choose|i: int, j: int|
            0 <= i < b.len() && 0 <= j < t.len() && (#[trigger] b[i]).path == p && (#[trigger] t[j]).path == p
                && (content_differs(b[i], t[j]) || metadata_differs(b[i], t[j]));
        assert(t[j] == a[j + 1]);
        assert(b[i].path == p && a[j + 1].path == p);
    }
}

/// `exarare diff` reports a path exactly when it was added, removed, or its
/// content, mode or owner changed: nothing that stayed the same, and
/// nothing that changed is left out.
pub proof fn law_reports_exactly_what_changed(b: Seq<EntryV>, a: Seq<EntryV>, p: Seq<char>)
    requires
        sorted_by_path(b),
        sorted_by_path(a),
    ensures
        reported(merge_changes(b, a), p) == ((listed(b, p) != listed(a, p)) || altered(b, a, p)),
    decreases b.len() + a.len(),
{
    if a.len() == 0 && b.len() == 0 {
        assert(!listed(b, p) && !listed(a, p) && !altered(b, a, p));
    } else if a.len() == 0 || (b.len() > 0 && path_lt(b[0].path, a[0].path)) {
        let rest = b.drop_first();
        lemma_sorted_tail(b);
        law_reports_exactly_what_changed(rest, a, p);
        let head = seq![ChangeV::Removed(b[0])];
        lemma_reported_concat(head, merge_changes(rest, a), p);
        assert(reported(head, p) == (b[0].path == p)) by {
            if b[0].path == p {
                assert(change_path(head[0]) == p);
            }
        }
        lemma_listed_front(b, p);
        if b[0].path == p {
            if a.len() > 0 {
                lemma_below_first(a, p);
            }
            assert(!altered(b, a, p));
        } else {
            lemma_altered_before_tail(b, a, p);
        }
    } else if b.len() == 0 || path_lt(a[0].path, b[0].path) {
        let rest = a.drop_first();
        lemma_sorted_tail(a);
        law_reports_exactly_what_changed(b, rest, p);
        let head = seq![ChangeV::Added(a[0])];
        lemma_reported_concat(head, merge_changes(b, rest), p);
        assert(reported(head, p) == (a[0].path == p)) by {
            if a[0].path == p {
                assert(change_path(head[0]) == p);
            }
        }
        lemma_listed_front(a, p);
        if a[0].path == p {
            if b.len() > 0 {
                lemma_below_first(b, p);
            }
            assert(!altered(b, a, p));
        } else {
            lemma_altered_after_tail(b, a, p);
        }
    } else {
        lemma_path_lt_total(b[0].path, a[0].path);
        let bt = b.drop_first();
        let at = a.drop_first();
        lemma_sorted_tail(b);
        lemma_sorted_tail(a);
        law_reports_exactly_what_changed(bt, at, p);
        let head = classify(b[0], a[0]);
        lemma_reported_concat(head, merge_changes(bt, at), p);
        lemma_listed_front(b, p);
        lemma_listed_front(a, p);
        if b[0].path == p {
            assert(a[0].path == p);
            let d = content_differs(b[0], a[0]) || metadata_differs(b[0], a[0]);
            assert(reported(head, p) == d) by {
                if d {
                    assert(change_path(head[0]) == a[0].path);
                }
            }
            assert(!altered(bt, at, p));
            if d {
                assert(b[0].path == p && a[0].path == p);
                assert(altered(b, a, p));
            } else if altered(b, a, p) {
                let (i, j) = choose|i: int, j: int|
                    0 <= i < b.len() && 0 <= j < a.len() && (#[trigger] b[i]).path == p && (#[trigger] a[j]).path == p
                        && (content_differs(b[i], a[j]) || metadata_differs(b[i], a[j]));
                if i > 0 {
                    assert(bt[i - 1] == b[i]);
                }
                if j > 0 {
                    assert(at[j - 1] == a[j]);
                }
            }
        } else {
            assert(!reported(head, p)) by {
                if head.len() > 0 {
                    assert(change_path(head[0]) == a[0].path);
                }
            }
            lemma_altered_before_tail(b, a, p);
            lemma_altered_after_tail(bt, a, p);
        }
    }
}

/// Every path of a sorted listing is above a path below its first.
proof fn lemma_all_above(s: Seq<EntryV>, x: Seq<char>)
    requires
        sorted_by_path(s),
        s.len() > 0,
        path_lt(x, s[0].path),
    ensures
        forall|i: int| 0 <= i < s.len() ==> path_lt(x, #[trigger] s[i].path),
{
    assert forall|i: int| 0 <= i < s.len() implies path_lt(x, #[trigger] s[i].path) by {
        if i > 0 {
            assert(path_lt(s[0].path, s[i].path));
            lemma_path_lt_transitive(x, s[0].path, s[i].path);
        }
    }
}

/// A change is about a path of one of the two listings.
proof fn lemma_reported_listed(b: Seq<EntryV>, a: Seq<EntryV>, p: Seq<char>)
    requires
        sorted_by_path(b),
        sorted_by_path(a),
        reported(merge_changes(b, a), p),
    ensures
        listed(b, p) || listed(a, p),
{
    law_reports_exactly_what_changed(b, a, p);
    if altered(b, a, p) {
        let (i, j) = choose|i: int, j: int|
            0 <= i < b.len() && 0 <= j < a.len() && (#[trigger] b[i]).path == p && (#[trigger] a[j]).path == p
                && (content_differs(b[i], a[j]) || metadata_differs(b[i], a[j]));
        assert(b[i].path == p);
    }
}

/// Every change after a head is about a path above `x`, when every path of
/// both listings is.
proof fn lemma_rest_above(b: Seq<EntryV>, a: Seq<EntryV>, x: Seq<char>)
    requires
        sorted_by_path(b),
        sorted_by_path(a),
        forall|i: int| 0 <= i < b.len() ==> path_lt(x, #[trigger] b[i].path),
        forall|i: int| 0 <= i < a.len() ==> path_lt(x, #[trigger] a[i].path),
    ensures
        forall|k: int| 0 <= k < merge_changes(b, a).len() ==> path_lt(x, change_path(#[trigger] merge_changes(b, a)[k])),
{
    let m = merge_changes(b, a);
    assert forall|k: int| 0 <= k < m.len() implies path_lt(x, change_path(#[trigger] m[k])) by {
        let p = change_path(m[k]);
        assert(reported(m, p));
        lemma_reported_listed(b, a, p);
        if listed(b, p) {
            let i = choose|i: int| 0 <= i < b.len() && (#[trigger] b[i]).path == p;
            assert(path_lt(x, b[i].path));
        } else {
            let i = choose|i: int| 0 <= i < a.len() && (#[trigger] a[i]).path == p;
            assert(path_lt(x, a[i].path));
        }
    }
}

proof fn lemma_prepend_sorted(h: Seq<ChangeV>, m: Seq<ChangeV>, x: Seq<char>)
    requires
        h.len() <= 1,
        h.len() == 1 ==> change_path(h[0]) == x,
        forall|k: int| 0 <= k < m.len() ==> path_lt(x, change_path(#[trigger] m[k])),
        forall|i: int, j: int| 0 <= i < j < m.len() ==> path_lt(change_path(#[trigger] m[i]), change_path(#[trigger] m[j])),
    ensures
        forall|i: int, j: int| 0 <= i < j < (h + m).len() ==>
            path_lt(change_path(#[trigger] (h + m)[i]), change_path(#[trigger] (h + m)[j])),
{
    let t = h + m;
    assert forall|i: int, j: int| 0 <= i < j < t.len() implies
        path_lt(change_path(#[trigger] t[i]), change_path(#[trigger] t[j])) by {
        if i < h.len() {
            assert(t[i] == h[0]);
            assert(t[j] == m[j - h.len()]);
        } else {
            assert(t[i] == m[i - h.len()]);
            assert(t[j] == m[j - h.len()]);
        }
    }
}

/// The changes come in the order of their paths, each path once.
pub proof fn law_changes_in_path_order(b: Seq<EntryV>, a: Seq<EntryV>)
    requires
        sorted_by_path(b),
        sorted_by_path(a),
    ensures
        forall|i: int, j: int| 0 <= i < j < merge_changes(b, a).len() ==>
            path_lt(change_path(#[trigger] merge_changes(b, a)[i]), change_path(#[trigger] merge_changes(b, a)[j])),
    decreases b.len() + a.len(),
{
    if a.len() == 0 && b.len() == 0 {
    } else if a.len() == 0 || (b.len() > 0 && path_lt(b[0].path, a[0].path)) {
        let rest = b.drop_first();
        lemma_sorted_tail(b);
        law_changes_in_path_order(rest, a);
        assert forall|i: int| 0 <= i < rest.len() implies path_lt(b[0].path, #[trigger] rest[i].path) by {
            assert(rest[i] == b[i + 1]);
        }
        if a.len() > 0 {
            lemma_all_above(a, b[0].path);
        }
        lemma_rest_above(rest, a, b[0].path);
        lemma_prepend_sorted(seq![ChangeV::Removed(b[0])], merge_changes(rest, a), b[0].path);
    } else if b.len() == 0 || path_lt(a[0].path, b[0].path) {
        let rest = a.drop_first();
        lemma_sorted_tail(a);
        law_changes_in_path_order(b, rest);
        assert forall|i: int| 0 <= i < rest.len() implies path_lt(a[0].path, #[trigger] rest[i].path) by {
            assert(rest[i] == a[i + 1]);
        }
        if b.len() > 0 {
            lemma_all_above(b, a[0].path);
        }
        lemma_rest_above(b, rest, a[0].path);
        lemma_prepend_sorted(seq![ChangeV::Added(a[0])], merge_changes(b, rest), a[0].path);
    } else {
        lemma_path_lt_total(b[0].path, a[0].path);
        let bt = b.drop_first();
        let at = a.drop_first();
        lemma_sorted_tail(b);
        lemma_sorted_tail(a);
        law_changes_in_path_order(bt, at);
        assert forall|i: int| 0 <= i < bt.len() implies path_lt(b[0].path, #[trigger] bt[i].path) by {
            assert(bt[i] == b[i + 1]);
        }
        assert forall|i: int| 0 <= i < at.len() implies path_lt(b[0].path, #[trigger] at[i].path) by {
            assert(at[i] == a[i + 1]);
        }
        lemma_rest_above(bt, at, b[0].path);
        lemma_prepend_sorted(classify(b[0], a[0]), merge_changes(bt, at), b[0].path);
    }
}

/// `e` is one of the entries of the listing.
pub open spec fn has_entry(s: Seq<EntryV>, e: EntryV) -> bool {
    exists|i: int| 0 <= i < s.len() && s[i] == e
}

/// What a change says of the two listings: an added file is only in the
/// later one, a removed file only in the earlier one, a modified file is in
/// both with other content, and a re-permissioned file in both with the same
/// content but another mode or owner.
pub open spec fn right_kind(c: ChangeV, b: Seq<EntryV>, a: Seq<EntryV>) -> bool {
    match c {
        ChangeV::Added(e) => has_entry(a, e) && !listed(b, e.path),
        ChangeV::Removed(e) => has_entry(b, e) && !listed(a, e.path),
        ChangeV::Modified(x, y) => has_entry(b, x) && has_entry(a, y) && x.path == y.path
            && content_differs(x, y),
        ChangeV::MetadataChanged(x, y) => has_entry(b, x) && has_entry(a, y) && x.path == y.path
            && !content_differs(x, y) && metadata_differs(x, y),
    }
}

proof fn lemma_has_entry_tail(s: Seq<EntryV>, e: EntryV)
    requires
        s.len() > 0,
        has_entry(s.drop_first(), e),
    ensures
        has_entry(s, e),
{
    let i = choose|i: int| 0 <= i < s.drop_first().len() && s.drop_first()[i] == e;
    assert(s[i + 1] == e);
}

/// A change that is right of the tails of the listings stays right of the
/// whole listings, when its paths are not the first path of either.
proof fn lemma_right_kind_lift(c: ChangeV, b: Seq<EntryV>, a: Seq<EntryV>, bt: Seq<EntryV>, at: Seq<EntryV>, x: Seq<char>)
    requires
        right_kind(c, bt, at),
        bt == b || (b.len() > 0 && bt == b.drop_first() && b[0].path == x),
        at == a || (a.len() > 0 && at == a.drop_first() && a[0].path == x),
        change_path(c) != x,
    ensures
        right_kind(c, b, a),
{
    match c {
        ChangeV::Added(e) => {
            if at != a {
                lemma_has_entry_tail(a, e);
            }
            if bt != b {
                lemma_listed_front(b, e.path);
            }
        },
        ChangeV::Removed(e) => {
            if bt != b {
                lemma_has_entry_tail(b, e);
            }
            if at != a {
                lemma_listed_front(a, e.path);
            }
        },
        ChangeV::Modified(p, q) => {
            if bt != b {
                lemma_has_entry_tail(b, p);
            }
            if at != a {
                lemma_has_entry_tail(a, q);
            }
        },
        ChangeV::MetadataChanged(p, q) => {
            if bt != b {
                lemma_has_entry_tail(b, p);
            }
            if at != a {
                lemma_has_entry_tail(a, q);
            }
        },
    }
}

/// Each change has the kind its path calls for: added when the path is only
/// after, removed when only before, modified when the content differs,
/// re-permissioned when only the mode or owner does.
pub proof fn law_each_change_has_its_kind(b: Seq<EntryV>, a: Seq<EntryV>)
    requires
        sorted_by_path(b),
        sorted_by_path(a),
    ensures
        forall|k: int| 0 <= k < merge_changes(b, a).len() ==> right_kind(#[trigger] merge_changes(b, a)[k], b, a),
    decreases b.len() + a.len(),
{
    let m = merge_changes(b, a);
    if a.len() == 0 && b.len() == 0 {
    } else if a.len() == 0 || (b.len() > 0 && path_lt(b[0].path, a[0].path)) {
        let bt = b.drop_first();
        lemma_sorted_tail(b);
        law_each_change_has_its_kind(bt, a);
        let rest = merge_changes(bt, a);
        assert forall|i: int| 0 <= i < bt.len() implies path_lt(b[0].path, #[trigger] bt[i].path) by {
            assert(bt[i] == b[i + 1]);
        }
        if a.len() > 0 {
            lemma_all_above(a, b[0].path);
            lemma_below_first(a, b[0].path);
        }
        lemma_rest_above(bt, a, b[0].path);
        assert(b[0] == b[0]);
        assert(has_entry(b, b[0]));
        assert forall|k: int| 0 <= k < m.len() implies right_kind(#[trigger] m[k], b, a) by {
            if k > 0 {
                assert(m[k] == rest[k - 1]);
                assert(right_kind(rest[k - 1], bt, a));
                lemma_path_lt_irreflexive(b[0].path);
                lemma_right_kind_lift(rest[k - 1], b, a, bt, a, b[0].path);
            }
        }
    } else if b.len() == 0 || path_lt(a[0].path, b[0].path) {
        let at = a.drop_first();
        lemma_sorted_tail(a);
        law_each_change_has_its_kind(b, at);
        let rest = merge_changes(b, at);
        assert forall|i: int| 0 <= i < at.len() implies path_lt(a[0].path, #[trigger] at[i].path) by {
            assert(at[i] == a[i + 1]);
        }
        if b.len() > 0 {
            lemma_all_above(b, a[0].path);
            lemma_below_first(b, a[0].path);
        }
        lemma_rest_above(b, at, a[0].path);
        assert(has_entry(a, a[0]));
        assert forall|k: int| 0 <= k < m.len() implies right_kind(#[trigger] m[k], b, a) by {
            if k > 0 {
                assert(m[k] == rest[k - 1]);
                assert(right_kind(rest[k - 1], b, at));
                lemma_path_lt_irreflexive(a[0].path);
                lemma_right_kind_lift(rest[k - 1], b, a, b, at, a[0].path);
            }
        }
    } else {
        lemma_path_lt_total(b[0].path, a[0].path);
        let bt = b.drop_first();
        let at = a.drop_first();
        lemma_sorted_tail(b);
        lemma_sorted_tail(a);
        law_each_change_has_its_kind(bt, at);
        let head = classify(b[0], a[0]);
        let rest = merge_changes(bt, at);
        assert forall|i: int| 0 <= i < bt.len() implies path_lt(b[0].path, #[trigger] bt[i].path) by {
            assert(bt[i] == b[i + 1]);
        }
        assert forall|i: int| 0 <= i < at.len() implies path_lt(b[0].path, #[trigger] at[i].path) by {
            assert(at[i] == a[i + 1]);
        }
        lemma_rest_above(bt, at, b[0].path);
        assert(has_entry(b, b[0]));
        assert(has_entry(a, a[0]));
        assert forall|k: int| 0 <= k < m.len() implies right_kind(#[trigger] m[k], b, a) by {
            if k < head.len() {
                assert(m[k] == head[k]);
            } else {
                assert(m[k] == rest[k - head.len()]);
                assert(right_kind(rest[k - head.len()], bt, at));
                lemma_path_lt_irreflexive(b[0].path);
                lemma_right_kind_lift(rest[k - head.len()], b, a, bt, at, b[0].path);
            }
        }
    }
}

/// A change of mode or owner is reported with both modes and both owners:
/// the old ones, from the `before` entry, ahead of each arrow, and the new
/// ones, from the `after` entry, behind it.
pub proof fn law_metadata_change_shows_old_and_new(cs: Seq<ChangeV>, blobs: Seq<(Seq<char>, Seq<char>)>, k: int)
    requires
        0 <= k < cs.len(),
        cs[k] is MetadataChanged,
    ensures
        crate::text::contains(report(cs, blobs), ({
            let b = cs[k]->MetadataChanged_0;
            let a = cs[k]->MetadataChanged_1;
            "  mode "@ + octal(b.mode as nat) + " -> "@ + octal(a.mode as nat) + ", owner "@
                + decimal(b.uid as nat) + seq![':'] + decimal(b.gid as nat) + " -> "@
                + decimal(a.uid as nat) + seq![':'] + decimal(a.gid as nat) + seq!['\n']
        })),
{
    let b = cs[k]->MetadataChanged_0;
    let a = cs[k]->MetadataChanged_1;
    let line = "  mode "@ + octal(b.mode as nat) + " -> "@ + octal(a.mode as nat) + ", owner "@
        + decimal(b.uid as nat) + seq![':'] + decimal(b.gid as nat) + " -> "@
        + decimal(a.uid as nat) + seq![':'] + decimal(a.gid as nat) + seq!['\n'];
    assert(change_body(cs[k], blobs) == line);
    let f = |c: ChangeV| change_report(c, blobs);
    let reports = cs.map_values(f);
    let head = pad(change_label(cs[k]), 12) + seq![' '] + change_path(cs[k]) + seq!['\n'];
    assert(reports[k] == head + line);
    crate::text::lemma_concat_contains(reports, k);
    assert(report(cs, blobs) == concat(reports));
    assert(reports[k] =~= head + line + Seq::<char>::empty());
    crate::text::lemma_contains_part(concat(reports), head, line, Seq::<char>::empty());
}

} // verus!
