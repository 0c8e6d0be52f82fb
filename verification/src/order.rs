//! Orderings and sorting: the order of `str`, sets of names kept sorted and
//! free of repeats, and the stable insertion order that `sort_by` gives.

use vstd::prelude::*;

use crate::text::{concat, labeled_lines, lemma_concat_push, lemma_map_values_step, push_str, lemma_filter_map_step, chars_lt, lemma_views_push, seq_equal, seq_lt, string_of, views};

verus! {

/// The character sequences of a list of strings.
pub open spec fn strs(s: Seq<String>) -> Seq<Seq<char>> {
    s.map_values(|x: String| x@)
}

pub proof fn lemma_strs_push(s: Seq<String>, x: String)
    ensures
        strs(s.push(x)) == strs(s).push(x@),
{
    assert(strs(s.push(x)) =~= strs(s).push(x@));
}

/// Every element is below every later one: sorted, with no repeats.
pub open spec fn strictly_sorted(s: Seq<Seq<char>>) -> bool {
    forall|i: int, j: int| 0 <= i < j < s.len() ==> seq_lt(#[trigger] s[i], #[trigger] s[j])
}

pub proof fn lemma_lt_irreflexive(a: Seq<char>)
    ensures
        !seq_lt(a, a),
    decreases a.len(),
{
    if a.len() > 0 {
        lemma_lt_irreflexive(a.drop_first());
    }
}

pub proof fn lemma_lt_transitive(a: Seq<char>, b: Seq<char>, c: Seq<char>)
    requires
        seq_lt(a, b),
        seq_lt(b, c),
    ensures
        seq_lt(a, c),
    decreases a.len(),
{
    if a.len() > 0 && b.len() > 0 && c.len() > 0 {
        if a[0] == b[0] && b[0] == c[0] {
            lemma_lt_transitive(a.drop_first(), b.drop_first(), c.drop_first());
        }
    }
}

pub proof fn lemma_lt_total(a: Seq<char>, b: Seq<char>)
    ensures
        seq_lt(a, b) || seq_lt(b, a) || a == b,
    decreases a.len(),
{
    if a.len() > 0 && b.len() > 0 {
        if a[0] == b[0] {
            lemma_lt_total(a.drop_first(), b.drop_first());
            if a.drop_first() == b.drop_first() {
                assert(a =~= seq![a[0]] + a.drop_first());
                assert(b =~= seq![b[0]] + b.drop_first());
            }
        }
    } else if a.len() == 0 && b.len() == 0 {
        assert(a =~= b);
    }
}

pub proof fn lemma_to_set_push<T>(s: Seq<T>, x: T)
    ensures
        s.push(x).to_set() == s.to_set().insert(x),
{
    assert forall|e: T| s.push(x).to_set().contains(e) <==> s.to_set().insert(x).contains(e) by {
        if s.push(x).to_set().contains(e) {
            let i = choose|i: int| 0 <= i < s.push(x).len() && s.push(x)[i] == e;
            if i < s.len() {
                assert(s[i] == e);
            }
        }
        if s.to_set().contains(e) {
            let i = choose|i: int| 0 <= i < s.len() && s[i] == e;
            assert(s.push(x)[i] == e);
        }
        if e == x {
            assert(s.push(x)[s.len() as int] == e);
        }
    }
    assert(s.push(x).to_set() =~= s.to_set().insert(x));
}

/// The distinct elements of `items`, in ascending order.
pub open spec fn is_sorted_set_of(r: Seq<Seq<char>>, items: Seq<Seq<char>>) -> bool {
    strictly_sorted(r) && r.to_set() == items.to_set()
}

/// Inserts `x` into the strictly sorted `r`, unless it is there already.
pub fn insert_unique(r: &mut Vec<Vec<char>>, x: Vec<char>)
    requires
        strictly_sorted(views(old(r)@)),
    ensures
        strictly_sorted(views(final(r)@)),
        views(final(r)@).to_set() == views(old(r)@).to_set().insert(x@),
{
    let ghost s = views(r@);
    let mut k: usize = 0;
    while k < r.len() && chars_lt(&r[k], &x)
        invariant
            k <= r@.len(),
            s == views(r@),
            forall|m: int| 0 <= m < k ==> seq_lt(#[trigger] s[m], x@),
        decreases r.len() - k,
    {
        assert(s[k as int] == r@[k as int]@);
        k = k + 1;
    }
    if k < r.len() {
        assert(s[k as int] == r@[k as int]@);
        if seq_equal(&r[k], &x) {
            assert(s.to_set().insert(x@) =~= s.to_set());
            return;
        }
        proof {
            lemma_lt_total(s[k as int], x@);
        }
    }
    let ghost pos = k as int;
    r.insert(k, x);
    proof {
        let t = views(r@);
        assert(t =~= s.insert(pos, x@));
        assert forall|i: int, j: int| 0 <= i < j < t.len() implies seq_lt(#[trigger] t[i], #[trigger] t[j]) by {
            if j < pos {
            } else if i < pos && j == pos {
            } else if i < pos && j > pos {
                assert(t[j] == s[j - 1]);
                if pos < s.len() {
                    if j - 1 > pos {
                        assert(seq_lt(s[pos], s[j - 1]));
                    }
                    assert(seq_lt(x@, s[pos]));
                    lemma_lt_transitive(s[i], x@, s[pos]);
                    if j - 1 > pos {
                        lemma_lt_transitive(s[i], s[pos], s[j - 1]);
                    }
                }
            } else if i == pos {
                assert(t[j] == s[j - 1]);
                if j - 1 > pos {
                    assert(seq_lt(s[pos], s[j - 1]));
                    lemma_lt_transitive(x@, s[pos], s[j - 1]);
                }
            } else {
                assert(t[i] == s[i - 1]);
                assert(t[j] == s[j - 1]);
            }
        }
        assert(t.to_set() =~= s.to_set().insert(x@)) by {
            assert forall|e: Seq<char>| t.to_set().contains(e) <==> s.to_set().insert(x@).contains(e) by {
                if t.to_set().contains(e) {
                    let i = choose|i: int| 0 <= i < t.len() && t[i] == e;
                    if i < pos {
                        assert(s[i] == e);
                    } else if i > pos {
                        assert(s[i - 1] == e);
                    }
                }
                if s.to_set().contains(e) {
                    let i = choose|i: int| 0 <= i < s.len() && s[i] == e;
                    if i < pos {
                        assert(t[i] == e);
                    } else {
                        assert(t[i + 1] == e);
                    }
                }
                if e == x@ {
                    assert(t[pos] == e);
                }
            }
        }
    }
}

/// The distinct elements of `items`, in ascending order: `sort` then
/// `dedup`.
pub fn sorted_unique(items: Vec<Vec<char>>) -> (r: Vec<Vec<char>>)
    ensures
        strictly_sorted(views(r@)),
        views(r@).to_set() == views(items@).to_set(),
{
    let mut r: Vec<Vec<char>> = Vec::new();
    let mut i: usize = 0;
    assert(views(r@).to_set() =~= views(items@.take(0)).to_set());
    while i < items.len()
        invariant
            i <= items@.len(),
            strictly_sorted(views(r@)),
            views(r@).to_set() == views(items@.take(i as int)).to_set(),
        decreases items.len() - i,
    {
        let x = items[i].clone();
        insert_unique(&mut r, x);
        assert(views(items@.take(i + 1)) =~= views(items@.take(i as int)).push(items@[i as int]@));
        proof {
            lemma_views_push(items@.take(i as int), items@[i as int]);
        }
        proof {
            lemma_to_set_push(views(items@.take(i as int)), items@[i as int]@);
        }
        i = i + 1;
    }
    assert(items@.take(items@.len() as int) == items@);
    r
}

/// The strings of a list of character vectors.
pub fn to_strings(v: &Vec<Vec<char>>) -> (r: Vec<String>)
    ensures
        strs(r@) == views(v@),
{
    let mut r: Vec<String> = Vec::new();
    let mut i: usize = 0;
    while i < v.len()
        invariant
            i <= v@.len(),
            strs(r@) == views(v@.take(i as int)),
        decreases v.len() - i,
    {
        let s = string_of(&v[i], 0, v[i].len());
        assert(v[i as int]@.subrange(0, v[i as int]@.len() as int) == v[i as int]@);
        proof { lemma_strs_push(r@, s); }
        r.push(s);
        assert(views(v@.take(i + 1)) =~= views(v@.take(i as int)).push(v@[i as int]@));
        i = i + 1;
    }
    assert(v@.take(v@.len() as int) == v@);
    r
}

// ----------------------------------------------------------------------------
// Stable insertion order.

/// Index of the first element of `s` that `gt` puts after `x`, or the length.
pub open spec fn first_after<T>(s: Seq<T>, x: T, gt: spec_fn(T, T) -> bool) -> int
    decreases s.len(),
{
    if s.len() == 0 {
        0
    } else if gt(s[0], x) {
        0
    } else {
        1 + first_after(s.drop_first(), x, gt)
    }
}

/// `s` sorted by `gt` keeping the relative order of elements it does not
/// tell apart, as the stable `sort_by` does.
pub open spec fn stable_sort<T>(s: Seq<T>, gt: spec_fn(T, T) -> bool) -> Seq<T>
    decreases s.len(),
{
    if s.len() == 0 {
        s
    } else {
        let sorted = stable_sort(s.drop_last(), gt);
        sorted.insert(first_after(sorted, s.last(), gt), s.last())
    }
}

pub proof fn lemma_first_after<T>(s: Seq<T>, x: T, gt: spec_fn(T, T) -> bool, k: int)
    requires
        0 <= k <= s.len(),
        forall|m: int| 0 <= m < k ==> !gt(#[trigger] s[m], x),
        k == s.len() || gt(s[k], x),
    ensures
        first_after(s, x, gt) == k,
    decreases k,
{
    if k > 0 {
        assert forall|m: int| 0 <= m < k - 1 implies !gt(#[trigger] s.drop_first()[m], x) by {
            assert(s.drop_first()[m] == s[m + 1]);
        }
        if k < s.len() {
            assert(s.drop_first()[k - 1] == s[k]);
        }
        lemma_first_after(s.drop_first(), x, gt, k - 1);
    }
}

pub proof fn lemma_stable_sort_len<T>(s: Seq<T>, gt: spec_fn(T, T) -> bool)
    ensures
        stable_sort(s, gt).len() == s.len(),
        0 <= first_after(s, s.last(), gt) <= s.len(),
    decreases s.len(),
{
    if s.len() > 0 {
        lemma_stable_sort_len(s.drop_last(), gt);
        lemma_first_after_bound(stable_sort(s.drop_last(), gt), s.last(), gt);
    }
    lemma_first_after_bound(s, s.last(), gt);
}

/// Sorting keeps exactly the elements it was given.
pub proof fn lemma_stable_sort_contains<T>(s: Seq<T>, gt: spec_fn(T, T) -> bool, x: T)
    ensures
        stable_sort(s, gt).contains(x) <==> s.contains(x),
    decreases s.len(),
{
    if s.len() > 0 {
        let rest = s.drop_last();
        let sorted = stable_sort(rest, gt);
        lemma_stable_sort_contains(rest, gt, x);
        lemma_first_after_bound(sorted, s.last(), gt);
        let k = first_after(sorted, s.last(), gt);
        let ins = sorted.insert(k, s.last());
        assert(stable_sort(s, gt) == ins);
        if ins.contains(x) {
            let i = choose|i: int| 0 <= i < ins.len() && ins[i] == x;
            if i < k {
                assert(sorted[i] == x);
                assert(sorted.contains(x));
            } else if i > k {
                assert(sorted[i - 1] == x);
                assert(sorted.contains(x));
            } else {
                assert(s[s.len() - 1] == x);
            }
            if rest.contains(x) {
                let j = choose|j: int| 0 <= j < rest.len() && rest[j] == x;
                assert(s[j] == x);
            }
        }
        if s.contains(x) {
            let j = choose|j: int| 0 <= j < s.len() && s[j] == x;
            if j == s.len() - 1 {
                assert(ins[k] == x);
            } else {
                assert(rest[j] == x);
                assert(rest.contains(x));
                let i = choose|i: int| 0 <= i < sorted.len() && sorted[i] == x;
                if i < k {
                    assert(ins[i] == x);
                } else {
                    assert(ins[i + 1] == x);
                }
            }
        }
    }
}

pub proof fn lemma_first_after_bound<T>(s: Seq<T>, x: T, gt: spec_fn(T, T) -> bool)
    ensures
        0 <= first_after(s, x, gt) <= s.len(),
    decreases s.len(),
{
    if s.len() > 0 {
        lemma_first_after_bound(s.drop_first(), x, gt);
    }
}

/// Whether `s` is one of `v`.
pub fn contains_str(v: &Vec<String>, s: &String) -> (r: bool)
    ensures
        r == strs(v@).contains(s@),
{
    let mut i: usize = 0;
    while i < v.len()
        invariant
            i <= v@.len(),
            forall|k: int| 0 <= k < i ==> strs(v@)[k] != s@,
        decreases v.len() - i,
    {
        if v[i] == *s {
            assert(strs(v@)[i as int] == s@);
            return true;
        }
        assert(strs(v@)[i as int] == v@[i as int]@);
        i = i + 1;
    }
    false
}

/// Copies of the strings of `v`.
pub fn copy_strings(v: &Vec<String>) -> (r: Vec<String>)
    ensures
        strs(r@) == strs(v@),
{
    let mut r: Vec<String> = Vec::new();
    let mut i: usize = 0;
    while i < v.len()
        invariant
            i <= v@.len(),
            strs(r@) == strs(v@.take(i as int)),
        decreases v.len() - i,
    {
        let s = v[i].clone();
        proof { lemma_strs_push(r@, s); }
        r.push(s);
        assert(strs(v@.take(i + 1)) =~= strs(v@.take(i as int)).push(v@[i as int]@));
        i = i + 1;
    }
    assert(v@.take(v@.len() as int) == v@);
    r
}

/// A `filter_map` that keeps nothing of any element is empty.
pub proof fn lemma_filter_map_none<A, B>(s: Seq<A>, f: spec_fn(A) -> Option<B>)
    requires
        forall|i: int| 0 <= i < s.len() ==> (#[trigger] f(s[i])).is_none(),
    ensures
        s.filter_map(f).len() == 0,
    decreases s.len(),
{
    if s.len() > 0 {
        assert(f(s[s.len() - 1]).is_none());
        assert forall|i: int| 0 <= i < s.drop_last().len() implies (#[trigger] f(s.drop_last()[i])).is_none() by {
            assert(s.drop_last()[i] == s[i]);
            assert(f(s[i]).is_none());
        }
        lemma_filter_map_none(s.drop_last(), f);
    }
}

/// The elements of `after` that are not in `before`, in the order of
/// `after`.
pub open spec fn added(before: Seq<Seq<char>>, after: Seq<Seq<char>>) -> Seq<Seq<char>> {
    after.filter_map(|x: Seq<char>| if before.contains(x) { None } else { Some(x) })
}

pub fn added_strings(before: &Vec<String>, after: &Vec<String>) -> (r: Vec<String>)
    ensures
        strs(r@) == added(strs(before@), strs(after@)),
{
    let ghost a = strs(after@);
    let ghost f = |x: Seq<char>| if strs(before@).contains(x) { None } else { Some(x) };
    let mut r: Vec<String> = Vec::new();
    let mut i: usize = 0;
    assert(a.take(0).filter_map(f) =~= strs(r@));
    while i < after.len()
        invariant
            i <= after@.len(),
            a == strs(after@),
            f == (|x: Seq<char>| if strs(before@).contains(x) { None } else { Some(x) }),
            strs(r@) == a.take(i as int).filter_map(f),
        decreases after.len() - i,
    {
        proof { lemma_filter_map_step(a, f, i as int); }
        assert(a[i as int] == after@[i as int]@);
        if !contains_str(before, &after[i]) {
            let x = after[i].clone();
            proof { lemma_strs_push(r@, x); }
            r.push(x);
        }
        i = i + 1;
    }
    assert(a.take(a.len() as int) == a);
    r
}

/// `before` followed by each element of `after` that is not already there,
/// the earlier copy kept.
pub open spec fn merged(before: Seq<Seq<char>>, after: Seq<Seq<char>>) -> Seq<Seq<char>>
    decreases after.len(),
{
    if after.len() == 0 {
        before
    } else {
        let m = merged(before, after.drop_last());
        if m.contains(after.last()) {
            m
        } else {
            m.push(after.last())
        }
    }
}

pub fn merge_strings(before: &Vec<String>, after: &Vec<String>) -> (r: Vec<String>)
    ensures
        strs(r@) == merged(strs(before@), strs(after@)),
{
    let mut r = copy_strings(before);
    let ghost a = strs(after@);
    let mut i: usize = 0;
    assert(a.take(0) =~= Seq::<Seq<char>>::empty());
    while i < after.len()
        invariant
            i <= after@.len(),
            a == strs(after@),
            strs(r@) == merged(strs(before@), a.take(i as int)),
        decreases after.len() - i,
    {
        assert(a.take(i + 1).drop_last() == a.take(i as int));
        assert(a.take(i + 1).last() == after@[i as int]@);
        if !contains_str(&r, &after[i]) {
            let x = after[i].clone();
            proof { lemma_strs_push(r@, x); }
            r.push(x);
        }
        i = i + 1;
    }
    assert(a.take(a.len() as int) == a);
    r
}

/// Appends `label`, the item and a newline for each item.
pub fn push_labeled(out: &mut String, label: &str, items: &Vec<String>)
    ensures
        final(out)@ == old(out)@ + labeled_lines(label@, strs(items@)),
{
    let ghost a = strs(items@);
    let ghost f = |x: Seq<char>| label@ + x + seq!['\n'];
    let ghost start = out@;
    let mut i: usize = 0;
    assert(concat(a.take(0).map_values(f)) =~= Seq::<char>::empty());
    assert(out@ =~= start + concat(a.take(0).map_values(f)));
    while i < items.len()
        invariant
            i <= items@.len(),
            a == strs(items@),
            f == (|x: Seq<char>| label@ + x + seq!['\n']),
            out@ == start + concat(a.take(i as int).map_values(f)),
        decreases items.len() - i,
    {
        proof {
            lemma_map_values_step(a, f, i as int);
            lemma_concat_push(a.take(i as int).map_values(f), f(a[i as int]));
        }
        assert(a[i as int] == items@[i as int]@);
        push_str(out, label);
        push_str(out, items[i].as_str());
        push_str(out, "\n");
        proof { reveal_strlit("\n"); }
        assert(out@ =~= start + concat(a.take(i + 1).map_values(f)));
        i = i + 1;
    }
    assert(a.take(a.len() as int) == a);
}

} // verus!
