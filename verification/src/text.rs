//! Text primitives over character sequences: the pieces of `str` that the
//! parsers and renderers of this crate are built from, each with the meaning
//! the standard library documents for it.

use vstd::prelude::*;

verus! {

/// Unicode `White_Space`, as `char::is_whitespace` defines it.
pub open spec fn is_ws(c: char) -> bool {
    ||| ('\t' <= c && c <= '\r')
    ||| c == ' '
    ||| c == '\u{85}'
    ||| c == '\u{a0}'
    ||| c == '\u{1680}'
    ||| ('\u{2000}' <= c && c <= '\u{200a}')
    ||| c == '\u{2028}'
    ||| c == '\u{2029}'
    ||| c == '\u{202f}'
    ||| c == '\u{205f}'
    ||| c == '\u{3000}'
}

pub fn is_whitespace(c: char) -> (r: bool)
    ensures
        r == is_ws(c),
{
    ('\t' <= c && c <= '\r') || c == ' ' || c == '\u{85}' || c == '\u{a0}' || c == '\u{1680}'
        || ('\u{2000}' <= c && c <= '\u{200a}') || c == '\u{2028}' || c == '\u{2029}'
        || c == '\u{202f}' || c == '\u{205f}' || c == '\u{3000}'
}

/// `s` without leading white space.
pub open spec fn trim_start(s: Seq<char>) -> Seq<char>
    decreases s.len(),
{
    if s.len() > 0 && is_ws(s[0]) {
        trim_start(s.drop_first())
    } else {
        s
    }
}

/// `s` without trailing white space.
pub open spec fn trim_end(s: Seq<char>) -> Seq<char>
    decreases s.len(),
{
    if s.len() > 0 && is_ws(s.last()) {
        trim_end(s.drop_last())
    } else {
        s
    }
}

/// `str::trim`.
pub open spec fn trim(s: Seq<char>) -> Seq<char> {
    trim_end(trim_start(s))
}

/// The pieces of `s` between occurrences of `sep`, as `str::split` with a
/// `char` pattern yields them: an empty `s` gives one empty piece.
pub open spec fn split(s: Seq<char>, sep: char) -> Seq<Seq<char>>
    decreases s.len(),
{
    if s.len() == 0 {
        seq![Seq::<char>::empty()]
    } else {
        let init = split(s.drop_last(), sep);
        if s.last() == sep {
            init.push(Seq::<char>::empty())
        } else {
            init.update(init.len() - 1, init.last().push(s.last()))
        }
    }
}

/// `line` without one trailing carriage return.
pub open spec fn strip_cr(line: Seq<char>) -> Seq<char> {
    if line.len() > 0 && line.last() == '\r' {
        line.drop_last()
    } else {
        line
    }
}

/// `str::lines`: the pieces between newlines, a final empty piece dropped, and
/// a carriage return removed where it precedes a newline.
pub open spec fn lines(s: Seq<char>) -> Seq<Seq<char>> {
    let parts = split(s, '\n');
    let n = parts.len();
    Seq::new(
        (if parts.last().len() == 0 { n - 1 } else { n as int }) as nat,
        |i: int| if i < n - 1 { strip_cr(parts[i]) } else { parts[i] },
    )
}

/// `str::split_whitespace`: the maximal runs of characters that are not white
/// space.
pub open spec fn words(s: Seq<char>) -> Seq<Seq<char>>
    decreases s.len(),
{
    if s.len() == 0 {
        Seq::empty()
    } else {
        let init = words(s.drop_last());
        let c = s.last();
        if is_ws(c) {
            init
        } else if s.len() == 1 || is_ws(s.drop_last().last()) {
            init.push(seq![c])
        } else {
            init.update(init.len() - 1, init.last().push(c))
        }
    }
}

/// ASCII letters lowered, as `str::to_ascii_lowercase`.
pub open spec fn lower_char(c: char) -> char {
    if 'A' <= c && c <= 'Z' {
        ((c as u32) + 32) as char
    } else {
        c
    }
}

pub open spec fn lower(s: Seq<char>) -> Seq<char> {
    s.map_values(|c: char| lower_char(c))
}

pub open spec fn starts_with(s: Seq<char>, p: Seq<char>) -> bool {
    p.len() <= s.len() && s.take(p.len() as int) == p
}

pub open spec fn ends_with(s: Seq<char>, p: Seq<char>) -> bool {
    p.len() <= s.len() && s.skip(s.len() - p.len()) == p
}

/// `needle` occurs in `s` starting at `i`.
pub open spec fn occurs_at(s: Seq<char>, needle: Seq<char>, i: int) -> bool {
    0 <= i && i + needle.len() <= s.len() && s.subrange(i, i + needle.len()) == needle
}

pub open spec fn contains(s: Seq<char>, needle: Seq<char>) -> bool {
    exists|i: int| occurs_at(s, needle, i)
}

/// Strict lexicographic order on character sequences, which is the order of
/// `str` and `String` (UTF-8 preserves the order of code points).
pub open spec fn seq_lt(a: Seq<char>, b: Seq<char>) -> bool
    decreases a.len(),
{
    if a.len() == 0 {
        b.len() > 0
    } else if b.len() == 0 {
        false
    } else if a[0] != b[0] {
        a[0] < b[0]
    } else {
        seq_lt(a.drop_first(), b.drop_first())
    }
}

// ----------------------------------------------------------------------------
// Executable counterparts.

/// `String::push`: the string afterwards is the one before with `c` added
/// at its end, as std documents it.
#[verifier::external_body]
pub(crate) fn push_char(s: &mut String, c: char)
    ensures
        final(s)@ == old(s)@.push(c),
{
    s.push(c);
}

pub fn push_str(out: &mut String, s: &str)
    ensures
        final(out)@ == old(out)@ + s@,
{
    out.append(s);
}

/// The characters of `s`.
pub fn chars_of(s: &str) -> (r: Vec<char>)
    ensures
        r@ == s@,
{
    let mut r: Vec<char> = Vec::new();
    let ghost whole = s@;
    for c in it: s.chars()
        invariant
            r@ == it.seq().take(it.index() as int),
            it.seq() == whole,
    {
        r.push(c);
    }
    r
}

/// The text of `v[lo..hi]`.
pub fn string_of(v: &[char], lo: usize, hi: usize) -> (r: String)
    requires
        lo <= hi <= v@.len(),
    ensures
        r@ == v@.subrange(lo as int, hi as int),
{
    let mut r = String::new();
    let mut i = lo;
    while i < hi
        invariant
            lo <= i <= hi <= v@.len(),
            r@ == v@.subrange(lo as int, i as int),
        decreases hi - i,
    {
        push_char(&mut r, v[i]);
        assert(v@.subrange(lo as int, i + 1) == v@.subrange(lo as int, i as int).push(v@[i as int]));
        i = i + 1;
    }
    r
}

pub fn owned(s: &str) -> (r: String)
    ensures
        r@ == s@,
{
    let v = chars_of(s);
    string_of(&v, 0, v.len())
}

pub fn seq_equal(a: &[char], b: &[char]) -> (r: bool)
    ensures
        r == (a@ == b@),
{
    if a.len() != b.len() {
        return false;
    }
    let mut i: usize = 0;
    while i < a.len()
        invariant
            a@.len() == b@.len(),
            i <= a@.len(),
            forall|k: int| 0 <= k < i ==> a@[k] == b@[k],
        decreases a.len() - i,
    {
        if a[i] != b[i] {
            return false;
        }
        i = i + 1;
    }
    assert(a@ == b@);
    true
}

pub fn str_eq(a: &str, b: &str) -> (r: bool)
    ensures
        r == (a@ == b@),
{
    let va = chars_of(a);
    let vb = chars_of(b);
    seq_equal(&va, &vb)
}

proof fn lemma_seq_lt_prefix(a: Seq<char>, b: Seq<char>, i: int)
    requires
        0 <= i <= a.len(),
        i <= b.len(),
        a.take(i) == b.take(i),
    ensures
        seq_lt(a, b) == seq_lt(a.skip(i), b.skip(i)),
    decreases i,
{
    if i > 0 {
        assert(a[0] == a.take(i)[0]);
        assert(b[0] == b.take(i)[0]);
        assert(a.drop_first().take(i - 1) == a.take(i).drop_first());
        assert(b.drop_first().take(i - 1) == b.take(i).drop_first());
        lemma_seq_lt_prefix(a.drop_first(), b.drop_first(), i - 1);
        assert(a.drop_first().skip(i - 1) == a.skip(i));
        assert(b.drop_first().skip(i - 1) == b.skip(i));
    } else {
        assert(a.skip(0) == a);
        assert(b.skip(0) == b);
    }
}

pub fn chars_lt(a: &[char], b: &[char]) -> (r: bool)
    ensures
        r == seq_lt(a@, b@),
{
    let mut i: usize = 0;
    while i < a.len() && i < b.len() && a[i] == b[i]
        invariant
            i <= a@.len(),
            i <= b@.len(),
            a@.take(i as int) == b@.take(i as int),
        decreases a.len() - i,
    {
        assert(a@.take(i + 1) == a@.take(i as int).push(a@[i as int]));
        assert(b@.take(i + 1) == b@.take(i as int).push(b@[i as int]));
        i = i + 1;
    }
    proof {
        lemma_seq_lt_prefix(a@, b@, i as int);
    }
    if i == a.len() {
        i < b.len()
    } else if i == b.len() {
        false
    } else {
        assert(a@.skip(i as int)[0] == a@[i as int]);
        assert(b@.skip(i as int)[0] == b@[i as int]);
        a[i] < b[i]
    }
}

pub fn str_lt(a: &str, b: &str) -> (r: bool)
    ensures
        r == seq_lt(a@, b@),
{
    let va = chars_of(a);
    let vb = chars_of(b);
    chars_lt(&va, &vb)
}

/// The character sequences held by a list of character vectors.
pub open spec fn views(s: Seq<Vec<char>>) -> Seq<Seq<char>> {
    s.map_values(|x: Vec<char>| x@)
}

pub proof fn lemma_views_push(s: Seq<Vec<char>>, x: Vec<char>)
    ensures
        views(s.push(x)) == views(s).push(x@),
{
    assert(views(s.push(x)) =~= views(s).push(x@));
}

/// `str::split` with a `char` pattern.
pub fn split_chars(v: &[char], sep: char) -> (r: Vec<Vec<char>>)
    ensures
        views(r@) == split(v@, sep),
{
    let mut done: Vec<Vec<char>> = Vec::new();
    let mut cur: Vec<char> = Vec::new();
    let mut i: usize = 0;
    assert(views(done@) =~= Seq::<Seq<char>>::empty());
    assert(v@.take(0) =~= Seq::<char>::empty());
    while i < v.len()
        invariant
            i <= v@.len(),
            views(done@).push(cur@) == split(v@.take(i as int), sep),
        decreases v.len() - i,
    {
        let ghost before = views(done@).push(cur@);
        assert(v@.take(i + 1).drop_last() == v@.take(i as int));
        if v[i] == sep {
            proof { lemma_views_push(done@, cur); }
            done.push(cur);
            cur = Vec::new();
            assert(views(done@).push(cur@) =~= before.push(Seq::<char>::empty()));
        } else {
            let ghost old_cur = cur@;
            cur.push(v[i]);
            assert(views(done@).push(cur@) =~= before.update(before.len() - 1, before.last().push(v@[i as int])));
        }
        i = i + 1;
    }
    assert(v@.take(v@.len() as int) == v@);
    proof { lemma_views_push(done@, cur); }
    done.push(cur);
    done
}

fn strip_cr_chars(line: Vec<char>) -> (r: Vec<char>)
    ensures
        r@ == strip_cr(line@),
{
    let mut line = line;
    if line.len() > 0 && line[line.len() - 1] == '\r' {
        line.pop();
    }
    line
}

/// `str::lines`.
pub fn lines_chars(v: &[char]) -> (r: Vec<Vec<char>>)
    ensures
        views(r@) == lines(v@),
{
    let parts = split_chars(v, '\n');
    let ghost p = views(parts@);
    proof { lemma_split_nonempty(v@, '\n'); }
    let n = parts.len();
    assert(p[n - 1] == parts@[n - 1]@);
    let keep = if parts[n - 1].len() == 0 { n - 1 } else { n };
    let mut r: Vec<Vec<char>> = Vec::new();
    let mut i: usize = 0;
    assert(views(r@) =~= lines(v@).take(0));
    while i < keep
        invariant
            i <= keep <= n,
            n == p.len(),
            p == views(parts@),
            p == split(v@, '\n'),
            keep == (if p.last().len() == 0 { n - 1 } else { n as int }),
            views(r@) == lines(v@).take(i as int),
        decreases keep - i,
    {
        let piece = parts[i].clone();
        assert(piece@ == p[i as int]);
        let line = if i + 1 < n { strip_cr_chars(piece) } else { piece };
        proof { lemma_views_push(r@, line); }
        r.push(line);
        assert(views(r@) =~= lines(v@).take(i + 1));
        i = i + 1;
    }
    assert(lines(v@).take(keep as int) =~= lines(v@));
    r
}

pub proof fn lemma_split_nonempty(s: Seq<char>, sep: char)
    ensures
        split(s, sep).len() > 0,
    decreases s.len(),
{
    if s.len() > 0 {
        lemma_split_nonempty(s.drop_last(), sep);
    }
}

/// `str::split_whitespace`.
pub fn words_chars(v: &[char]) -> (r: Vec<Vec<char>>)
    ensures
        views(r@) == words(v@),
{
    let mut done: Vec<Vec<char>> = Vec::new();
    let mut cur: Vec<char> = Vec::new();
    let mut i: usize = 0;
    assert(views(done@) =~= Seq::<Seq<char>>::empty());
    assert(v@.take(0) =~= Seq::<char>::empty());
    while i < v.len()
        invariant
            i <= v@.len(),
            cur@.len() == 0 ==> views(done@) == words(v@.take(i as int)),
            cur@.len() > 0 ==> views(done@).push(cur@) == words(v@.take(i as int)),
            cur@.len() > 0 ==> i > 0 && !is_ws(v@[i - 1]),
            cur@.len() == 0 ==> (i == 0 || is_ws(v@[i - 1])),
        decreases v.len() - i,
    {
        let ghost t = v@.take(i + 1);
        assert(t.drop_last() == v@.take(i as int));
        assert(t.last() == v@[i as int]);
        if i > 0 {
            assert(t.drop_last().last() == v@[i - 1]);
        }
        if is_whitespace(v[i]) {
            if cur.len() > 0 {
                proof { lemma_views_push(done@, cur); }
                done.push(cur);
                cur = Vec::new();
            }
        } else {
            let ghost w = words(v@.take(i as int));
            if cur.len() == 0 {
                assert(words(t) == w.push(seq![v@[i as int]]));
            } else {
                assert(words(t) == w.update(w.len() - 1, w.last().push(v@[i as int])));
                assert(views(done@).push(cur@.push(v@[i as int])) =~= w.update(w.len() - 1, w.last().push(v@[i as int])));
            }
            cur.push(v[i]);
            assert(cur@.len() == 1 ==> cur@ =~= seq![v@[i as int]]);
        }
        i = i + 1;
    }
    assert(v@.take(v@.len() as int) == v@);
    if cur.len() > 0 {
        proof { lemma_views_push(done@, cur); }
        done.push(cur);
    }
    done
}

pub proof fn lemma_trim_start_skip(s: Seq<char>, i: int)
    requires
        0 <= i <= s.len(),
        forall|k: int| 0 <= k < i ==> is_ws(s[k]),
    ensures
        trim_start(s) == trim_start(s.skip(i)),
    decreases i,
{
    if i > 0 {
        assert(s.drop_first().skip(i - 1) == s.skip(i));
        lemma_trim_start_skip(s.drop_first(), i - 1);
    } else {
        assert(s.skip(0) == s);
    }
}

pub proof fn lemma_trim_end_take(s: Seq<char>, j: int)
    requires
        0 <= j <= s.len(),
        forall|k: int| j <= k < s.len() ==> is_ws(s[k]),
    ensures
        trim_end(s) == trim_end(s.take(j)),
    decreases s.len() - j,
{
    if j < s.len() {
        assert(s.drop_last().take(j) == s.take(j));
        lemma_trim_end_take(s.drop_last(), j);
    } else {
        assert(s.take(j) == s);
    }
}

/// `str::trim`.
pub fn trim_chars(v: &[char]) -> (r: Vec<char>)
    ensures
        r@ == trim(v@),
{
    let mut lo: usize = 0;
    while lo < v.len() && is_whitespace(v[lo])
        invariant
            lo <= v@.len(),
            forall|k: int| 0 <= k < lo ==> is_ws(v@[k]),
        decreases v.len() - lo,
    {
        lo = lo + 1;
    }
    proof { lemma_trim_start_skip(v@, lo as int); }
    let ghost rest = v@.skip(lo as int);
    assert(lo < v@.len() ==> rest.len() > 0 && rest[0] == v@[lo as int]);
    assert(trim_start(v@) == rest);
    let mut hi: usize = v.len();
    while hi > lo && is_whitespace(v[hi - 1])
        invariant
            lo <= hi <= v@.len(),
            forall|k: int| hi <= k < v@.len() ==> is_ws(v@[k]),
        decreases hi,
    {
        hi = hi - 1;
    }
    proof {
        let j = hi - lo;
        assert forall|k: int| j <= k < rest.len() implies is_ws(rest[k]) by {
            assert(rest[k] == v@[k + lo]);
        }
        lemma_trim_end_take(rest, j);
        assert(rest.take(j) == v@.subrange(lo as int, hi as int));
        let t = rest.take(j);
        assert(j > 0 ==> t.last() == v@[hi - 1]);
    }
    let mut r: Vec<char> = Vec::new();
    let mut i = lo;
    while i < hi
        invariant
            lo <= i <= hi <= v@.len(),
            r@ == v@.subrange(lo as int, i as int),
        decreases hi - i,
    {
        r.push(v[i]);
        assert(v@.subrange(lo as int, i + 1) == v@.subrange(lo as int, i as int).push(v@[i as int]));
        i = i + 1;
    }
    r
}

pub fn lower_chars(v: &[char]) -> (r: Vec<char>)
    ensures
        r@ == lower(v@),
{
    let mut r: Vec<char> = Vec::new();
    let mut i: usize = 0;
    while i < v.len()
        invariant
            i <= v@.len(),
            r@ == lower(v@.take(i as int)),
        decreases v.len() - i,
    {
        let c = v[i];
        let l = if 'A' <= c && c <= 'Z' { ((c as u32) + 32) as u8 as char } else { c };
        assert(l == lower_char(c)) by {
            if 'A' <= c && c <= 'Z' {
                assert((c as u32) + 32 < 128);
            }
        }
        r.push(l);
        assert(lower(v@.take(i + 1)) =~= lower(v@.take(i as int)).push(lower_char(c)));
        i = i + 1;
    }
    assert(v@.take(v@.len() as int) == v@);
    r
}

/// `needle` occurs in `v` at `i`.
pub fn occurs_at_exec(v: &[char], needle: &[char], i: usize) -> (r: bool)
    ensures
        r == occurs_at(v@, needle@, i as int),
{
    if i > v.len() || needle.len() > v.len() - i {
        return false;
    }
    let mut k: usize = 0;
    while k < needle.len()
        invariant
            i + needle@.len() <= v@.len(),
            i <= v@.len(),
            k <= needle@.len(),
            forall|m: int| 0 <= m < k ==> v@[i + m] == needle@[m],
        decreases needle.len() - k,
    {
        assert(i + k < v.len());
        if v[i + k] != needle[k] {
            assert(v@.subrange(i as int, i + needle@.len())[k as int] != needle@[k as int]);
            return false;
        }
        k = k + 1;
    }
    assert(v@.subrange(i as int, i + needle@.len()) =~= needle@);
    true
}

pub fn has_prefix(v: &[char], p: &[char]) -> (r: bool)
    ensures
        r == starts_with(v@, p@),
{
    let r = occurs_at_exec(v, p, 0);
    assert(v@.subrange(0, p@.len() as int) == v@.take(p@.len() as int));
    r
}

pub fn has_suffix(v: &[char], p: &[char]) -> (r: bool)
    ensures
        r == ends_with(v@, p@),
{
    if p.len() > v.len() {
        return false;
    }
    let r = occurs_at_exec(v, p, v.len() - p.len());
    assert(v@.subrange(v@.len() - p@.len(), v@.len() as int) == v@.skip(v@.len() - p@.len()));
    r
}

pub fn contains_chars(v: &[char], needle: &[char]) -> (r: bool)
    ensures
        r == contains(v@, needle@),
{
    if needle.len() > v.len() {
        assert(forall|i: int| !occurs_at(v@, needle@, i));
        return false;
    }
    if needle.len() == 0 {
        assert(v@.subrange(0, 0) =~= needle@);
        assert(occurs_at(v@, needle@, 0));
        return true;
    }
    let mut i: usize = 0;
    while i <= v.len() - needle.len()
        invariant
            needle@.len() <= v@.len(),
            needle@.len() > 0,
            i <= v@.len() - needle@.len() + 1,
            forall|k: int| 0 <= k < i ==> !occurs_at(v@, needle@, k),
        decreases v.len() - needle.len() + 1 - i,
    {
        if occurs_at_exec(v, needle, i) {
            return true;
        }
        i = i + 1;
    }
    assert(forall|k: int| !occurs_at(v@, needle@, k));
    false
}

/// Whether `c` occurs in `v`.
pub fn has_char(v: &[char], c: char) -> (r: bool)
    ensures
        r == v@.contains(c),
{
    let mut i: usize = 0;
    while i < v.len()
        invariant
            i <= v@.len(),
            forall|k: int| 0 <= k < i ==> v@[k] != c,
        decreases v.len() - i,
    {
        if v[i] == c {
            return true;
        }
        i = i + 1;
    }
    false
}

/// The pieces of `s` one after the other.
pub open spec fn concat(s: Seq<Seq<char>>) -> Seq<char>
    decreases s.len(),
{
    if s.len() == 0 {
        Seq::empty()
    } else {
        concat(s.drop_last()) + s.last()
    }
}

pub proof fn lemma_concat_push(s: Seq<Seq<char>>, x: Seq<char>)
    ensures
        concat(s.push(x)) == concat(s) + x,
{
    assert(s.push(x).drop_last() == s);
}

pub proof fn lemma_concat_add(a: Seq<Seq<char>>, b: Seq<Seq<char>>)
    ensures
        concat(a + b) == concat(a) + concat(b),
    decreases b.len(),
{
    if b.len() == 0 {
        assert(a + b == a);
        assert(concat(b) =~= Seq::<char>::empty());
        assert(concat(a) + concat(b) =~= concat(a));
    } else {
        assert((a + b).drop_last() == a + b.drop_last());
        lemma_concat_add(a, b.drop_last());
        assert(concat(a) + concat(b) =~= concat(a) + concat(b.drop_last()) + b.last());
    }
}

/// A piece of a concatenation occurs in it.
pub proof fn lemma_concat_contains(xs: Seq<Seq<char>>, i: int)
    requires
        0 <= i < xs.len(),
    ensures
        contains(concat(xs), xs[i]),
{
    let pre = xs.take(i);
    let post = xs.skip(i + 1);
    assert(xs =~= pre + seq![xs[i]] + post);
    lemma_concat_add(pre + seq![xs[i]], post);
    lemma_concat_push(pre, xs[i]);
    assert(pre + seq![xs[i]] == pre.push(xs[i]));
    let whole = concat(pre) + xs[i] + concat(post);
    assert(concat(xs) == whole);
    assert(whole.subrange(concat(pre).len() as int, (concat(pre).len() + xs[i].len()) as int) =~= xs[i]);
    assert(occurs_at(concat(xs), xs[i], concat(pre).len() as int));
}

/// What occurs within an occurrence occurs too.
pub proof fn lemma_contains_part(s: Seq<char>, pre: Seq<char>, x: Seq<char>, post: Seq<char>)
    requires
        contains(s, pre + x + post),
    ensures
        contains(s, x),
{
    let n = pre + x + post;
    let i = choose|i: int| occurs_at(s, n, i);
    assert(s.subrange(i, i + n.len()) == n);
    assert forall|m: int| 0 <= m < x.len() implies #[trigger] s.subrange(i + pre.len(), i + pre.len() + x.len())[m] == x[m] by {
        assert(s.subrange(i, i + n.len())[pre.len() + m] == n[pre.len() + m]);
        assert(n[pre.len() + m] == x[m]);
    }
    assert(s.subrange(i + pre.len(), i + pre.len() + x.len()) =~= x);
    assert(occurs_at(s, x, i + pre.len()));
}

/// What occurs in `s` occurs in `pre + s + post`.
pub proof fn lemma_contains_within(pre: Seq<char>, s: Seq<char>, post: Seq<char>, needle: Seq<char>)
    requires
        contains(s, needle),
    ensures
        contains(pre + s + post, needle),
{
    let i = choose|i: int| occurs_at(s, needle, i);
    let w = pre + s + post;
    assert(w.subrange(pre.len() + i, pre.len() + i + needle.len()) =~= s.subrange(i, i + needle.len()));
    assert(occurs_at(w, needle, pre.len() + i));
}

/// The decimal digit of `d`.
pub open spec fn digit(d: nat) -> char {
    if d == 0 { '0' }
    else if d == 1 { '1' }
    else if d == 2 { '2' }
    else if d == 3 { '3' }
    else if d == 4 { '4' }
    else if d == 5 { '5' }
    else if d == 6 { '6' }
    else if d == 7 { '7' }
    else if d == 8 { '8' }
    else { '9' }
}

/// `n` written in base `base` (10 or 8), as `{}` and `{:o}` print it.
pub open spec fn in_base(n: nat, base: nat) -> Seq<char>
    decreases n,
{
    if base < 2 || n < base {
        seq![digit(n)]
    } else {
        proof {
            assert(n / base < n) by (nonlinear_arith)
                requires
                    base >= 2,
                    n >= base,
            ;
        }
        in_base(n / base, base).push(digit(n % base))
    }
}

pub open spec fn decimal(n: nat) -> Seq<char> {
    in_base(n, 10)
}

pub open spec fn octal(n: nat) -> Seq<char> {
    in_base(n, 8)
}

fn digit_char(d: u64) -> (c: char)
    requires
        d < 10,
    ensures
        c == digit(d as nat),
{
    if d == 0 { '0' }
    else if d == 1 { '1' }
    else if d == 2 { '2' }
    else if d == 3 { '3' }
    else if d == 4 { '4' }
    else if d == 5 { '5' }
    else if d == 6 { '6' }
    else if d == 7 { '7' }
    else if d == 8 { '8' }
    else { '9' }
}

fn base_digits(n: u64, base: u64) -> (r: Vec<char>)
    requires
        base == 8 || base == 10,
    ensures
        r@ == in_base(n as nat, base as nat),
    decreases n,
{
    if n < base {
        let mut r = Vec::new();
        r.push(digit_char(n));
        assert(r@ =~= seq![digit(n as nat)]);
        r
    } else {
        let mut r = base_digits(n / base, base);
        r.push(digit_char(n % base));
        r
    }
}

/// Appends `n` in decimal.
pub fn push_decimal(out: &mut String, n: u64)
    ensures
        final(out)@ == old(out)@ + decimal(n as nat),
{
    let d = base_digits(n, 10);
    let s = string_of(&d, 0, d.len());
    assert(d@.subrange(0, d@.len() as int) == d@);
    push_str(out, s.as_str());
}

/// Appends `n` in octal.
pub fn push_octal(out: &mut String, n: u64)
    ensures
        final(out)@ == old(out)@ + octal(n as nat),
{
    let d = base_digits(n, 8);
    let s = string_of(&d, 0, d.len());
    assert(d@.subrange(0, d@.len() as int) == d@);
    push_str(out, s.as_str());
}

/// `s` padded with spaces to at least `width` characters, as `{:<width}`.
pub open spec fn pad(s: Seq<char>, width: nat) -> Seq<char> {
    if s.len() >= width {
        s
    } else {
        s + Seq::new((width - s.len()) as nat, |i: int| ' ')
    }
}

pub fn push_padded(out: &mut String, s: &str, width: usize)
    ensures
        final(out)@ == old(out)@ + pad(s@, width as nat),
{
    let v = chars_of(s);
    push_str(out, s);
    let mut n = v.len();
    let ghost base = old(out)@ + s@;
    assert(out@ =~= base + Seq::new((n - s@.len()) as nat, |i: int| ' '));
    while n < width
        invariant
            v@ == s@,
            s@.len() <= n <= width || (n == s@.len() && n >= width),
            out@ == base + Seq::new((n - s@.len()) as nat, |i: int| ' '),
        decreases width - n,
    {
        push_char(out, ' ');
        assert(Seq::new((n - s@.len()) as nat, |i: int| ' ').push(' ') =~= Seq::new((n + 1 - s@.len()) as nat, |i: int| ' '));
        n = n + 1;
    }
    assert(s@.len() >= width ==> Seq::new((n - s@.len()) as nat, |i: int| ' ') =~= Seq::<char>::empty());
    assert(pad(s@, width as nat) =~= s@ + Seq::new((n - s@.len()) as nat, |i: int| ' '));
}

/// One more element of a list, filtered and mapped.
pub proof fn lemma_filter_map_step<A, B>(s: Seq<A>, f: spec_fn(A) -> Option<B>, i: int)
    requires
        0 <= i < s.len(),
    ensures
        s.take(i + 1).filter_map(f) == (match f(s[i]) {
            Some(x) => s.take(i).filter_map(f) + seq![x],
            None => s.take(i).filter_map(f),
        }),
{
    let t = s.take(i + 1);
    assert(t.drop_last() == s.take(i));
    assert(t.last() == s[i]);
}

/// What a `filter_map` keeps is what some element maps to.
pub proof fn lemma_filter_map_contains<A, B>(s: Seq<A>, f: spec_fn(A) -> Option<B>, b: B)
    ensures
        s.filter_map(f).contains(b) <==> exists|i: int| 0 <= i < s.len() && #[trigger] f(s[i]) == Some(b),
    decreases s.len(),
{
    if s.len() > 0 {
        let r = s.drop_last();
        lemma_filter_map_contains(r, f, b);
        let fr = r.filter_map(f);
        let fs = s.filter_map(f);
        if exists|i: int| 0 <= i < s.len() && #[trigger] f(s[i]) == Some(b) {
            let i = choose|i: int| 0 <= i < s.len() && #[trigger] f(s[i]) == Some(b);
            if i < s.len() - 1 {
                assert(r[i] == s[i]);
                assert(f(r[i]) == Some(b));
                let k = choose|k: int| 0 <= k < fr.len() && fr[k] == b;
                match f(s.last()) {
                    Some(x) => {
                        assert(fs == fr + seq![x]);
                        assert(fs[k] == b);
                    },
                    None => {},
                }
            } else {
                assert(fs == fr + seq![b]);
                assert(fs[fr.len() as int] == b);
            }
        }
        if fs.contains(b) {
            let k = choose|k: int| 0 <= k < fs.len() && fs[k] == b;
            match f(s.last()) {
                Some(x) => {
                    assert(fs == fr + seq![x]);
                    if k < fr.len() {
                        assert(fr[k] == b);
                        assert(fr.contains(b));
                        let i = choose|i: int| 0 <= i < r.len() && #[trigger] f(r[i]) == Some(b);
                        assert(r[i] == s[i]);
                        assert(f(s[i]) == Some(b));
                    } else {
                        assert(f(s[s.len() - 1]) == Some(b));
                    }
                },
                None => {
                    assert(fr.contains(b));
                    let i = choose|i: int| 0 <= i < r.len() && #[trigger] f(r[i]) == Some(b);
                    assert(r[i] == s[i]);
                    assert(f(s[i]) == Some(b));
                },
            }
        }
    }
}

/// `label` before each item, one per line.
pub open spec fn labeled_lines(label: Seq<char>, items: Seq<Seq<char>>) -> Seq<char> {
    concat(items.map_values(|x: Seq<char>| label + x + seq!['\n']))
}

pub proof fn lemma_map_values_step<A, B>(s: Seq<A>, f: spec_fn(A) -> B, i: int)
    requires
        0 <= i < s.len(),
    ensures
        s.take(i + 1).map_values(f) == s.take(i).map_values(f).push(f(s[i])),
{
    assert(s.take(i + 1).map_values(f) =~= s.take(i).map_values(f).push(f(s[i])));
}

pub open spec fn is_digit(c: char) -> bool {
    '0' <= c && c <= '9'
}

/// The value of a string of decimal digits.
pub open spec fn digits_value(s: Seq<char>) -> nat
    decreases s.len(),
{
    if s.len() == 0 {
        0
    } else {
        digits_value(s.drop_last()) * 10 + ((s.last() as u32) - ('0' as u32)) as nat
    }
}

/// `u32::from_str`: an optional `+`, then one or more decimal digits, for a
/// value that fits.
pub open spec fn unsigned_digits(s: Seq<char>) -> Seq<char> {
    if s.len() > 0 && s[0] == '+' { s.drop_first() } else { s }
}

pub open spec fn all_digits(d: Seq<char>) -> bool {
    forall|i: int| 0 <= i < d.len() ==> is_digit(#[trigger] d[i])
}

pub open spec fn parse_u32(s: Seq<char>) -> Option<u32> {
    let d = unsigned_digits(s);
    if d.len() > 0 && all_digits(d) && digits_value(d) <= u32::MAX {
        Some(digits_value(d) as u32)
    } else {
        None
    }
}

proof fn lemma_digits_value_monotone(s: Seq<char>, i: int)
    requires
        0 <= i <= s.len(),
        forall|k: int| 0 <= k < s.len() ==> is_digit(#[trigger] s[k]),
    ensures
        digits_value(s.take(i)) <= digits_value(s),
    decreases s.len() - i,
{
    if i < s.len() {
        assert(s.drop_last().take(i) == s.take(i));
        lemma_digits_value_monotone(s.drop_last(), i);
    } else {
        assert(s.take(i) == s);
    }
}

proof fn lemma_parse_u32_none(s: Seq<char>, k: int)
    requires
        ({
            let d = unsigned_digits(s);
            ||| (0 <= k < d.len() && !is_digit(d[k]))
            ||| (0 <= k <= d.len() && all_digits(d) && digits_value(d.take(k)) > u32::MAX)
        }),
    ensures
        parse_u32(s).is_none(),
{
    let d = unsigned_digits(s);
    if 0 <= k < d.len() && !is_digit(d[k]) {
    } else {
        lemma_digits_value_monotone(d, k);
    }
}

pub fn parse_u32_chars(v: &[char]) -> (r: Option<u32>)
    ensures
        r == parse_u32(v@),
{
    let start: usize = if v.len() > 0 && v[0] == '+' { 1 } else { 0 };
    let ghost d = unsigned_digits(v@);
    assert(d == v@.skip(start as int));
    if start >= v.len() {
        return None;
    }
    let mut value: u64 = 0;
    let mut i = start;
    while i < v.len()
        invariant
            start <= i <= v@.len(),
            d == v@.skip(start as int),
            d == unsigned_digits(v@),
            forall|k: int| 0 <= k < i - start ==> is_digit(#[trigger] d[k]),
            value == digits_value(d.take(i - start)),
            value <= u32::MAX,
        decreases v.len() - i,
    {
        let c = v[i];
        assert(d[i - start] == c);
        if !('0' <= c && c <= '9') {
            assert(!is_digit(d[i - start]));
            proof { lemma_parse_u32_none(v@, i - start); }
            return None;
        }
        let next = value * 10 + ((c as u32) - ('0' as u32)) as u64;
        assert(d.take(i - start + 1).drop_last() == d.take(i - start));
        assert(d.take(i - start + 1).last() == c);
        assert(digits_value(d.take(i - start + 1)) == next);
        if next > 0xffff_ffff {
            proof {
                if all_digits(d) {
                    lemma_parse_u32_none(v@, i - start + 1);
                }
            }
            return None;
        }
        value = next;
        i = i + 1;
    }
    assert(d.take(d.len() as int) == d);
    Some(value as u32)
}

/// `s` without the leading characters that are in `set`, as
/// `str::trim_start_matches` with an array of characters.
pub open spec fn strip_leading(s: Seq<char>, set: Seq<char>) -> Seq<char>
    decreases s.len(),
{
    if s.len() > 0 && set.contains(s[0]) {
        strip_leading(s.drop_first(), set)
    } else {
        s
    }
}

proof fn lemma_strip_leading_skip(s: Seq<char>, set: Seq<char>, i: int)
    requires
        0 <= i <= s.len(),
        forall|k: int| 0 <= k < i ==> set.contains(#[trigger] s[k]),
    ensures
        strip_leading(s, set) == strip_leading(s.skip(i), set),
    decreases i,
{
    if i > 0 {
        assert(s.drop_first().skip(i - 1) == s.skip(i));
        lemma_strip_leading_skip(s.drop_first(), set, i - 1);
    } else {
        assert(s.skip(0) == s);
    }
}

pub fn strip_leading_chars(v: &[char], set: &[char]) -> (r: Vec<char>)
    ensures
        r@ == strip_leading(v@, set@),
{
    let mut lo: usize = 0;
    while lo < v.len() && has_char(set, v[lo])
        invariant
            lo <= v@.len(),
            forall|k: int| 0 <= k < lo ==> set@.contains(#[trigger] v@[k]),
        decreases v.len() - lo,
    {
        lo = lo + 1;
    }
    proof { lemma_strip_leading_skip(v@, set@, lo as int); }
    assert(lo < v@.len() ==> v@.skip(lo as int)[0] == v@[lo as int]);
    let mut r: Vec<char> = Vec::new();
    let mut i = lo;
    while i < v.len()
        invariant
            lo <= i <= v@.len(),
            r@ == v@.subrange(lo as int, i as int),
        decreases v.len() - i,
    {
        r.push(v[i]);
        assert(v@.subrange(lo as int, i + 1) == v@.subrange(lo as int, i as int).push(v@[i as int]));
        i = i + 1;
    }
    assert(v@.subrange(lo as int, v@.len() as int) == v@.skip(lo as int));
    r
}

/// `s` without the trailing characters that are in `set`, as
/// `str::trim_end_matches` with an array of characters.
pub open spec fn strip_trailing(s: Seq<char>, set: Seq<char>) -> Seq<char>
    decreases s.len(),
{
    if s.len() > 0 && set.contains(s.last()) {
        strip_trailing(s.drop_last(), set)
    } else {
        s
    }
}

/// `str::trim_matches` with an array of characters: both ends stripped.
pub open spec fn strip_both(s: Seq<char>, set: Seq<char>) -> Seq<char> {
    strip_trailing(strip_leading(s, set), set)
}

proof fn lemma_strip_trailing_take(s: Seq<char>, set: Seq<char>, j: int)
    requires
        0 <= j <= s.len(),
        forall|k: int| j <= k < s.len() ==> set.contains(#[trigger] s[k]),
    ensures
        strip_trailing(s, set) == strip_trailing(s.take(j), set),
    decreases s.len() - j,
{
    if j < s.len() {
        assert(s.drop_last().take(j) == s.take(j));
        lemma_strip_trailing_take(s.drop_last(), set, j);
    } else {
        assert(s.take(j) == s);
    }
}

/// `str::trim_matches` with an array of characters.
pub fn strip_both_chars(v: &[char], set: &[char]) -> (r: Vec<char>)
    ensures
        r@ == strip_both(v@, set@),
{
    let w = strip_leading_chars(v, set);
    let mut hi: usize = w.len();
    while hi > 0 && has_char(set, w[hi - 1])
        invariant
            hi <= w@.len(),
            forall|k: int| hi <= k < w@.len() ==> set@.contains(#[trigger] w@[k]),
        decreases hi,
    {
        hi = hi - 1;
    }
    proof { lemma_strip_trailing_take(w@, set@, hi as int); }
    assert(hi > 0 ==> w@.take(hi as int).last() == w@[hi - 1]);
    let mut r: Vec<char> = Vec::new();
    let mut i: usize = 0;
    while i < hi
        invariant
            i <= hi <= w@.len(),
            r@ == w@.take(i as int),
        decreases hi - i,
    {
        r.push(w[i]);
        assert(w@.take(i + 1) == w@.take(i as int).push(w@[i as int]));
        i = i + 1;
    }
    r
}

/// The number of bytes UTF-8 takes for `c`.
pub open spec fn char_width(c: char) -> nat {
    if (c as u32) < 0x80 {
        1
    } else if (c as u32) < 0x800 {
        2
    } else if (c as u32) < 0x10000 {
        3
    } else {
        4
    }
}

/// The length of `s` in UTF-8, which is what `str::len` counts.
pub open spec fn utf8_len(s: Seq<char>) -> nat
    decreases s.len(),
{
    if s.len() == 0 {
        0
    } else {
        utf8_len(s.drop_last()) + char_width(s.last())
    }
}

/// `str::len`: the length in bytes.
pub fn utf8_len_exec(v: &[char]) -> (r: u128)
    ensures
        r == utf8_len(v@),
{
    let mut total: u128 = 0;
    let mut i: usize = 0;
    while i < v.len()
        invariant
            i <= v@.len(),
            total == utf8_len(v@.take(i as int)),
            total <= 4 * i,
        decreases v.len() - i,
    {
        assert(v@.take(i + 1).drop_last() == v@.take(i as int));
        let c = v[i] as u32;
        let w: u128 = if c < 0x80 {
            1
        } else if c < 0x800 {
            2
        } else if c < 0x10000 {
            3
        } else {
            4
        };
        total = total + w;
        i = i + 1;
    }
    assert(v@.take(v@.len() as int) == v@);
    total
}

} // verus!
