//! Renders a recorded session as an Ansible playbook.
//!
//! Task names stay English: ansible-lint expects them to start with a capital
//! letter, and the playbook is read by a machine as much as by a person. The
//! comments follow the locale, because they are what a person reads before running it.
//!
//! Only what the probes observed becomes a task. A command that changed
//! something the probes cannot express is replayed verbatim behind a TODO,
//! rather than being guessed at or dropped.

use vstd::prelude::*;

use crate::diff::{change_path, changes, Change, ChangeV};
use crate::order::strs;
use crate::packages::{pkgs, PackageV};
use crate::step::{mentions, mentions_path, names, names_item, Step, StepV};
use crate::text::{
    chars_of, concat, contains, contains_chars, has_char, has_suffix, is_digit,
    lemma_concat_push, lemma_map_values_step, lines, lines_chars, lower, lower_chars,
    push_char, push_str, seq_equal, string_of, trim, trim_chars, utf8_len, utf8_len_exec,
    views, words, words_chars,
};

verus! {

/// Comment lines are wrapped at this many characters: ansible-lint rejects a
/// line over 160 characters, and a wall of text is not read anyway.
pub const COMMENT_WIDTH: usize = 96;

// ----------------------------------------------------------------------------
// Wrapping.

/// The lines the words of a paragraph fill, and the line still open: a word
/// goes on the open line unless that would make it longer than the width.
pub open spec fn fill(ws: Seq<Seq<char>>) -> (Seq<Seq<char>>, Seq<char>)
    decreases ws.len(),
{
    if ws.len() == 0 {
        (Seq::empty(), Seq::empty())
    } else {
        let prev = fill(ws.drop_last());
        let done = prev.0;
        let cur = prev.1;
        let w = ws.last();
        if cur.len() > 0 && cur.len() + 1 + w.len() > COMMENT_WIDTH {
            (done.push(cur), w)
        } else if cur.len() > 0 {
            (done, cur + seq![' '] + w)
        } else {
            (done, w)
        }
    }
}

pub open spec fn wrap_paragraph(p: Seq<char>) -> Seq<Seq<char>> {
    fill(words(p)).0.push(fill(words(p)).1)
}

pub open spec fn flatten(s: Seq<Seq<Seq<char>>>) -> Seq<Seq<char>>
    decreases s.len(),
{
    if s.len() == 0 {
        Seq::empty()
    } else {
        flatten(s.drop_last()) + s.last()
    }
}

/// Each line of `text` wrapped on its own, at word boundaries.
pub open spec fn wrapped(text: Seq<char>) -> Seq<Seq<char>> {
    flatten(lines(text).map_values(|p: Seq<char>| wrap_paragraph(p)))
}

/// Wraps each line of `text` at `COMMENT_WIDTH` characters. Characters are
/// counted, not bytes, so a Japanese line is neither cut mid-character nor
/// wrapped early.
pub fn wrap(text: &str) -> (r: Vec<String>)
    ensures
        strs(r@) == wrapped(text@),
{
    let v = chars_of(text);
    let paras = lines_chars(&v);
    let ghost ps = views(paras@);
    let ghost f = |p: Seq<char>| wrap_paragraph(p);
    let mut out: Vec<String> = Vec::new();
    let mut i: usize = 0;
    assert(flatten(ps.take(0).map_values(f)) =~= strs(out@));
    while i < paras.len()
        invariant
            i <= paras@.len(),
            ps == views(paras@),
            ps == lines(text@),
            f == (|p: Seq<char>| wrap_paragraph(p)),
            strs(out@) == flatten(ps.take(i as int).map_values(f)),
        decreases paras.len() - i,
    {
        proof { lemma_map_values_step(ps, f, i as int); }
        assert(ps[i as int] == paras@[i as int]@);
        let ws = words_chars(&paras[i]);
        let ghost wv = views(ws@);
        let ghost base = strs(out@);
        let mut cur: Vec<char> = Vec::new();
        let mut j: usize = 0;
        assert(wv.take(0) =~= Seq::<Seq<char>>::empty());
        assert(fill(wv.take(0)).0 =~= strs(out@).skip(base.len() as int));
        while j < ws.len()
            invariant
                j <= ws@.len(),
                wv == views(ws@),
                base.len() <= strs(out@).len(),
                strs(out@).take(base.len() as int) == base,
                strs(out@).skip(base.len() as int) == fill(wv.take(j as int)).0,
                cur@ == fill(wv.take(j as int)).1,
            decreases ws.len() - j,
        {
            let ghost t = wv.take(j + 1);
            assert(t.drop_last() == wv.take(j as int));
            assert(t.last() == ws@[j as int]@);
            let w = &ws[j];
            if cur.len() > 0 && (cur.len() as u128) + 1 + (w.len() as u128) > 96 {
                let line = string_of(&cur, 0, cur.len());
                assert(cur@.subrange(0, cur@.len() as int) == cur@);
                let ghost before = strs(out@);
                proof { crate::order::lemma_strs_push(out@, line); }
                out.push(line);
                assert(strs(out@).take(base.len() as int) =~= before.take(base.len() as int));
                assert(strs(out@).skip(base.len() as int) =~= before.skip(base.len() as int).push(cur@));
                cur = w.clone();
            } else if cur.len() > 0 {
                cur.push(' ');
                let mut k: usize = 0;
                let ghost c0 = cur@;
                while k < w.len()
                    invariant
                        k <= w@.len(),
                        cur@ == c0 + w@.take(k as int),
                    decreases w.len() - k,
                {
                    cur.push(w[k]);
                    assert(w@.take(k + 1) == w@.take(k as int).push(w@[k as int]));
                    k = k + 1;
                }
                assert(w@.take(w@.len() as int) == w@);
            } else {
                cur = w.clone();
            }
            j = j + 1;
        }
        assert(wv.take(wv.len() as int) == wv);
        assert(wv == words(ps[i as int]));
        let line = string_of(&cur, 0, cur.len());
        assert(cur@.subrange(0, cur@.len() as int) == cur@);
        let ghost before = strs(out@);
        proof { crate::order::lemma_strs_push(out@, line); }
        out.push(line);
        assert(strs(out@) =~= base + wrap_paragraph(ps[i as int])) by {
            assert(before =~= base + before.skip(base.len() as int));
        }
        assert(ps.take(i + 1).map_values(f).drop_last() == ps.take(i as int).map_values(f));
        i = i + 1;
    }
    assert(ps.take(ps.len() as int) == ps);
    out
}

// ----------------------------------------------------------------------------
// YAML scalars.

/// `s` without one leading sign.
pub open spec fn unsigned(s: Seq<char>) -> Seq<char> {
    if s.len() > 0 && (s[0] == '+' || s[0] == '-') {
        s.drop_first()
    } else {
        s
    }
}

/// Index of the first `e` or `E`, or the length when there is none.
pub open spec fn e_index(t: Seq<char>) -> int
    decreases t.len(),
{
    if t.len() == 0 || t[0] == 'e' || t[0] == 'E' {
        0
    } else {
        1 + e_index(t.drop_first())
    }
}

pub open spec fn dot_count(m: Seq<char>) -> nat
    decreases m.len(),
{
    if m.len() == 0 {
        0
    } else {
        dot_count(m.drop_last()) + if m.last() == '.' { 1nat } else { 0nat }
    }
}

/// `Digit+ | Digit+ '.' Digit* | Digit* '.' Digit+`.
pub open spec fn mantissa(m: Seq<char>) -> bool {
    &&& forall|i: int| 0 <= i < m.len() ==> is_digit(#[trigger] m[i]) || m[i] == '.'
    &&& dot_count(m) <= 1
    &&& exists|i: int| 0 <= i < m.len() && is_digit(#[trigger] m[i])
}

/// `Sign? Digit+`.
pub open spec fn exponent(x: Seq<char>) -> bool {
    let y = unsigned(x);
    y.len() > 0 && forall|i: int| 0 <= i < y.len() ==> is_digit(#[trigger] y[i])
}

/// Whether `str::parse::<f64>` accepts `s`. Its documentation gives the
/// grammar, case-insensitively: `Sign? ( 'inf' | 'infinity' | 'nan' |
/// Number )`, where `Number ::= ( Digit+ | Digit+ '.' Digit* | Digit* '.'
/// Digit+ ) Exp?` and `Exp ::= 'e' Sign? Digit+`.
pub open spec fn float_syntax(s: Seq<char>) -> bool {
    let t = unsigned(s);
    let k = e_index(t);
    ||| lower(t) == "inf"@
    ||| lower(t) == "infinity"@
    ||| lower(t) == "nan"@
    ||| mantissa(t.take(k)) && (k == t.len() || exponent(t.skip(k + 1)))
}

proof fn lemma_e_index(t: Seq<char>, k: int)
    requires
        0 <= k <= t.len(),
        forall|m: int| 0 <= m < k ==> #[trigger] t[m] != 'e' && t[m] != 'E',
        k == t.len() || t[k] == 'e' || t[k] == 'E',
    ensures
        e_index(t) == k,
    decreases k,
{
    if k > 0 {
        assert forall|m: int| 0 <= m < k - 1 implies #[trigger] t.drop_first()[m] != 'e'
            && t.drop_first()[m] != 'E' by {
            assert(t.drop_first()[m] == t[m + 1]);
        }
        if k < t.len() {
            assert(t.drop_first()[k - 1] == t[k]);
        }
        lemma_e_index(t.drop_first(), k - 1);
    }
}

fn unsigned_chars(v: &[char]) -> (r: Vec<char>)
    ensures
        r@ == unsigned(v@),
{
    let lo: usize = if v.len() > 0 && (v[0] == '+' || v[0] == '-') { 1 } else { 0 };
    let mut r: Vec<char> = Vec::new();
    let mut i = lo;
    while i < v.len()
        invariant
            lo <= i <= v@.len(),
            r@ == v@.subrange(lo as int, i as int),
        decreases v.len() - i,
    {
        r.push(v[i]);
        assert(v@.subrange(lo as int, i + 1) == v@.subrange(lo as int, i as int).push(v@[i as int]));
        i = i + 1;
    }
    assert(lo == 1 ==> v@.subrange(1, v@.len() as int) == v@.drop_first());
    assert(lo == 0 ==> v@.subrange(0, v@.len() as int) == v@);
    r
}

fn is_digit_exec(c: char) -> (r: bool)
    ensures
        r == is_digit(c),
{
    '0' <= c && c <= '9'
}

/// Whether the float grammar accepts `v`.
pub fn is_float(v: &[char]) -> (r: bool)
    ensures
        r == float_syntax(v@),
{
    let t = unsigned_chars(v);
    let lt = lower_chars(&t);
    if seq_equal(&lt, &chars_of("inf")) || seq_equal(&lt, &chars_of("infinity"))
        || seq_equal(&lt, &chars_of("nan")) {
        return true;
    }
    let mut k: usize = 0;
    while k < t.len() && t[k] != 'e' && t[k] != 'E'
        invariant
            k <= t@.len(),
            forall|m: int| 0 <= m < k ==> #[trigger] t@[m] != 'e' && t@[m] != 'E',
        decreases t.len() - k,
    {
        k = k + 1;
    }
    proof { lemma_e_index(t@, k as int); }
    let ghost m = t@.take(k as int);
    // The mantissa.
    let mut dots: usize = 0;
    let mut digit = false;
    let mut i: usize = 0;
    while i < k
        invariant
            i <= k <= t@.len(),
            m == t@.take(k as int),
            forall|q: int| 0 <= q < i ==> is_digit(#[trigger] m[q]) || m[q] == '.',
            t@ == unsigned(v@),
            lt@ == lower(t@),
            lt@ != "inf"@ && lt@ != "infinity"@ && lt@ != "nan"@,
            k == e_index(t@),
            dots == dot_count(m.take(i as int)),
            dots <= 1,
            digit == (exists|q: int| 0 <= q < i && is_digit(#[trigger] m[q])),
        decreases k - i,
    {
        assert(m[i as int] == t@[i as int]);
        assert(m.take(i + 1).drop_last() == m.take(i as int));
        assert(m.take(i + 1).last() == m[i as int]);
        if t[i] == '.' {
            if dots == 1 {
                proof { lemma_dot_count_prefix(m, i + 1); }
                return false;
            }
            dots = dots + 1;
        } else if is_digit_exec(t[i]) {
            digit = true;
        } else {
            assert(!is_digit(m[i as int]) && m[i as int] != '.');
            return false;
        }
        i = i + 1;
    }
    assert(m.take(k as int) == m);
    if !digit {
        return false;
    }
    if k == t.len() {
        return true;
    }
    // The exponent.
    let ghost x = t@.skip(k + 1);
    let mut rest: Vec<char> = Vec::new();
    let mut j = k + 1;
    while j < t.len()
        invariant
            k + 1 <= j <= t@.len(),
            rest@ == t@.subrange(k + 1, j as int),
        decreases t.len() - j,
    {
        rest.push(t[j]);
        assert(t@.subrange(k + 1, j + 1) == t@.subrange(k + 1, j as int).push(t@[j as int]));
        j = j + 1;
    }
    assert(rest@ == x);
    let y = unsigned_chars(&rest);
    if y.len() == 0 {
        return false;
    }
    let mut q: usize = 0;
    while q < y.len()
        invariant
            q <= y@.len(),
            y@ == unsigned(t@.skip(k + 1)),
            t@ == unsigned(v@),
            k == e_index(t@),
            k < t@.len(),
            lt@ == lower(t@),
            lt@ != "inf"@ && lt@ != "infinity"@ && lt@ != "nan"@,
            mantissa(t@.take(k as int)),
            forall|p: int| 0 <= p < q ==> is_digit(#[trigger] y@[p]),
        decreases y.len() - q,
    {
        if !is_digit_exec(y[q]) {
            assert(!is_digit(y@[q as int]));
            assert(!exponent(t@.skip(k + 1)));
            return false;
        }
        q = q + 1;
    }
    true
}

proof fn lemma_dot_count_prefix(m: Seq<char>, j: int)
    requires
        0 <= j <= m.len(),
    ensures
        dot_count(m.take(j)) <= dot_count(m),
    decreases m.len() - j,
{
    if j < m.len() {
        lemma_dot_count_prefix(m.drop_last(), j);
        assert(m.drop_last().take(j) == m.take(j));
    } else {
        assert(m.take(j) == m);
    }
}

/// Characters that mean something at the start of a plain YAML scalar.
pub open spec fn yaml_indicators() -> Seq<char> {
    seq!['!', '&', '*', '?', '|', '>', '%', '@', '`', '{', '[', ',', '#', '"', '\'', '-']
}

/// Words YAML reads as booleans or null, in lower case.
pub open spec fn yaml_words() -> Seq<Seq<char>> {
    seq!["true"@, "false"@, "yes"@, "no"@, "on"@, "off"@, "null"@, "~"@]
}

/// Whether YAML would misread `v` as a plain scalar.
pub open spec fn needs_quotes(v: Seq<char>) -> bool {
    ||| v.len() == 0
    ||| yaml_indicators().contains(v[0])
    ||| contains(v, ": "@)
    ||| (v.len() > 0 && v.last() == ':')
    ||| contains(v, " #"@)
    ||| v.contains('"')
    ||| v.contains('\\')
    ||| float_syntax(v)
    ||| yaml_words().contains(lower(v))
}

pub open spec fn escape_char(c: char) -> Seq<char> {
    if c == '\\' {
        seq!['\\', '\\']
    } else if c == '"' {
        seq!['\\', '"']
    } else {
        seq![c]
    }
}

/// `v` with each backslash and double quote escaped by a backslash.
pub open spec fn escaped(v: Seq<char>) -> Seq<char> {
    concat(v.map_values(|c: char| escape_char(c)))
}

pub open spec fn scalar_text(v: Seq<char>) -> Seq<char> {
    if needs_quotes(v) {
        seq!['"'] + escaped(v) + seq!['"']
    } else {
        v
    }
}

fn needs_quotes_exec(v: &Vec<char>) -> (r: bool)
    ensures
        r == needs_quotes(v@),
{
    if v.len() == 0 {
        return true;
    }
    let indicators = ['!', '&', '*', '?', '|', '>', '%', '@', '`', '{', '[', ',', '#', '"', '\'', '-'];
    assert(indicators@ =~= yaml_indicators());
    if has_char(&indicators, v[0]) {
        return true;
    }
    if contains_chars(v, &chars_of(": ")) || v[v.len() - 1] == ':' || contains_chars(v, &chars_of(" #"))
        || has_char(v, '"') || has_char(v, '\\') || is_float(v) {
        return true;
    }
    let lv = lower_chars(v);
    let words_list = ["true", "false", "yes", "no", "on", "off", "null", "~"];
    let ghost ws = words_list@.map_values(|p: &str| p@);
    assert(ws =~= yaml_words());
    let mut i: usize = 0;
    while i < words_list.len()
        invariant
            i <= words_list@.len(),
            ws == words_list@.map_values(|p: &str| p@),
            ws == yaml_words(),
            lv@ == lower(v@),
            forall|k: int| 0 <= k < i ==> #[trigger] ws[k] != lv@,
        decreases words_list.len() - i,
    {
        if seq_equal(&lv, &chars_of(words_list[i])) {
            assert(ws[i as int] == lv@);
            assert(yaml_words().contains(lower(v@)));
            return true;
        }
        i = i + 1;
    }
    false
}

/// Quotes a scalar when YAML would otherwise misread it.
pub fn scalar(value: &str) -> (r: String)
    ensures
        r@ == scalar_text(value@),
{
    let v = chars_of(value);
    if !needs_quotes_exec(&v) {
        return crate::text::owned(value);
    }
    let ghost f = |c: char| escape_char(c);
    let mut out = String::new();
    push_char(&mut out, '"');
    let mut i: usize = 0;
    assert(seq!['"'] + concat(v@.take(0).map_values(f)) =~= out@);
    while i < v.len()
        invariant
            i <= v@.len(),
            f == (|c: char| escape_char(c)),
            out@ == seq!['"'] + concat(v@.take(i as int).map_values(f)),
        decreases v.len() - i,
    {
        proof {
            lemma_map_values_step(v@, f, i as int);
            lemma_concat_push(v@.take(i as int).map_values(f), f(v@[i as int]));
        }
        let c = v[i];
        if c == '\\' {
            push_char(&mut out, '\\');
            push_char(&mut out, '\\');
        } else if c == '"' {
            push_char(&mut out, '\\');
            push_char(&mut out, '"');
        } else {
            push_char(&mut out, c);
        }
        assert(out@ =~= seq!['"'] + concat(v@.take(i + 1).map_values(f)));
        i = i + 1;
    }
    assert(v@.take(v@.len() as int) == v@);
    push_char(&mut out, '"');
    out
}

// ----------------------------------------------------------------------------
// Small pieces of a task.

/// `files/etc/nginx/nginx.conf` is where `/etc/nginx/nginx.conf` is kept:
/// the path without its leading slashes.
pub open spec fn files_path_of(path: Seq<char>) -> Seq<char> {
    crate::text::strip_leading(path, seq!['/'])
}

pub fn files_path(path: &str) -> (r: String)
    ensures
        r@ == files_path_of(path@),
{
    let v = chars_of(path);
    let slash = ['/'];
    assert(slash@ =~= seq!['/']);
    let w = crate::text::strip_leading_chars(&v, &slash);
    let r = string_of(&w, 0, w.len());
    assert(w@.subrange(0, w@.len() as int) == w@);
    r
}

pub open spec fn mode_text(mode: u32) -> Seq<char> {
    seq!['0'] + crate::text::octal(mode as nat)
}

/// The mode of an entry in octal, with a leading zero.
pub fn mode_of(entry: &crate::snapshot::Entry) -> (r: String)
    ensures
        r@ == mode_text(entry.mode),
{
    let mut out = String::new();
    push_char(&mut out, '0');
    crate::text::push_octal(&mut out, entry.mode as u64);
    out
}

/// Words separated by single spaces.
pub open spec fn join_spaced(ws: Seq<Seq<char>>) -> Seq<char>
    decreases ws.len(),
{
    if ws.len() == 0 {
        Seq::empty()
    } else if ws.len() == 1 {
        ws[0]
    } else {
        join_spaced(ws.drop_last()) + seq![' '] + ws.last()
    }
}

/// The first three words of a command.
pub open spec fn short_of(cmd: Seq<char>) -> Seq<char> {
    let ws = words(cmd);
    join_spaced(if ws.len() > 3 { ws.take(3) } else { ws })
}

/// A task name for a command: its first words, then `...` when that left
/// something out.
pub open spec fn summary(cmd: Seq<char>) -> Seq<char> {
    "Run "@ + short_of(cmd) + if utf8_len(short_of(cmd)) < utf8_len(trim(cmd)) { " ..."@ } else { Seq::empty() }
}

pub fn summarize(cmd: &str) -> (r: String)
    ensures
        r@ == summary(cmd@),
{
    let v = chars_of(cmd);
    let ws = words_chars(&v);
    let ghost wv = views(ws@);
    let n: usize = if ws.len() > 3 { 3 } else { ws.len() };
    let ghost sel = if wv.len() > 3 { wv.take(3) } else { wv };
    let mut short: Vec<char> = Vec::new();
    let mut i: usize = 0;
    assert(sel.take(0) =~= Seq::<Seq<char>>::empty());
    while i < n
        invariant
            i <= n,
            n == sel.len(),
            wv == views(ws@),
            n <= ws@.len(),
            forall|q: int| 0 <= q < n ==> sel[q] == #[trigger] wv[q],
            short@ == join_spaced(sel.take(i as int)),
        decreases n - i,
    {
        let ghost t = sel.take(i + 1);
        assert(t.drop_last() == sel.take(i as int));
        assert(sel[i as int] == wv[i as int]);
        assert(wv[i as int] == ws@[i as int]@);
        assert(t.last() == ws@[i as int]@);
        if i > 0 {
            short.push(' ');
        }
        let w = &ws[i];
        let mut k: usize = 0;
        let ghost c0 = short@;
        while k < w.len()
            invariant
                k <= w@.len(),
                short@ == c0 + w@.take(k as int),
            decreases w.len() - k,
        {
            short.push(w[k]);
            assert(w@.take(k + 1) == w@.take(k as int).push(w@[k as int]));
            k = k + 1;
        }
        assert(w@.take(w@.len() as int) == w@);
        proof {
            if i == 0 {
                assert(t.len() == 1);
                assert(c0.len() == 0) by {
                    assert(sel.take(0) =~= Seq::<Seq<char>>::empty());
                }
                assert(short@ =~= t[0]);
            } else {
                assert(short@ =~= join_spaced(t.drop_last()) + seq![' '] + t.last());
            }
        }
        i = i + 1;
    }
    assert(sel.take(n as int) == sel);
    assert(sel == (if words(cmd@).len() > 3 { words(cmd@).take(3) } else { words(cmd@) }));
    let mut name = String::new();
    push_str(&mut name, "Run ");
    let s = string_of(&short, 0, short.len());
    assert(short@.subrange(0, short@.len() as int) == short@);
    push_str(&mut name, s.as_str());
    let t = trim_chars(&v);
    if utf8_len_exec(&short) < utf8_len_exec(&t) {
        push_str(&mut name, " ...");
    }
    name
}

/// The command is already covered by a task generated from a probe: it names
/// a package or a unit the step claims, or a file the step changed.
pub open spec fn covered_by(cmd: Seq<char>, st: StepV, cs: Seq<ChangeV>) -> bool {
    ||| exists|i: int| 0 <= i < st.packages.len() && #[trigger] names(cmd, st.packages[i].0)
    ||| exists|i: int| 0 <= i < st.state.len() && #[trigger] names(cmd, st.state[i])
    ||| exists|i: int| 0 <= i < cs.len() && #[trigger] mentions_path(cmd, change_path(cs[i]))
}

pub fn covered(cmd: &str, step: &Step, changes_list: &Vec<Change>) -> (r: bool)
    ensures
        r == covered_by(cmd@, step@, changes(changes_list@)),
{
    let ghost sv = step@;
    let mut i: usize = 0;
    while i < step.packages.len()
        invariant
            i <= step.packages@.len(),
            sv == step@,
            forall|k: int| 0 <= k < i ==> !#[trigger] names(cmd@, sv.packages[k].0),
        decreases step.packages.len() - i,
    {
        assert(sv.packages[i as int] == step.packages@[i as int]@);
        if names_item(cmd, step.packages[i].name.as_str()) {
            assert(names(cmd@, sv.packages[i as int].0));
            return true;
        }
        i = i + 1;
    }
    let mut i: usize = 0;
    while i < step.state.len()
        invariant
            i <= step.state@.len(),
            sv == step@,
            forall|k: int| 0 <= k < step.packages@.len() ==> !#[trigger] names(cmd@, sv.packages[k].0),
            forall|k: int| 0 <= k < i ==> !#[trigger] names(cmd@, sv.state[k]),
        decreases step.state.len() - i,
    {
        assert(sv.state[i as int] == step.state@[i as int]@);
        if names_item(cmd, step.state[i].as_str()) {
            assert(names(cmd@, sv.state[i as int]));
            return true;
        }
        i = i + 1;
    }
    let ghost cs = changes(changes_list@);
    let mut i: usize = 0;
    while i < changes_list.len()
        invariant
            i <= changes_list@.len(),
            cs == changes(changes_list@),
            sv == step@,
            forall|k: int| 0 <= k < step.packages@.len() ==> !#[trigger] names(cmd@, sv.packages[k].0),
            forall|k: int| 0 <= k < step.state@.len() ==> !#[trigger] names(cmd@, sv.state[k]),
            forall|k: int| 0 <= k < i ==> !#[trigger] mentions_path(cmd@, change_path(cs[k])),
        decreases changes_list.len() - i,
    {
        assert(cs[i as int] == changes_list@[i as int]@);
        if mentions(cmd, changes_list[i].path()) {
            assert(mentions_path(cmd@, change_path(cs[i as int])));
            return true;
        }
        i = i + 1;
    }
    false
}

// ----------------------------------------------------------------------------
// The text of a task.

pub open spec fn comment_text(text: Seq<char>) -> Seq<char> {
    concat(wrapped(text).map_values(|l: Seq<char>| "    # "@ + l + seq!['\n']))
}

pub open spec fn task_text(name: Seq<char>, module: Seq<char>) -> Seq<char> {
    "    - name: "@ + scalar_text(name) + seq!['\n'] + "      "@ + module + ":\n"@
}

pub open spec fn arg_text(key: Seq<char>, value: Seq<char>) -> Seq<char> {
    "        "@ + key + ": "@ + value + seq!['\n']
}

pub open spec fn quoted(v: Seq<char>) -> Seq<char> {
    seq!['"'] + v + seq!['"']
}

/// Writes a comment, wrapped, one `#` line per line.
fn push_comment(out: &mut String, text: &str)
    ensures
        final(out)@ == old(out)@ + comment_text(text@),
{
    let ls = wrap(text);
    let ghost w = strs(ls@);
    let ghost f = |l: Seq<char>| "    # "@ + l + seq!['\n'];
    let ghost start = out@;
    let mut i: usize = 0;
    assert(start + concat(w.take(0).map_values(f)) =~= out@);
    while i < ls.len()
        invariant
            i <= ls@.len(),
            w == strs(ls@),
            w == wrapped(text@),
            f == (|l: Seq<char>| "    # "@ + l + seq!['\n']),
            out@ == start + concat(w.take(i as int).map_values(f)),
        decreases ls.len() - i,
    {
        proof {
            lemma_map_values_step(w, f, i as int);
            lemma_concat_push(w.take(i as int).map_values(f), f(w[i as int]));
        }
        assert(w[i as int] == ls@[i as int]@);
        push_str(out, "    # ");
        push_str(out, ls[i].as_str());
        push_char(out, '\n');
        assert(out@ =~= start + concat(w.take(i + 1).map_values(f)));
        i = i + 1;
    }
    assert(w.take(w.len() as int) == w);
}

fn push_task(out: &mut String, name: &str, module: &str)
    ensures
        final(out)@ == old(out)@ + task_text(name@, module@),
{
    let ghost start = out@;
    push_str(out, "    - name: ");
    let n = scalar(name);
    push_str(out, n.as_str());
    push_char(out, '\n');
    push_str(out, "      ");
    push_str(out, module);
    push_str(out, ":\n");
    assert(out@ =~= start + task_text(name@, module@));
}

fn push_arg(out: &mut String, key: &str, value: &str)
    ensures
        final(out)@ == old(out)@ + arg_text(key@, value@),
{
    let ghost start = out@;
    push_str(out, "        ");
    push_str(out, key);
    push_str(out, ": ");
    push_str(out, value);
    push_char(out, '\n');
    assert(out@ =~= start + arg_text(key@, value@));
}

fn push_scalar_arg(out: &mut String, key: &str, value: &str)
    ensures
        final(out)@ == old(out)@ + arg_text(key@, scalar_text(value@)),
{
    let v = scalar(value);
    push_arg(out, key, v.as_str());
}

fn quote(v: &str) -> (r: String)
    ensures
        r@ == quoted(v@),
{
    let mut out = String::new();
    push_char(&mut out, '"');
    push_str(&mut out, v);
    push_char(&mut out, '"');
    out
}

fn prefixed(prefix: &str, name: &str) -> (r: String)
    ensures
        r@ == prefix@ + name@,
{
    let mut out = crate::text::owned(prefix);
    push_str(&mut out, name);
    out
}

// ----------------------------------------------------------------------------
// Tasks from what the probes saw.

pub open spec fn package_item(p: PackageV) -> Seq<char> {
    "          - "@ + scalar_text(p.0) + seq!['\n']
}

pub open spec fn packages_text(ps: Seq<PackageV>) -> Seq<char> {
    if ps.len() == 0 {
        Seq::empty()
    } else {
        task_text("Install packages"@, "ansible.builtin.dnf"@) + "        name:\n"@
            + concat(ps.map_values(|p: PackageV| package_item(p))) + arg_text("state"@, "present"@)
            + seq!['\n']
    }
}

fn push_packages(out: &mut String, packages: &Vec<crate::packages::Package>)
    ensures
        final(out)@ == old(out)@ + packages_text(pkgs(packages@)),
{
    if packages.len() == 0 {
        assert(old(out)@ + packages_text(pkgs(packages@)) =~= out@);
        return;
    }
    let ghost ps = pkgs(packages@);
    let ghost start = out@;
    push_task(out, "Install packages", "ansible.builtin.dnf");
    push_str(out, "        name:\n");
    let ghost mid = out@;
    let ghost f = |p: PackageV| package_item(p);
    let mut i: usize = 0;
    assert(mid + concat(ps.take(0).map_values(f)) =~= out@);
    while i < packages.len()
        invariant
            i <= packages@.len(),
            ps == pkgs(packages@),
            f == (|p: PackageV| package_item(p)),
            out@ == mid + concat(ps.take(i as int).map_values(f)),
        decreases packages.len() - i,
    {
        proof {
            lemma_map_values_step(ps, f, i as int);
            lemma_concat_push(ps.take(i as int).map_values(f), f(ps[i as int]));
        }
        assert(ps[i as int] == packages@[i as int]@);
        push_str(out, "          - ");
        let n = scalar(packages[i].name.as_str());
        push_str(out, n.as_str());
        push_char(out, '\n');
        assert(out@ =~= mid + concat(ps.take(i + 1).map_values(f)));
        i = i + 1;
    }
    assert(ps.take(ps.len() as int) == ps);
    push_arg(out, "state", "present");
    push_char(out, '\n');
    assert(out@ =~= start + packages_text(ps));
}

pub open spec fn unit_text(d: crate::state::Diff, n: Seq<char>) -> Seq<char> {
    let enabled = strs(d.units_enabled@).contains(n);
    let started = strs(d.services_started@).contains(n);
    if !enabled && !started {
        Seq::empty()
    } else {
        task_text("Enable "@ + n, "ansible.builtin.systemd"@) + arg_text("name"@, scalar_text(n))
            + (if enabled { arg_text("enabled"@, "true"@) } else { Seq::empty() })
            + (if started { arg_text("state"@, "started"@) } else { Seq::empty() }) + seq!['\n']
    }
}

pub open spec fn units_text(d: crate::state::Diff, ns: Seq<Seq<char>>) -> Seq<char> {
    concat(ns.map_values(|n: Seq<char>| unit_text(d, n)))
}

fn push_units(out: &mut String, diff: &crate::state::Diff, names_list: &Vec<String>)
    ensures
        final(out)@ == old(out)@ + units_text(*diff, strs(names_list@)),
{
    let ghost ns = strs(names_list@);
    let ghost f = |n: Seq<char>| unit_text(*diff, n);
    let ghost start = out@;
    let mut i: usize = 0;
    assert(start + concat(ns.take(0).map_values(f)) =~= out@);
    while i < names_list.len()
        invariant
            i <= names_list@.len(),
            ns == strs(names_list@),
            f == (|n: Seq<char>| unit_text(*diff, n)),
            out@ == start + concat(ns.take(i as int).map_values(f)),
        decreases names_list.len() - i,
    {
        proof {
            lemma_map_values_step(ns, f, i as int);
            lemma_concat_push(ns.take(i as int).map_values(f), f(ns[i as int]));
        }
        let name = &names_list[i];
        assert(ns[i as int] == name@);
        let ghost before = out@;
        let enabled = crate::order::contains_str(&diff.units_enabled, name);
        let started = crate::order::contains_str(&diff.services_started, name);
        if enabled || started {
            let title = prefixed("Enable ", name.as_str());
            push_task(out, title.as_str(), "ansible.builtin.systemd");
            push_scalar_arg(out, "name", name.as_str());
            let ghost m1 = out@;
            if enabled {
                push_arg(out, "enabled", "true");
            }
            assert(out@ =~= m1 + (if enabled { arg_text("enabled"@, "true"@) } else { Seq::empty() }));
            let ghost m2 = out@;
            if started {
                push_arg(out, "state", "started");
            }
            assert(out@ =~= m2 + (if started { arg_text("state"@, "started"@) } else { Seq::empty() }));
            push_char(out, '\n');
        }
        assert(out@ =~= before + unit_text(*diff, name@));
        assert(out@ =~= start + concat(ns.take(i + 1).map_values(f)));
        i = i + 1;
    }
    assert(ns.take(ns.len() as int) == ns);
}

pub open spec fn firewall_tail(state: Seq<char>) -> Seq<char> {
    arg_text("permanent"@, "true"@) + arg_text("immediate"@, "true"@) + arg_text("state"@, state)
        + seq!['\n']
}

pub open spec fn firewall_rule(title: Seq<char>, key: Seq<char>, state: Seq<char>, x: Seq<char>) -> Seq<char> {
    task_text(title + x, "ansible.posix.firewalld"@) + arg_text(key, scalar_text(x)) + firewall_tail(state)
}

pub open spec fn firewall_rules(title: Seq<char>, key: Seq<char>, state: Seq<char>, xs: Seq<Seq<char>>) -> Seq<char> {
    concat(xs.map_values(|x: Seq<char>| firewall_rule(title, key, state, x)))
}

pub open spec fn firewall_text(d: crate::state::Diff) -> Seq<char> {
    firewall_rules("Open firewall service "@, "service"@, "enabled"@, strs(d.firewall_services_added@))
        + firewall_rules("Close firewall service "@, "service"@, "disabled"@, strs(d.firewall_services_removed@))
        + firewall_rules("Open port "@, "port"@, "enabled"@, strs(d.firewall_ports_added@))
        + firewall_rules("Close port "@, "port"@, "disabled"@, strs(d.firewall_ports_removed@))
}

fn push_firewall_rules(out: &mut String, title: &str, key: &str, state: &str, xs: &Vec<String>)
    ensures
        final(out)@ == old(out)@ + firewall_rules(title@, key@, state@, strs(xs@)),
{
    let ghost ns = strs(xs@);
    let ghost f = |x: Seq<char>| firewall_rule(title@, key@, state@, x);
    let ghost start = out@;
    let mut i: usize = 0;
    assert(start + concat(ns.take(0).map_values(f)) =~= out@);
    while i < xs.len()
        invariant
            i <= xs@.len(),
            ns == strs(xs@),
            f == (|x: Seq<char>| firewall_rule(title@, key@, state@, x)),
            out@ == start + concat(ns.take(i as int).map_values(f)),
        decreases xs.len() - i,
    {
        proof {
            lemma_map_values_step(ns, f, i as int);
            lemma_concat_push(ns.take(i as int).map_values(f), f(ns[i as int]));
        }
        assert(ns[i as int] == xs@[i as int]@);
        let ghost before = out@;
        let t = prefixed(title, xs[i].as_str());
        push_task(out, t.as_str(), "ansible.posix.firewalld");
        push_scalar_arg(out, key, xs[i].as_str());
        push_arg(out, "permanent", "true");
        push_arg(out, "immediate", "true");
        push_arg(out, "state", state);
        push_char(out, '\n');
        assert(out@ =~= before + firewall_rule(title@, key@, state@, ns[i as int]));
        assert(out@ =~= start + concat(ns.take(i + 1).map_values(f)));
        i = i + 1;
    }
    assert(ns.take(ns.len() as int) == ns);
}

fn push_firewall(out: &mut String, diff: &crate::state::Diff)
    ensures
        final(out)@ == old(out)@ + firewall_text(*diff),
{
    let ghost start = out@;
    push_firewall_rules(out, "Open firewall service ", "service", "enabled", &diff.firewall_services_added);
    push_firewall_rules(out, "Close firewall service ", "service", "disabled", &diff.firewall_services_removed);
    push_firewall_rules(out, "Open port ", "port", "enabled", &diff.firewall_ports_added);
    push_firewall_rules(out, "Close port ", "port", "disabled", &diff.firewall_ports_removed);
    assert(out@ =~= start + firewall_text(*diff));
}

pub open spec fn group_created(g: crate::state::GroupV) -> Seq<char> {
    task_text("Create group "@ + g.0, "ansible.builtin.group"@) + arg_text("name"@, scalar_text(g.0))
        + arg_text("gid"@, crate::text::decimal(g.1 as nat)) + arg_text("state"@, "present"@) + seq!['\n']
}

pub open spec fn user_created(u: crate::state::UserV) -> Seq<char> {
    task_text("Create user "@ + u.0, "ansible.builtin.user"@) + arg_text("name"@, scalar_text(u.0))
        + arg_text("uid"@, crate::text::decimal(u.1 as nat)) + arg_text("home"@, scalar_text(u.3))
        + arg_text("shell"@, scalar_text(u.4)) + arg_text("state"@, "present"@) + seq!['\n']
}

pub open spec fn user_removed(u: crate::state::UserV) -> Seq<char> {
    task_text("Remove user "@ + u.0, "ansible.builtin.user"@) + arg_text("name"@, scalar_text(u.0))
        + arg_text("state"@, "absent"@) + seq!['\n']
}

pub open spec fn group_removed(g: crate::state::GroupV) -> Seq<char> {
    task_text("Remove group "@ + g.0, "ansible.builtin.group"@) + arg_text("name"@, scalar_text(g.0))
        + arg_text("state"@, "absent"@) + seq!['\n']
}

pub open spec fn accounts_text(d: crate::state::Diff) -> Seq<char> {
    concat(crate::state::groups(d.groups_added@).map_values(|g: crate::state::GroupV| group_created(g)))
        + concat(crate::state::users(d.users_added@).map_values(|u: crate::state::UserV| user_created(u)))
        + concat(crate::state::users(d.users_removed@).map_values(|u: crate::state::UserV| user_removed(u)))
        + concat(crate::state::groups(d.groups_removed@).map_values(|g: crate::state::GroupV| group_removed(g)))
}

fn push_decimal_arg(out: &mut String, key: &str, n: u32)
    ensures
        final(out)@ == old(out)@ + arg_text(key@, crate::text::decimal(n as nat)),
{
    let ghost start = out@;
    push_str(out, "        ");
    push_str(out, key);
    push_str(out, ": ");
    crate::text::push_decimal(out, n as u64);
    push_char(out, '\n');
    assert(out@ =~= start + arg_text(key@, crate::text::decimal(n as nat)));
}

#[verifier::spinoff_prover]
#[verifier::rlimit(30)]
fn push_groups(out: &mut String, list: &Vec<crate::state::Group>, create: bool)
    ensures
        create ==> final(out)@ == old(out)@ + concat(crate::state::groups(list@).map_values(|g: crate::state::GroupV| group_created(g))),
        !create ==> final(out)@ == old(out)@ + concat(crate::state::groups(list@).map_values(|g: crate::state::GroupV| group_removed(g))),
{
    let ghost gs = crate::state::groups(list@);
    let ghost f = |g: crate::state::GroupV| if create { group_created(g) } else { group_removed(g) };
    let ghost start = out@;
    let mut i: usize = 0;
    assert(start + concat(gs.take(0).map_values(f)) =~= out@);
    while i < list.len()
        invariant
            i <= list@.len(),
            gs == crate::state::groups(list@),
            f == (|g: crate::state::GroupV| if create { group_created(g) } else { group_removed(g) }),
            out@ == start + concat(gs.take(i as int).map_values(f)),
        decreases list.len() - i,
    {
        proof {
            lemma_map_values_step(gs, f, i as int);
            lemma_concat_push(gs.take(i as int).map_values(f), f(gs[i as int]));
        }
        let g = &list[i];
        assert(gs[i as int] == g@);
        let ghost before = out@;
        if create {
            let t = prefixed("Create group ", g.name.as_str());
            push_task(out, t.as_str(), "ansible.builtin.group");
            push_scalar_arg(out, "name", g.name.as_str());
            push_decimal_arg(out, "gid", g.gid);
            push_arg(out, "state", "present");
        } else {
            let t = prefixed("Remove group ", g.name.as_str());
            push_task(out, t.as_str(), "ansible.builtin.group");
            push_scalar_arg(out, "name", g.name.as_str());
            push_arg(out, "state", "absent");
        }
        push_char(out, '\n');
        assert(out@ =~= before + f(gs[i as int]));
        assert(out@ =~= start + concat(gs.take(i + 1).map_values(f)));
        i = i + 1;
    }
    assert(gs.take(gs.len() as int) == gs);
    assert(create ==> gs.map_values(f) =~= gs.map_values(|g: crate::state::GroupV| group_created(g)));
    assert(!create ==> gs.map_values(f) =~= gs.map_values(|g: crate::state::GroupV| group_removed(g)));
}

fn push_user(out: &mut String, u: &crate::state::User, create: bool)
    ensures
        create ==> final(out)@ == old(out)@ + user_created(u@),
        !create ==> final(out)@ == old(out)@ + user_removed(u@),
{
    let ghost start = out@;
    if create {
        let t = prefixed("Create user ", u.name.as_str());
        push_task(out, t.as_str(), "ansible.builtin.user");
        push_scalar_arg(out, "name", u.name.as_str());
        push_decimal_arg(out, "uid", u.uid);
        push_scalar_arg(out, "home", u.home.as_str());
        push_scalar_arg(out, "shell", u.shell.as_str());
        push_arg(out, "state", "present");
        push_char(out, '\n');
        assert(out@ =~= start + user_created(u@));
    } else {
        let t = prefixed("Remove user ", u.name.as_str());
        push_task(out, t.as_str(), "ansible.builtin.user");
        push_scalar_arg(out, "name", u.name.as_str());
        push_arg(out, "state", "absent");
        push_char(out, '\n');
        assert(out@ =~= start + user_removed(u@));
    }
}

fn push_users(out: &mut String, list: &Vec<crate::state::User>, create: bool)
    ensures
        create ==> final(out)@ == old(out)@ + concat(crate::state::users(list@).map_values(|u: crate::state::UserV| user_created(u))),
        !create ==> final(out)@ == old(out)@ + concat(crate::state::users(list@).map_values(|u: crate::state::UserV| user_removed(u))),
{
    let ghost us = crate::state::users(list@);
    let ghost f = |u: crate::state::UserV| if create { user_created(u) } else { user_removed(u) };
    let ghost start = out@;
    let mut i: usize = 0;
    assert(start + concat(us.take(0).map_values(f)) =~= out@);
    while i < list.len()
        invariant
            i <= list@.len(),
            us == crate::state::users(list@),
            f == (|u: crate::state::UserV| if create { user_created(u) } else { user_removed(u) }),
            out@ == start + concat(us.take(i as int).map_values(f)),
        decreases list.len() - i,
    {
        proof {
            lemma_map_values_step(us, f, i as int);
            lemma_concat_push(us.take(i as int).map_values(f), f(us[i as int]));
        }
        let u = &list[i];
        assert(us[i as int] == u@);
        push_user(out, u, create);
        assert(out@ =~= start + concat(us.take(i + 1).map_values(f)));
        i = i + 1;
    }
    assert(us.take(us.len() as int) == us);
    assert(create ==> us.map_values(f) =~= us.map_values(|u: crate::state::UserV| user_created(u)));
    assert(!create ==> us.map_values(f) =~= us.map_values(|u: crate::state::UserV| user_removed(u)));
}

fn push_accounts(out: &mut String, diff: &crate::state::Diff)
    ensures
        final(out)@ == old(out)@ + accounts_text(*diff),
{
    let ghost start = out@;
    push_groups(out, &diff.groups_added, true);
    push_users(out, &diff.users_added, true);
    push_users(out, &diff.users_removed, false);
    push_groups(out, &diff.groups_removed, false);
    assert(out@ =~= start + accounts_text(*diff));
}

// ----------------------------------------------------------------------------
// The playbook under construction.

/// What a playbook has so far: its tasks, the files it copies (as path under
/// `files/` and content), and what a human has to resolve.
pub struct BuildV {
    pub out: Seq<char>,
    pub files: Seq<(Seq<char>, Seq<char>)>,
    pub warnings: Seq<Seq<char>>,
}

pub open spec fn add_out(b: BuildV, t: Seq<char>) -> BuildV {
    BuildV { out: b.out + t, files: b.files, warnings: b.warnings }
}

pub open spec fn owner_text(l: crate::i18n::Locale, e: crate::snapshot::EntryV) -> Seq<char> {
    comment_text(crate::i18n::msg_recorded_owner(l, e.uid as nat, e.gid as nat))
}

pub open spec fn symlink_text(e: crate::snapshot::EntryV) -> Seq<char> {
    match e.content {
        crate::snapshot::ContentV::Symlink { target } => task_text("Link "@ + e.path, "ansible.builtin.file"@)
            + arg_text("src"@, scalar_text(target)) + arg_text("dest"@, scalar_text(e.path))
            + arg_text("state"@, "link"@) + seq!['\n'],
        _ => Seq::empty(),
    }
}

/// A file that was added or modified: a symlink is linked, a file with
/// recorded content is copied, and one without becomes a TODO, since its
/// content is genuinely not available.
pub open spec fn entry_build(
    b: BuildV,
    e: crate::snapshot::EntryV,
    blobs: Seq<(Seq<char>, Seq<char>)>,
    l: crate::i18n::Locale,
) -> BuildV {
    let d = e.path;
    if e.content is Symlink {
        add_out(b, symlink_text(e))
    } else {
        match crate::snapshot::blob_text_of(blobs, e) {
            None => {
                let note = crate::i18n::msg_todo_content_missing(l, d);
                BuildV { out: b.out + comment_text(note) + seq!['\n'], files: b.files, warnings: b.warnings.push(note) }
            },
            Some(content) => {
                let src = files_path_of(d);
                BuildV {
                    out: b.out + owner_text(l, e) + task_text("Copy "@ + d, "ansible.builtin.copy"@)
                        + arg_text("src"@, scalar_text("files/"@ + src)) + arg_text("dest"@, scalar_text(d))
                        + arg_text("mode"@, quoted(mode_text(e.mode))) + arg_text("backup"@, "true"@)
                        + seq!['\n'],
                    files: b.files.push((src, content)),
                    warnings: b.warnings,
                }
            },
        }
    }
}

pub open spec fn file_build(
    b: BuildV,
    c: ChangeV,
    blobs: Seq<(Seq<char>, Seq<char>)>,
    l: crate::i18n::Locale,
) -> BuildV {
    let d = change_path(c);
    match c {
        ChangeV::Removed(_) => add_out(
            b,
            task_text("Remove "@ + d, "ansible.builtin.file"@) + arg_text("path"@, scalar_text(d))
                + arg_text("state"@, "absent"@) + seq!['\n'],
        ),
        ChangeV::MetadataChanged(_, a) => add_out(
            b,
            owner_text(l, a) + task_text("Set permissions on "@ + d, "ansible.builtin.file"@)
                + arg_text("path"@, scalar_text(d)) + arg_text("mode"@, quoted(mode_text(a.mode)))
                + seq!['\n'],
        ),
        ChangeV::Added(e) => entry_build(b, e, blobs, l),
        ChangeV::Modified(_, e) => entry_build(b, e, blobs, l),
    }
}

pub open spec fn files_build(
    b: BuildV,
    cs: Seq<ChangeV>,
    blobs: Seq<(Seq<char>, Seq<char>)>,
    l: crate::i18n::Locale,
) -> BuildV
    decreases cs.len(),
{
    if cs.len() == 0 {
        b
    } else {
        file_build(files_build(b, cs.drop_last(), blobs, l), cs.last(), blobs, l)
    }
}

pub open spec fn shell_chars() -> Seq<char> {
    seq!['|', '>', '<', '&', ';', '$', '*', '`']
}

/// A command that needs a shell to run: a pipe, a redirection, a list,
/// an expansion.
pub open spec fn needs_shell(cmd: Seq<char>) -> bool {
    exists|i: int| 0 <= i < shell_chars().len() && cmd.contains(#[trigger] shell_chars()[i])
}

/// A command whose effect no probe could express: replayed as it was typed,
/// behind a TODO, since that is not idempotent.
pub open spec fn command_build(b: BuildV, cmd: Seq<char>, l: crate::i18n::Locale) -> BuildV {
    let note = crate::i18n::msg_todo_idempotent(l);
    let module = if needs_shell(cmd) { "ansible.builtin.shell"@ } else { "ansible.builtin.command"@ };
    BuildV {
        out: b.out + comment_text(note) + "    - name: "@ + scalar_text(summary(cmd)) + seq!['\n']
            + "      "@ + module + ": "@ + scalar_text(cmd) + seq!['\n'] + "      changed_when: true\n"@
            + seq!['\n'],
        files: b.files,
        warnings: b.warnings.push(note + ": "@ + cmd),
    }
}

pub open spec fn commands_build(
    b: BuildV,
    rs: Seq<crate::step::RunV>,
    st: StepV,
    l: crate::i18n::Locale,
) -> BuildV
    decreases rs.len(),
{
    if rs.len() == 0 {
        b
    } else {
        let p = commands_build(b, rs.drop_last(), st, l);
        if covered_by(rs.last().cmd, st, st.files) {
            p
        } else {
            command_build(p, rs.last().cmd, l)
        }
    }
}

/// A step gets tasks when it claimed something, or ran a command no probe
/// covers.
pub open spec fn has_work(st: StepV) -> bool {
    ||| st.packages.len() > 0
    ||| st.files.len() > 0
    ||| st.state.len() > 0
    ||| exists|j: int| 0 <= j < crate::step::commands_of(st.items).len()
            && !#[trigger] covered_by(crate::step::commands_of(st.items)[j].cmd, st, st.files)
}

pub open spec fn step_build(
    b: BuildV,
    st: StepV,
    d: crate::state::Diff,
    blobs: Seq<(Seq<char>, Seq<char>)>,
    l: crate::i18n::Locale,
) -> BuildV {
    if !has_work(st) {
        b
    } else {
        let b1 = match st.title {
            Some(t) => add_out(b, comment_text(crate::i18n::msg_playbook_step(l, t))),
            None => b,
        };
        let b2 = add_out(b1, packages_text(st.packages));
        let b3 = files_build(b2, st.files, blobs, l);
        let b4 = add_out(b3, units_text(d, st.state));
        commands_build(b4, crate::step::commands_of(st.items), st, l)
    }
}

pub open spec fn steps_build(
    b: BuildV,
    sts: Seq<StepV>,
    d: crate::state::Diff,
    blobs: Seq<(Seq<char>, Seq<char>)>,
    l: crate::i18n::Locale,
) -> BuildV
    decreases sts.len(),
{
    if sts.len() == 0 {
        b
    } else {
        step_build(steps_build(b, sts.drop_last(), d, blobs, l), sts.last(), d, blobs, l)
    }
}

/// Something no step claimed, or something that belongs to the whole
/// session: firewall rules and accounts.
pub open spec fn has_rest(r: crate::step::Runbook) -> bool {
    ||| r.other_packages@.len() > 0
    ||| r.other_files@.len() > 0
    ||| r.state.firewall_services_added@.len() > 0
    ||| r.state.firewall_services_removed@.len() > 0
    ||| r.state.firewall_ports_added@.len() > 0
    ||| r.state.firewall_ports_removed@.len() > 0
    ||| r.state.users_added@.len() > 0
    ||| r.state.users_removed@.len() > 0
    ||| r.state.groups_added@.len() > 0
    ||| r.state.groups_removed@.len() > 0
}

pub open spec fn rest_build(
    b: BuildV,
    r: crate::step::Runbook,
    blobs: Seq<(Seq<char>, Seq<char>)>,
    l: crate::i18n::Locale,
) -> BuildV {
    if !has_rest(r) {
        b
    } else {
        let b1 = add_out(b, comment_text(crate::i18n::msg_playbook_unattributed(l)));
        let b2 = add_out(b1, packages_text(pkgs(r.other_packages@)));
        let b3 = files_build(b2, changes(r.other_files@), blobs, l);
        add_out(b3, firewall_text(r.state) + accounts_text(r.state))
    }
}

/// Everything the steps and the rest of the session give.
pub open spec fn built(r: crate::step::Runbook, blobs: Seq<(Seq<char>, Seq<char>)>, l: crate::i18n::Locale) -> BuildV {
    let b0 = BuildV { out: Seq::empty(), files: Seq::empty(), warnings: Seq::empty() };
    rest_build(steps_build(b0, crate::step::steps(r.steps@), r.state, blobs, l), r, blobs, l)
}

struct Builder<'a> {
    out: String,
    files: Vec<(String, String)>,
    warnings: Vec<String>,
    blobs: &'a crate::snapshot::Blobs,
    msg: &'a crate::i18n::Messages,
}

impl<'a> Builder<'a> {
    spec fn state(&self) -> BuildV {
        BuildV { out: self.out@, files: crate::snapshot::blob_pairs(self.files@), warnings: strs(self.warnings@) }
    }

    fn comment(&mut self, text: &str)
        ensures
            final(self).state() == add_out(old(self).state(), comment_text(text@)),
            final(self).blobs == old(self).blobs,
            final(self).msg == old(self).msg,
    {
        push_comment(&mut self.out, text);
    }

    fn task(&mut self, name: &str, module: &str)
        ensures
            final(self).state() == add_out(old(self).state(), task_text(name@, module@)),
            final(self).blobs == old(self).blobs,
            final(self).msg == old(self).msg,
    {
        push_task(&mut self.out, name, module);
    }

    fn packages(&mut self, packages: &Vec<crate::packages::Package>)
        ensures
            final(self).state() == add_out(old(self).state(), packages_text(pkgs(packages@))),
            final(self).blobs == old(self).blobs,
            final(self).msg == old(self).msg,
    {
        push_packages(&mut self.out, packages);
    }

    /// The recorded owner is written as a comment: `owner` takes a name, and
    /// the snapshot holds numeric ids, which may belong to a different
    /// account on the host the playbook runs against.
    fn owner_comment(&mut self, entry: &crate::snapshot::Entry)
        ensures
            final(self).state() == add_out(old(self).state(), owner_text(old(self).msg.locale, entry@)),
            final(self).blobs == old(self).blobs,
            final(self).msg == old(self).msg,
    {
        let note = self.msg.recorded_owner(entry.uid, entry.gid);
        push_comment(&mut self.out, note.as_str());
    }

    fn symlink(&mut self, entry: &crate::snapshot::Entry)
        ensures
            final(self).state() == add_out(old(self).state(), symlink_text(entry@)),
            final(self).blobs == old(self).blobs,
            final(self).msg == old(self).msg,
    {
        let ghost start = self.out@;
        match &entry.content {
            crate::snapshot::Content::Symlink { target } => {
                let t = prefixed("Link ", entry.path.as_str());
                push_task(&mut self.out, t.as_str(), "ansible.builtin.file");
                push_scalar_arg(&mut self.out, "src", target.as_str());
                push_scalar_arg(&mut self.out, "dest", entry.path.as_str());
                push_arg(&mut self.out, "state", "link");
                push_char(&mut self.out, '\n');
                assert(self.out@ =~= start + symlink_text(entry@));
            },
            _ => {
                assert(self.out@ =~= start + symlink_text(entry@));
            },
        }
    }

    fn entry(&mut self, entry: &crate::snapshot::Entry)
        ensures
            final(self).state() == entry_build(old(self).state(), entry@, old(self).blobs.spec_texts(), old(self).msg.locale),
            final(self).blobs == old(self).blobs,
            final(self).msg == old(self).msg,
    {
        if entry.is_symlink() {
            self.symlink(entry);
            return;
        }
        let display = entry.path.as_str();
        let ghost s0 = self.state();
        match crate::snapshot::blob_text(self.blobs, entry) {
            None => {
                let note = self.msg.todo_content_missing(display);
                push_comment(&mut self.out, note.as_str());
                push_char(&mut self.out, '\n');
                proof { crate::order::lemma_strs_push(self.warnings@, note); }
                self.warnings.push(note);
                assert(self.out@ =~= s0.out + comment_text(note@) + seq!['\n']);
            },
            Some(content) => {
                let src = files_path(display);
                let ghost pair = (src@, content@);
                let mut copy_src = String::new();
                push_str(&mut copy_src, "files/");
                push_str(&mut copy_src, src.as_str());
                let ghost o0 = self.out@;
                self.owner_comment(entry);
                let t = prefixed("Copy ", display);
                push_task(&mut self.out, t.as_str(), "ansible.builtin.copy");
                push_scalar_arg(&mut self.out, "src", copy_src.as_str());
                push_scalar_arg(&mut self.out, "dest", display);
                let m = mode_of(entry);
                let q = quote(m.as_str());
                push_arg(&mut self.out, "mode", q.as_str());
                push_arg(&mut self.out, "backup", "true");
                push_char(&mut self.out, '\n');
                let item = (src, content);
                let ghost before = self.files@;
                self.files.push(item);
                assert(crate::snapshot::blob_pairs(self.files@) =~= crate::snapshot::blob_pairs(before).push(pair));
                assert(self.out@ =~= o0 + owner_text(self.msg.locale, entry@) + task_text("Copy "@ + entry@.path, "ansible.builtin.copy"@)
                    + arg_text("src"@, scalar_text("files/"@ + files_path_of(entry@.path))) + arg_text("dest"@, scalar_text(entry@.path))
                    + arg_text("mode"@, quoted(mode_text(entry@.mode))) + arg_text("backup"@, "true"@)
                    + seq!['\n']);
            },
        }
    }

    fn file(&mut self, change: &Change)
        ensures
            final(self).state() == file_build(old(self).state(), change@, old(self).blobs.spec_texts(), old(self).msg.locale),
            final(self).blobs == old(self).blobs,
            final(self).msg == old(self).msg,
    {
        let display = change.path();
        let ghost start = self.out@;
        let ghost s0 = self.state();
        match change {
            Change::Removed(_) => {
                let t = prefixed("Remove ", display);
                push_task(&mut self.out, t.as_str(), "ansible.builtin.file");
                push_scalar_arg(&mut self.out, "path", display);
                push_arg(&mut self.out, "state", "absent");
                push_char(&mut self.out, '\n');
                assert(self.out@ =~= file_build(s0, change@, self.blobs.spec_texts(), self.msg.locale).out);
            },
            Change::MetadataChanged { after, .. } => {
                self.owner_comment(after);
                let t = prefixed("Set permissions on ", display);
                push_task(&mut self.out, t.as_str(), "ansible.builtin.file");
                push_scalar_arg(&mut self.out, "path", display);
                let m = mode_of(after);
                let q = quote(m.as_str());
                push_arg(&mut self.out, "mode", q.as_str());
                push_char(&mut self.out, '\n');
                assert(self.out@ =~= file_build(s0, change@, self.blobs.spec_texts(), self.msg.locale).out);
            },
            Change::Added(entry) => self.entry(entry),
            Change::Modified { after, .. } => self.entry(after),
        }
    }

    fn units(&mut self, diff: &crate::state::Diff, names_list: &Vec<String>)
        ensures
            final(self).state() == add_out(old(self).state(), units_text(*diff, strs(names_list@))),
            final(self).blobs == old(self).blobs,
            final(self).msg == old(self).msg,
    {
        push_units(&mut self.out, diff, names_list);
    }

    fn firewall(&mut self, diff: &crate::state::Diff)
        ensures
            final(self).state() == add_out(old(self).state(), firewall_text(*diff)),
            final(self).blobs == old(self).blobs,
            final(self).msg == old(self).msg,
    {
        push_firewall(&mut self.out, diff);
    }

    fn accounts(&mut self, diff: &crate::state::Diff)
        ensures
            final(self).state() == add_out(old(self).state(), accounts_text(*diff)),
            final(self).blobs == old(self).blobs,
            final(self).msg == old(self).msg,
    {
        push_accounts(&mut self.out, diff);
    }

    fn command(&mut self, cmd: &str)
        ensures
            final(self).state() == command_build(old(self).state(), cmd@, old(self).msg.locale),
            final(self).blobs == old(self).blobs,
            final(self).msg == old(self).msg,
    {
        let note = self.msg.todo_idempotent();
        let ghost start = self.out@;
        push_comment(&mut self.out, note);
        let mut warning = crate::text::owned(note);
        push_str(&mut warning, ": ");
        push_str(&mut warning, cmd);
        proof { crate::order::lemma_strs_push(self.warnings@, warning); }
        self.warnings.push(warning);
        let v = chars_of(cmd);
        let specials = ['|', '>', '<', '&', ';', '$', '*', '`'];
        assert(specials@ =~= shell_chars());
        let mut shell = false;
        let mut i: usize = 0;
        while i < specials.len()
            invariant
                i <= specials@.len(),
                specials@ == shell_chars(),
                v@ == cmd@,
                shell == (exists|k: int| 0 <= k < i && cmd@.contains(#[trigger] shell_chars()[k])),
            decreases specials.len() - i,
        {
            if has_char(&v, specials[i]) {
                shell = true;
            }
            i = i + 1;
        }
        let module = if shell { "ansible.builtin.shell" } else { "ansible.builtin.command" };
        push_str(&mut self.out, "    - name: ");
        let name = summarize(cmd);
        let sn = scalar(name.as_str());
        push_str(&mut self.out, sn.as_str());
        push_char(&mut self.out, '\n');
        push_str(&mut self.out, "      ");
        push_str(&mut self.out, module);
        push_str(&mut self.out, ": ");
        let sc = scalar(cmd);
        push_str(&mut self.out, sc.as_str());
        push_char(&mut self.out, '\n');
        push_str(&mut self.out, "      changed_when: true\n");
        push_char(&mut self.out, '\n');
        assert(self.out@ =~= start + comment_text(note@) + "    - name: "@ + scalar_text(summary(cmd@)) + seq!['\n']
            + "      "@ + module@ + ": "@ + scalar_text(cmd@) + seq!['\n'] + "      changed_when: true\n"@
            + seq!['\n']);
    }
}

impl<'a> Builder<'a> {
    #[verifier::spinoff_prover]
    #[verifier::rlimit(30)]
    fn step(&mut self, step: &Step, state: &crate::state::Diff)
        ensures
            final(self).state() == step_build(old(self).state(), step@, *state, old(self).blobs.spec_texts(), old(self).msg.locale),
            final(self).blobs == old(self).blobs,
            final(self).msg == old(self).msg,
    {
        let ghost sv = step@;
        let ghost blobs = self.blobs.spec_texts();
        let ghost l = self.msg.locale;
        let cmds = step.commands();
        let ghost rs = crate::step::runs(cmds@);
        assert(rs == crate::step::commands_of(sv.items));
        let mut work = step.packages.len() > 0 || step.files.len() > 0 || step.state.len() > 0;
        let mut j: usize = 0;
        while j < cmds.len()
            invariant
                j <= cmds@.len(),
                rs == crate::step::runs(cmds@),
                rs == crate::step::commands_of(sv.items),
                sv == step@,
                work == (sv.packages.len() > 0 || sv.files.len() > 0 || sv.state.len() > 0
                    || exists|q: int| 0 <= q < j && !#[trigger] covered_by(rs[q].cmd, sv, sv.files)),
            decreases cmds.len() - j,
        {
            assert(rs[j as int] == cmds@[j as int]@);
            if !covered(cmds[j].cmd.as_str(), step, &step.files) {
                assert(!covered_by(rs[j as int].cmd, sv, sv.files));
                work = true;
            }
            j = j + 1;
        }
        if !work {
            return;
        }
        let ghost s0 = self.state();
        match &step.title {
            Some(title) => {
                let c = self.msg.playbook_step(title.as_str());
                self.comment(c.as_str());
            },
            None => {},
        }
        self.packages(&step.packages);
        let ghost b2 = self.state();
        let ghost cs = changes(step.files@);
        let mut i: usize = 0;
        assert(cs.take(0) =~= Seq::<ChangeV>::empty());
        while i < step.files.len()
            invariant
                i <= step.files@.len(),
                cs == changes(step.files@),
                blobs == self.blobs.spec_texts(),
                l == self.msg.locale,
                self.blobs == old(self).blobs,
                self.msg == old(self).msg,
                self.state() == files_build(b2, cs.take(i as int), blobs, l),
            decreases step.files.len() - i,
        {
            assert(cs.take(i + 1).drop_last() == cs.take(i as int));
            assert(cs.take(i + 1).last() == step.files@[i as int]@);
            self.file(&step.files[i]);
            i = i + 1;
        }
        assert(cs.take(cs.len() as int) == cs);
        self.units(state, &step.state);
        let ghost b4 = self.state();
        let mut j: usize = 0;
        assert(rs.take(0) =~= Seq::<crate::step::RunV>::empty());
        while j < cmds.len()
            invariant
                j <= cmds@.len(),
                rs == crate::step::runs(cmds@),
                sv == step@,
                l == self.msg.locale,
                self.blobs == old(self).blobs,
                self.msg == old(self).msg,
                self.state() == commands_build(b4, rs.take(j as int), sv, l),
            decreases cmds.len() - j,
        {
            assert(rs.take(j + 1).drop_last() == rs.take(j as int));
            assert(rs.take(j + 1).last() == cmds@[j as int]@);
            if !covered(cmds[j].cmd.as_str(), step, &step.files) {
                self.command(cmds[j].cmd.as_str());
            }
            j = j + 1;
        }
        assert(rs.take(rs.len() as int) == rs);
    }
}

// ----------------------------------------------------------------------------
// The playbook.

/// What a playbook is made from.
pub struct Input<'a> {
    pub meta: &'a crate::session::Meta,
    pub runbook: &'a crate::step::Runbook,
    /// The recorded file content of the session.
    pub blobs: &'a crate::snapshot::Blobs,
    pub version: &'a str,
}

pub struct Playbook {
    pub yaml: String,
    /// Content to write under `files/`, as (relative path, content).
    pub files: Vec<(String, String)>,
    /// What a human must resolve before the playbook can be trusted.
    pub warnings: Vec<String>,
}

/// The name of the play: the session's name, or its id.
pub open spec fn play_title(m: crate::session::Meta) -> Seq<char> {
    match m.name {
        Some(n) => n@,
        None => m.id@,
    }
}

pub open spec fn header_text(l: crate::i18n::Locale, id: Seq<char>, version: Seq<char>, title: Seq<char>) -> Seq<char> {
    let intro = crate::i18n::msg_playbook_header(l, id, version) + seq!['\n'] + crate::i18n::msg_playbook_review(l);
    "---\n"@ + concat(wrapped(intro).map_values(|x: Seq<char>| "# "@ + x + seq!['\n']))
        + "\n- name: "@ + scalar_text("Exarare: "@ + title) + seq!['\n'] + "  hosts: all\n"@
        + "  become: true\n"@ + "  tasks:\n"@
}

/// A play needs at least one task to be valid for Ansible.
pub open spec fn empty_play(l: crate::i18n::Locale) -> Seq<char> {
    "    - name: Nothing was recorded to replay\n"@ + "      ansible.builtin.debug:\n"@ + "        msg: "@
        + scalar_text(crate::i18n::msg_playbook_empty(l)) + seq!['\n']
}

pub open spec fn yaml_text(
    l: crate::i18n::Locale,
    m: crate::session::Meta,
    r: crate::step::Runbook,
    blobs: Seq<(Seq<char>, Seq<char>)>,
    version: Seq<char>,
) -> Seq<char> {
    let b = built(r, blobs, l);
    let body = if trim(b.out).len() == 0 { empty_play(l) } else { b.out };
    crate::text::trim_end(header_text(l, m.id@, version, play_title(m)) + body) + seq!['\n']
}

fn trim_end_string(s: &str) -> (r: String)
    ensures
        r@ == crate::text::trim_end(s@),
{
    let v = chars_of(s);
    let mut hi = v.len();
    while hi > 0 && crate::text::is_whitespace(v[hi - 1])
        invariant
            hi <= v@.len(),
            forall|k: int| hi <= k < v@.len() ==> crate::text::is_ws(#[trigger] v@[k]),
        decreases hi,
    {
        hi = hi - 1;
    }
    proof { crate::text::lemma_trim_end_take(v@, hi as int); }
    assert(hi > 0 ==> v@.take(hi as int).last() == v@[hi - 1]);
    let r = string_of(&v, 0, hi);
    assert(v@.subrange(0, hi as int) == v@.take(hi as int));
    r
}

fn header(input: &Input, msg: &crate::i18n::Messages) -> (r: String)
    ensures
        r@ == header_text(msg.locale, input.meta.id@, input.version@, play_title(*input.meta)),
{
    let mut intro = msg.playbook_header(input.meta.id.as_str(), input.version);
    push_char(&mut intro, '\n');
    push_str(&mut intro, msg.playbook_review());
    let ls = wrap(intro.as_str());
    let ghost w = strs(ls@);
    let ghost f = |x: Seq<char>| "# "@ + x + seq!['\n'];
    let mut out = crate::text::owned("---\n");
    let ghost start = out@;
    let mut i: usize = 0;
    assert(start + concat(w.take(0).map_values(f)) =~= out@);
    while i < ls.len()
        invariant
            i <= ls@.len(),
            w == strs(ls@),
            f == (|x: Seq<char>| "# "@ + x + seq!['\n']),
            out@ == start + concat(w.take(i as int).map_values(f)),
        decreases ls.len() - i,
    {
        proof {
            lemma_map_values_step(w, f, i as int);
            lemma_concat_push(w.take(i as int).map_values(f), f(w[i as int]));
        }
        assert(w[i as int] == ls@[i as int]@);
        push_str(&mut out, "# ");
        push_str(&mut out, ls[i].as_str());
        push_char(&mut out, '\n');
        assert(out@ =~= start + concat(w.take(i + 1).map_values(f)));
        i = i + 1;
    }
    assert(w.take(w.len() as int) == w);
    let title = match &input.meta.name {
        Some(n) => n.clone(),
        None => input.meta.id.clone(),
    };
    let name = prefixed("Exarare: ", title.as_str());
    push_str(&mut out, "\n- name: ");
    let sn = scalar(name.as_str());
    push_str(&mut out, sn.as_str());
    push_char(&mut out, '\n');
    push_str(&mut out, "  hosts: all\n");
    push_str(&mut out, "  become: true\n");
    push_str(&mut out, "  tasks:\n");
    assert(intro@ == crate::i18n::msg_playbook_header(msg.locale, input.meta.id@, input.version@) + seq!['\n']
        + crate::i18n::msg_playbook_review(msg.locale));
    assert(title@ == play_title(*input.meta));
    assert(out@ =~= header_text(msg.locale, input.meta.id@, input.version@, play_title(*input.meta)));
    out
}

fn has_rest_exec(runbook: &crate::step::Runbook) -> (r: bool)
    ensures
        r == has_rest(*runbook),
{
    let st = &runbook.state;
    runbook.other_packages.len() > 0 || runbook.other_files.len() > 0
        || st.firewall_services_added.len() > 0 || st.firewall_services_removed.len() > 0
        || st.firewall_ports_added.len() > 0 || st.firewall_ports_removed.len() > 0
        || st.users_added.len() > 0 || st.users_removed.len() > 0 || st.groups_added.len() > 0
        || st.groups_removed.len() > 0
}

impl<'a> Builder<'a> {
    /// Changes and packages no step claimed, plus firewall rules and
    /// accounts, which are session-wide.
    #[verifier::rlimit(60)]
    fn rest(&mut self, runbook: &crate::step::Runbook)
        ensures
            final(self).state() == rest_build(old(self).state(), *runbook, old(self).blobs.spec_texts(), old(self).msg.locale),
            final(self).blobs == old(self).blobs,
            final(self).msg == old(self).msg,
    {
        let ghost blobs = self.blobs.spec_texts();
        let ghost l = self.msg.locale;
        let ghost s0 = self.state();
        let st = &runbook.state;
        if !has_rest_exec(runbook) {
            return;
        }
        self.comment(self.msg.playbook_unattributed());
        self.packages(&runbook.other_packages);
        let ghost b2 = self.state();
        assert(b2 == add_out(add_out(s0, comment_text(crate::i18n::msg_playbook_unattributed(l))),
            packages_text(pkgs(runbook.other_packages@))));
        let ghost cs = changes(runbook.other_files@);
        let mut i: usize = 0;
        assert(cs.take(0) =~= Seq::<ChangeV>::empty());
        while i < runbook.other_files.len()
            invariant
                i <= runbook.other_files@.len(),
                cs == changes(runbook.other_files@),
                blobs == self.blobs.spec_texts(),
                l == self.msg.locale,
                self.blobs == old(self).blobs,
                self.msg == old(self).msg,
                self.state() == files_build(b2, cs.take(i as int), blobs, l),
            decreases runbook.other_files.len() - i,
        {
            assert(cs.take(i + 1).drop_last() == cs.take(i as int));
            assert(cs.take(i + 1).last() == runbook.other_files@[i as int]@);
            self.file(&runbook.other_files[i]);
            i = i + 1;
        }
        assert(cs.take(cs.len() as int) == cs);
        let ghost b3 = self.state();
        self.firewall(st);
        self.accounts(st);
        assert(self.state().out =~= b3.out + (firewall_text(*st) + accounts_text(*st)));
    }
}

fn build_tasks<'a>(
    runbook: &crate::step::Runbook,
    blobs: &'a crate::snapshot::Blobs,
    msg: &'a crate::i18n::Messages,
) -> (r: Builder<'a>)
    ensures
        r.state() == built(*runbook, blobs.spec_texts(), msg.locale),
        r.blobs == blobs,
        r.msg == msg,
{
    let ghost bt = blobs.spec_texts();
    let ghost l = msg.locale;
    let mut builder = Builder { out: String::new(), files: Vec::new(), warnings: Vec::new(), blobs, msg };
    let ghost b0 = BuildV { out: Seq::empty(), files: Seq::empty(), warnings: Seq::empty() };
    assert(builder.state().out =~= b0.out);
    assert(builder.state().files =~= b0.files);
    assert(builder.state().warnings =~= b0.warnings);
    assert(builder.state() == b0);
    let ghost sts = crate::step::steps(runbook.steps@);
    let mut k: usize = 0;
    assert(sts.take(0) =~= Seq::<StepV>::empty());
    while k < runbook.steps.len()
        invariant
            k <= runbook.steps@.len(),
            sts == crate::step::steps(runbook.steps@),
            bt == builder.blobs.spec_texts(),
            l == builder.msg.locale,
            builder.blobs == blobs,
            builder.msg == msg,
            builder.state() == steps_build(b0, sts.take(k as int), runbook.state, bt, l),
        decreases runbook.steps.len() - k,
    {
        assert(sts.take(k + 1).drop_last() == sts.take(k as int));
        assert(sts.take(k + 1).last() == runbook.steps@[k as int]@);
        builder.step(&runbook.steps[k], &runbook.state);
        k = k + 1;
    }
    assert(sts.take(sts.len() as int) == sts);
    builder.rest(runbook);
    builder
}

fn assemble(head: String, body: &str, msg: &crate::i18n::Messages) -> (r: String)
    ensures
        r@ == crate::text::trim_end(head@ + (if trim(body@).len() == 0 { empty_play(msg.locale) } else { body@ }))
            + seq!['\n'],
{
    let mut yaml = head;
    let ghost h = yaml@;
    let body_chars = chars_of(body);
    let trimmed = trim_chars(&body_chars);
    if trimmed.len() == 0 {
        push_str(&mut yaml, "    - name: Nothing was recorded to replay\n");
        push_str(&mut yaml, "      ansible.builtin.debug:\n");
        push_str(&mut yaml, "        msg: ");
        let sm = scalar(msg.playbook_empty());
        push_str(&mut yaml, sm.as_str());
        push_char(&mut yaml, '\n');
        assert(yaml@ =~= h + empty_play(msg.locale));
    } else {
        push_str(&mut yaml, body);
    }
    let mut out = trim_end_string(yaml.as_str());
    push_char(&mut out, '\n');
    out
}

/// The playbook of a session: a play whose tasks come from each step that
/// has work, then from what no step claimed and what belongs to the whole
/// session, with the files to copy and the warnings for a human.
pub fn render(input: &Input, msg: &crate::i18n::Messages) -> (r: Playbook)
    ensures
        r.yaml@ == yaml_text(msg.locale, *input.meta, *input.runbook, input.blobs.spec_texts(), input.version@),
        crate::snapshot::blob_pairs(r.files@) == built(*input.runbook, input.blobs.spec_texts(), msg.locale).files,
        strs(r.warnings@) == built(*input.runbook, input.blobs.spec_texts(), msg.locale).warnings,
{
    let builder = build_tasks(input.runbook, input.blobs, msg);
    let head = header(input, msg);
    let yaml = assemble(head, builder.out.as_str(), msg);
    Playbook { yaml, files: builder.files, warnings: builder.warnings }
}

// ----------------------------------------------------------------------------
// Laws.

/// How YAML reads the inside of a double-quoted scalar: a backslash takes
/// the character after it literally.
pub open spec fn unescaped(s: Seq<char>) -> Seq<char>
    decreases s.len(),
{
    if s.len() == 0 {
        Seq::empty()
    } else if s[0] == '\\' && s.len() > 1 {
        seq![s[1]] + unescaped(s.skip(2))
    } else {
        seq![s[0]] + unescaped(s.drop_first())
    }
}

proof fn lemma_escaped_front(v: Seq<char>)
    requires
        v.len() > 0,
    ensures
        escaped(v) == escape_char(v[0]) + escaped(v.drop_first()),
{
    let f = |c: char| escape_char(c);
    assert(v.map_values(f) =~= seq![escape_char(v[0])] + v.drop_first().map_values(f));
    crate::text::lemma_concat_add(seq![escape_char(v[0])], v.drop_first().map_values(f));
    let one = seq![escape_char(v[0])];
    assert(one.drop_last() =~= Seq::<Seq<char>>::empty());
    assert(concat(one.drop_last()) =~= Seq::<char>::empty());
    assert(one.last() == escape_char(v[0]));
    assert(concat(one) == concat(one.drop_last()) + one.last());
    assert(concat(one) =~= escape_char(v[0]));
}

proof fn lemma_files_build_same(
    b1: BuildV, b2: BuildV, cs: Seq<ChangeV>, blobs: Seq<(Seq<char>, Seq<char>)>,
    l1: crate::i18n::Locale, l2: crate::i18n::Locale,
)
    requires
        b1.files == b2.files,
    ensures
        files_build(b1, cs, blobs, l1).files == files_build(b2, cs, blobs, l2).files,
    decreases cs.len(),
{
    if cs.len() > 0 {
        lemma_files_build_same(b1, b2, cs.drop_last(), blobs, l1, l2);
    }
}

proof fn lemma_commands_build_files(b: BuildV, rs: Seq<crate::step::RunV>, st: StepV, l: crate::i18n::Locale)
    ensures
        commands_build(b, rs, st, l).files == b.files,
    decreases rs.len(),
{
    if rs.len() > 0 {
        lemma_commands_build_files(b, rs.drop_last(), st, l);
    }
}

proof fn lemma_steps_build_same(
    b1: BuildV, b2: BuildV, sts: Seq<StepV>, d: crate::state::Diff,
    blobs: Seq<(Seq<char>, Seq<char>)>, l1: crate::i18n::Locale, l2: crate::i18n::Locale,
)
    requires
        b1.files == b2.files,
    ensures
        steps_build(b1, sts, d, blobs, l1).files == steps_build(b2, sts, d, blobs, l2).files,
    decreases sts.len(),
{
    if sts.len() > 0 {
        lemma_steps_build_same(b1, b2, sts.drop_last(), d, blobs, l1, l2);
        let p1 = steps_build(b1, sts.drop_last(), d, blobs, l1);
        let p2 = steps_build(b2, sts.drop_last(), d, blobs, l2);
        let st = sts.last();
        if has_work(st) {
            let c1 = match st.title {
                Some(t) => add_out(p1, comment_text(crate::i18n::msg_playbook_step(l1, t))),
                None => p1,
            };
            let c2 = match st.title {
                Some(t) => add_out(p2, comment_text(crate::i18n::msg_playbook_step(l2, t))),
                None => p2,
            };
            let f1 = files_build(add_out(c1, packages_text(st.packages)), st.files, blobs, l1);
            let f2 = files_build(add_out(c2, packages_text(st.packages)), st.files, blobs, l2);
            lemma_files_build_same(
                add_out(c1, packages_text(st.packages)), add_out(c2, packages_text(st.packages)),
                st.files, blobs, l1, l2,
            );
            lemma_commands_build_files(add_out(f1, units_text(d, st.state)), crate::step::commands_of(st.items), st, l1);
            lemma_commands_build_files(add_out(f2, units_text(d, st.state)), crate::step::commands_of(st.items), st, l2);
        }
    }
}

/// The files a playbook copies do not depend on the language its comments
/// are written in: recorded content is never translated.
pub proof fn law_files_ignore_the_language(
    r: crate::step::Runbook,
    blobs: Seq<(Seq<char>, Seq<char>)>,
    l1: crate::i18n::Locale,
    l2: crate::i18n::Locale,
)
    ensures
        built(r, blobs, l1).files == built(r, blobs, l2).files,
{
    let b0 = BuildV { out: Seq::empty(), files: Seq::empty(), warnings: Seq::empty() };
    let sts = crate::step::steps(r.steps@);
    lemma_steps_build_same(b0, b0, sts, r.state, blobs, l1, l2);
    let s1 = steps_build(b0, sts, r.state, blobs, l1);
    let s2 = steps_build(b0, sts, r.state, blobs, l2);
    if has_rest(r) {
        let a1 = add_out(add_out(s1, comment_text(crate::i18n::msg_playbook_unattributed(l1))), packages_text(pkgs(r.other_packages@)));
        let a2 = add_out(add_out(s2, comment_text(crate::i18n::msg_playbook_unattributed(l2))), packages_text(pkgs(r.other_packages@)));
        lemma_files_build_same(a1, a2, changes(r.other_files@), blobs, l1, l2);
    }
}


/// A quoted scalar reads back as the value it was made from: quoting never
/// changes what the playbook says.
pub proof fn law_scalar_reads_back(v: Seq<char>)
    ensures
        unescaped(escaped(v)) == v,
        needs_quotes(v) ==> scalar_text(v) == seq!['"'] + escaped(v) + seq!['"'],
        !needs_quotes(v) ==> scalar_text(v) == v,
    decreases v.len(),
{
    if v.len() == 0 {
        assert(v.map_values(|c: char| escape_char(c)) =~= Seq::<Seq<char>>::empty());
        assert(escaped(v) =~= Seq::<char>::empty());
        assert(v =~= Seq::<char>::empty());
    } else {
        law_scalar_reads_back(v.drop_first());
        lemma_escaped_front(v);
        let rest = escaped(v.drop_first());
        let s = escaped(v);
        if v[0] == '\\' || v[0] == '"' {
            assert(s[0] == '\\' && s[1] == v[0]);
            assert(s.skip(2) =~= rest);
        } else {
            assert(s[0] == v[0]);
            assert(s.drop_first() =~= rest);
        }
        assert(seq![v[0]] + v.drop_first() =~= v);
    }
}

/// A line with no white space: a single word.
pub open spec fn one_word(l: Seq<char>) -> bool {
    forall|j: int| 0 <= j < l.len() ==> !crate::text::is_ws(#[trigger] l[j])
}

/// A comment line is short enough for ansible-lint, or a single word that
/// is longer than the width by itself.
pub open spec fn fits(l: Seq<char>) -> bool {
    l.len() <= COMMENT_WIDTH || one_word(l)
}

proof fn lemma_words_nonempty(s: Seq<char>)
    requires
        s.len() > 0,
        !crate::text::is_ws(s.last()),
    ensures
        words(s).len() > 0,
    decreases s.len(),
{
    if s.len() > 1 && !crate::text::is_ws(s.drop_last().last()) {
        lemma_words_nonempty(s.drop_last());
    }
}

proof fn lemma_words_one_word(s: Seq<char>)
    ensures
        forall|i: int| 0 <= i < words(s).len() ==> one_word(#[trigger] words(s)[i]),
    decreases s.len(),
{
    if s.len() > 0 {
        lemma_words_one_word(s.drop_last());
        let init = words(s.drop_last());
        let c = s.last();
        if !crate::text::is_ws(c) && !(s.len() == 1 || crate::text::is_ws(s.drop_last().last())) {
            lemma_words_nonempty(s.drop_last());
            let w = init.last().push(c);
            assert(one_word(init[init.len() - 1]));
            assert(one_word(w));
        }
        if !crate::text::is_ws(c) && (s.len() == 1 || crate::text::is_ws(s.drop_last().last())) {
            assert(one_word(seq![c]));
        }
    }
}

proof fn lemma_fill_fits(ws: Seq<Seq<char>>)
    requires
        forall|i: int| 0 <= i < ws.len() ==> one_word(#[trigger] ws[i]),
    ensures
        forall|i: int| 0 <= i < fill(ws).0.len() ==> fits(#[trigger] fill(ws).0[i]),
        fits(fill(ws).1),
    decreases ws.len(),
{
    if ws.len() > 0 {
        assert forall|i: int| 0 <= i < ws.drop_last().len() implies one_word(#[trigger] ws.drop_last()[i]) by {
            assert(ws.drop_last()[i] == ws[i]);
        }
        lemma_fill_fits(ws.drop_last());
        assert(one_word(ws[ws.len() - 1]));
    } else {
        assert(one_word(Seq::<char>::empty()));
    }
}

proof fn lemma_flatten_fits(s: Seq<Seq<Seq<char>>>)
    requires
        forall|i: int, j: int| 0 <= i < s.len() && 0 <= j < s[i].len() ==> fits(#[trigger] s[i][j]),
    ensures
        forall|k: int| 0 <= k < flatten(s).len() ==> fits(#[trigger] flatten(s)[k]),
    decreases s.len(),
{
    if s.len() > 0 {
        assert forall|i: int, j: int| 0 <= i < s.drop_last().len() && 0 <= j < s.drop_last()[i].len()
            implies fits(#[trigger] s.drop_last()[i][j]) by {
            assert(s.drop_last()[i] == s[i]);
        }
        lemma_flatten_fits(s.drop_last());
        let a = flatten(s.drop_last());
        assert forall|k: int| 0 <= k < flatten(s).len() implies fits(#[trigger] flatten(s)[k]) by {
            if k < a.len() {
                assert(flatten(s)[k] == a[k]);
            } else {
                assert(flatten(s)[k] == s[s.len() - 1][k - a.len()]);
            }
        }
    }
}

/// Every line of a wrapped comment fits the width that ansible-lint allows,
/// unless it is a single word longer than that by itself.
pub proof fn law_wrapped_lines_fit(text: Seq<char>)
    ensures
        forall|k: int| 0 <= k < wrapped(text).len() ==> fits(#[trigger] wrapped(text)[k]),
{
    let ps = lines(text).map_values(|p: Seq<char>| wrap_paragraph(p));
    assert forall|i: int, j: int| 0 <= i < ps.len() && 0 <= j < ps[i].len() implies fits(#[trigger] ps[i][j]) by {
        let p = lines(text)[i];
        lemma_words_one_word(p);
        lemma_fill_fits(words(p));
        let f = fill(words(p));
        assert(ps[i] == f.0.push(f.1));
        if j < f.0.len() {
            assert(ps[i][j] == f.0[j]);
        }
    }
    lemma_flatten_fits(ps);
}

proof fn lemma_words_nonempty_each(s: Seq<char>)
    ensures
        forall|i: int| 0 <= i < words(s).len() ==> (#[trigger] words(s)[i]).len() > 0,
    decreases s.len(),
{
    if s.len() > 0 {
        lemma_words_nonempty_each(s.drop_last());
        let init = words(s.drop_last());
        let c = s.last();
        if !crate::text::is_ws(c) && !(s.len() == 1 || crate::text::is_ws(s.drop_last().last())) {
            lemma_words_nonempty(s.drop_last());
            assert(init[init.len() - 1].len() > 0);
        }
    }
}

/// The words of a paragraph, one space apart.
pub open spec fn spaced(xs: Seq<Seq<char>>) -> Seq<char> {
    crate::markdown::joined(seq![' '], xs)
}

proof fn lemma_spaced_push(d: Seq<Seq<char>>, y: Seq<char>)
    ensures
        d.len() == 0 ==> spaced(d.push(y)) == y,
        d.len() > 0 ==> spaced(d.push(y)) == spaced(d) + seq![' '] + y,
{
    assert(d.push(y).drop_last() == d);
    if d.len() == 0 {
        assert(d.push(y).len() == 1);
    }
}

proof fn lemma_fill_kept(ws: Seq<Seq<char>>)
    requires
        forall|i: int| 0 <= i < ws.len() ==> (#[trigger] ws[i]).len() > 0,
    ensures
        ws.len() == 0 ==> fill(ws).0.len() == 0 && fill(ws).1.len() == 0,
        ws.len() > 0 ==> fill(ws).1.len() > 0 && spaced(fill(ws).0.push(fill(ws).1)) == spaced(ws),
    decreases ws.len(),
{
    if ws.len() > 0 {
        let rest = ws.drop_last();
        assert forall|i: int| 0 <= i < rest.len() implies (#[trigger] rest[i]).len() > 0 by {
            assert(rest[i] == ws[i]);
        }
        lemma_fill_kept(rest);
        let f = fill(rest);
        let w = ws.last();
        assert(w.len() > 0);
        lemma_spaced_push(rest, w);
        assert(rest.push(w) == ws);
        if rest.len() > 0 {
            let cur = f.1;
            if cur.len() + 1 + w.len() > COMMENT_WIDTH {
                lemma_spaced_push(f.0.push(cur), w);
            } else {
                lemma_spaced_push(f.0, cur + seq![' '] + w);
                lemma_spaced_push(f.0, cur);
                assert(spaced(f.0.push(cur + seq![' '] + w)) =~= spaced(f.0.push(cur)) + seq![' '] + w);
            }
        } else {
            lemma_spaced_push(f.0, w);
        }
    }
}

/// The first word of each line as `fill` builds them: of the lines done,
/// and of the line under way.
pub open spec fn fill_starts(ws: Seq<Seq<char>>) -> (Seq<Seq<char>>, Seq<char>)
    decreases ws.len(),
{
    if ws.len() == 0 {
        (Seq::empty(), Seq::empty())
    } else {
        let prev = fill_starts(ws.drop_last());
        let cur = fill(ws.drop_last()).1;
        let w = ws.last();
        if cur.len() > 0 && cur.len() + 1 + w.len() > COMMENT_WIDTH {
            (prev.0.push(prev.1), w)
        } else if cur.len() > 0 {
            prev
        } else {
            (prev.0, w)
        }
    }
}

/// The first word of each line of a wrapped paragraph.
pub open spec fn line_starts(p: Seq<char>) -> Seq<Seq<char>> {
    fill_starts(words(p)).0.push(fill_starts(words(p)).1)
}

proof fn lemma_prefix_extend(a: Seq<char>, b: Seq<char>, c: Seq<char>)
    requires
        a.is_prefix_of(b),
    ensures
        a.is_prefix_of(b + c),
{
    assert((b + c).subrange(0, a.len() as int) =~= b.subrange(0, a.len() as int));
}

proof fn lemma_fill_greedy(ws: Seq<Seq<char>>)
    requires
        forall|i: int| 0 <= i < ws.len() ==> (#[trigger] ws[i]).len() > 0,
    ensures
        fill_starts(ws).0.len() == fill(ws).0.len(),
        forall|k: int| 0 <= k < fill(ws).0.len() ==> (#[trigger] fill_starts(ws).0[k]).is_prefix_of(fill(ws).0[k])
            && ws.contains(fill_starts(ws).0[k]),
        ws.len() > 0 ==> fill_starts(ws).1.is_prefix_of(fill(ws).1) && ws.contains(fill_starts(ws).1),
        forall|k: int| 0 <= k < fill(ws).0.len() ==> (#[trigger] fill(ws).0[k]).len() + 1 + (if k + 1 < fill(ws).0.len() {
            fill_starts(ws).0[k + 1]
        } else {
            fill_starts(ws).1
        }).len() > COMMENT_WIDTH,
    decreases ws.len(),
{
    if ws.len() > 0 {
        let rest = ws.drop_last();
        assert forall|i: int| 0 <= i < rest.len() implies (#[trigger] rest[i]).len() > 0 by {
            assert(rest[i] == ws[i]);
        }
        lemma_fill_greedy(rest);
        lemma_fill_kept(rest);
        let f = fill(rest);
        let st = fill_starts(rest);
        let w = ws.last();
        let cur = f.1;
        assert(ws.contains(w)) by {
            assert(ws[ws.len() - 1] == w);
        }
        assert forall|x: Seq<char>| rest.contains(x) implies ws.contains(x) by {
            let i = choose|i: int| 0 <= i < rest.len() && rest[i] == x;
            assert(ws[i] == x);
        }
        assert(w.is_prefix_of(w)) by {
            assert(w.subrange(0, w.len() as int) =~= w);
        }
        if cur.len() > 0 && cur.len() + 1 + w.len() > COMMENT_WIDTH {
            assert(fill(ws).0 == f.0.push(cur));
            assert(fill_starts(ws).0 == st.0.push(st.1));
        } else if cur.len() > 0 {
            lemma_prefix_extend(st.1, cur, seq![' '] + w);
            assert(cur + seq![' '] + w == cur + (seq![' '] + w));
        } else {
            assert(rest.len() == 0);
        }
    }
}

/// Wrapping keeps the words of each line of the comment, in their order and
/// one space apart, and breaks a line only where the next word would not fit:
/// each wrapped line starts with a word of the paragraph, and a line that is
/// followed by another could not have taken that line's first word.
pub proof fn law_wrapping_keeps_words_and_is_greedy(p: Seq<char>)
    ensures
        words(p).len() > 0 ==> spaced(wrap_paragraph(p)) == spaced(words(p)),
        words(p).len() == 0 ==> wrap_paragraph(p) == seq![Seq::<char>::empty()],
        line_starts(p).len() == wrap_paragraph(p).len(),
        forall|k: int| 0 <= k < wrap_paragraph(p).len() ==> (#[trigger] line_starts(p)[k]).is_prefix_of(wrap_paragraph(p)[k]),
        words(p).len() > 0 ==> forall|k: int| 0 <= k < wrap_paragraph(p).len() ==> words(p).contains(#[trigger] line_starts(p)[k]),
        forall|k: int| 0 <= k < wrap_paragraph(p).len() - 1 ==> (#[trigger] wrap_paragraph(p)[k]).len() + 1 + line_starts(p)[k + 1].len() > COMMENT_WIDTH,
{
    let ws = words(p);
    lemma_words_nonempty_each(p);
    lemma_fill_kept(ws);
    lemma_fill_greedy(ws);
    let f = fill(ws);
    let st = fill_starts(ws);
    assert(wrap_paragraph(p) == f.0.push(f.1));
    assert(line_starts(p) == st.0.push(st.1));
    if ws.len() == 0 {
        assert(wrap_paragraph(p) =~= seq![Seq::<char>::empty()]);
        assert(Seq::<char>::empty().is_prefix_of(Seq::<char>::empty()));
    }
    assert forall|k: int| 0 <= k < wrap_paragraph(p).len() implies (#[trigger] line_starts(p)[k]).is_prefix_of(wrap_paragraph(p)[k]) by {
        if k < f.0.len() {
            assert(line_starts(p)[k] == st.0[k]);
            assert(wrap_paragraph(p)[k] == f.0[k]);
        } else if ws.len() == 0 {
            assert(st.1.subrange(0, 0) =~= Seq::<char>::empty());
        }
    }
    assert forall|k: int| 0 <= k < wrap_paragraph(p).len() - 1 implies (#[trigger] wrap_paragraph(p)[k]).len() + 1 + line_starts(p)[k + 1].len() > COMMENT_WIDTH by {
        assert(wrap_paragraph(p)[k] == f.0[k]);
        if k + 1 < f.0.len() {
            assert(line_starts(p)[k + 1] == st.0[k + 1]);
        } else {
            assert(line_starts(p)[k + 1] == st.1);
        }
    }
}

/// One firewalld task of the playbook: named `title` and the item, with the
/// item under `key`, made permanent and immediate, and left in `state`.
pub open spec fn firewalld_task(title: Seq<char>, key: Seq<char>, state: Seq<char>, x: Seq<char>) -> Seq<char> {
    "    - name: "@ + scalar_text(title + x) + seq!['\n'] + "      "@ + "ansible.posix.firewalld"@ + ":\n"@
        + "        "@ + key + ": "@ + scalar_text(x) + seq!['\n']
        + "        "@ + "permanent"@ + ": "@ + "true"@ + seq!['\n']
        + "        "@ + "immediate"@ + ": "@ + "true"@ + seq!['\n']
        + "        "@ + "state"@ + ": "@ + state + seq!['\n']
}

proof fn lemma_rules_empty(title: Seq<char>, key: Seq<char>, state: Seq<char>, xs: Seq<Seq<char>>)
    requires
        xs.len() == 0,
    ensures
        firewall_rules(title, key, state, xs).len() == 0,
{
    assert(xs.map_values(|x: Seq<char>| firewall_rule(title, key, state, x)).len() == 0);
}

/// What the firewall rules hold, the playbook's tasks hold.
proof fn lemma_firewall_in_built(
    r: crate::step::Runbook,
    blobs: Seq<(Seq<char>, Seq<char>)>,
    l: crate::i18n::Locale,
    n: Seq<char>,
)
    requires
        contains(firewall_text(r.state), n),
    ensures
        contains(built(r, blobs, l).out, n),
{
    if has_rest(r) {
        let b0 = BuildV { out: Seq::empty(), files: Seq::empty(), warnings: Seq::empty() };
        let bs = steps_build(b0, crate::step::steps(r.steps@), r.state, blobs, l);
        let b1 = add_out(bs, comment_text(crate::i18n::msg_playbook_unattributed(l)));
        let b2 = add_out(b1, packages_text(pkgs(r.other_packages@)));
        let b3 = files_build(b2, changes(r.other_files@), blobs, l);
        assert(built(r, blobs, l).out == b3.out + (firewall_text(r.state) + accounts_text(r.state)));
        crate::text::lemma_contains_within(b3.out, firewall_text(r.state), accounts_text(r.state), n);
        assert(b3.out + (firewall_text(r.state) + accounts_text(r.state)) =~= b3.out + firewall_text(r.state)
            + accounts_text(r.state));
    } else {
        lemma_rules_empty("Open firewall service "@, "service"@, "enabled"@, strs(r.state.firewall_services_added@));
        lemma_rules_empty("Close firewall service "@, "service"@, "disabled"@, strs(r.state.firewall_services_removed@));
        lemma_rules_empty("Open port "@, "port"@, "enabled"@, strs(r.state.firewall_ports_added@));
        lemma_rules_empty("Close port "@, "port"@, "disabled"@, strs(r.state.firewall_ports_removed@));
        let i = choose|i: int| crate::text::occurs_at(firewall_text(r.state), n, i);
        assert(n.len() == 0);
        assert(built(r, blobs, l).out.subrange(0, 0) =~= n);
        assert(crate::text::occurs_at(built(r, blobs, l).out, n, 0));
    }
}

proof fn lemma_rule_is_task(title: Seq<char>, key: Seq<char>, state: Seq<char>, x: Seq<char>)
    ensures
        firewall_rule(title, key, state, x) == firewalld_task(title, key, state, x) + seq!['\n'],
{
    assert(firewall_rule(title, key, state, x) =~= firewalld_task(title, key, state, x) + seq!['\n']);
}

#[verifier::spinoff_prover]
proof fn lemma_task_in_rules(title: Seq<char>, key: Seq<char>, state: Seq<char>, xs: Seq<Seq<char>>, k: int)
    requires
        0 <= k < xs.len(),
    ensures
        contains(firewall_rules(title, key, state, xs), firewalld_task(title, key, state, xs[k])),
{
    let f = |x: Seq<char>| firewall_rule(title, key, state, x);
    let rules = xs.map_values(f);
    let rule = firewall_rule(title, key, state, xs[k]);
    let task = firewalld_task(title, key, state, xs[k]);
    assert(rules[k] == rule);
    lemma_rule_is_task(title, key, state, xs[k]);
    crate::text::lemma_concat_contains(rules, k);
    let i = choose|i: int| crate::text::occurs_at(concat(rules), rule, i);
    assert(concat(rules).subrange(i, i + task.len()) =~= rule.subrange(0, task.len() as int));
    assert(rule.subrange(0, task.len() as int) =~= task);
    assert(crate::text::occurs_at(concat(rules), task, i));
}

/// A rule of one of the four firewall lists is a task of the playbook.
#[verifier::spinoff_prover]
proof fn lemma_task_in_built(
    r: crate::step::Runbook,
    blobs: Seq<(Seq<char>, Seq<char>)>,
    l: crate::i18n::Locale,
    pre: Seq<char>,
    title: Seq<char>,
    key: Seq<char>,
    state: Seq<char>,
    xs: Seq<Seq<char>>,
    post: Seq<char>,
    k: int,
)
    requires
        0 <= k < xs.len(),
        firewall_text(r.state) == pre + firewall_rules(title, key, state, xs) + post,
    ensures
        contains(built(r, blobs, l).out, firewalld_task(title, key, state, xs[k])),
{
    lemma_task_in_rules(title, key, state, xs, k);
    let task = firewalld_task(title, key, state, xs[k]);
    crate::text::lemma_contains_within(pre, firewall_rules(title, key, state, xs), post, task);
    lemma_firewall_in_built(r, blobs, l, task);
}

/// Every firewalld task of the playbook matches the change it stands for: a
/// service or port opened during the session gets `state: enabled`, one
/// closed gets `state: disabled`.
pub proof fn law_firewall_tasks_follow_the_change(
    r: crate::step::Runbook,
    blobs: Seq<(Seq<char>, Seq<char>)>,
    l: crate::i18n::Locale,
)
    ensures
        forall|k: int|
            #![trigger r.state.firewall_services_added@[k]]
            0 <= k < r.state.firewall_services_added@.len() ==> contains(
                built(r, blobs, l).out,
                firewalld_task("Open firewall service "@, "service"@, "enabled"@, r.state.firewall_services_added@[k]@),
            ),
        forall|k: int|
            #![trigger r.state.firewall_services_removed@[k]]
            0 <= k < r.state.firewall_services_removed@.len() ==> contains(
                built(r, blobs, l).out,
                firewalld_task("Close firewall service "@, "service"@, "disabled"@, r.state.firewall_services_removed@[k]@),
            ),
        forall|k: int|
            #![trigger r.state.firewall_ports_added@[k]]
            0 <= k < r.state.firewall_ports_added@.len() ==> contains(
                built(r, blobs, l).out,
                firewalld_task("Open port "@, "port"@, "enabled"@, r.state.firewall_ports_added@[k]@),
            ),
        forall|k: int|
            #![trigger r.state.firewall_ports_removed@[k]]
            0 <= k < r.state.firewall_ports_removed@.len() ==> contains(
                built(r, blobs, l).out,
                firewalld_task("Close port "@, "port"@, "disabled"@, r.state.firewall_ports_removed@[k]@),
            ),
{
    let d = r.state;
    let sa = firewall_rules("Open firewall service "@, "service"@, "enabled"@, strs(d.firewall_services_added@));
    let sr = firewall_rules("Close firewall service "@, "service"@, "disabled"@, strs(d.firewall_services_removed@));
    let pa = firewall_rules("Open port "@, "port"@, "enabled"@, strs(d.firewall_ports_added@));
    let pr = firewall_rules("Close port "@, "port"@, "disabled"@, strs(d.firewall_ports_removed@));
    let e = Seq::<char>::empty();
    assert(firewall_text(d) =~= e + sa + (sr + pa + pr));
    assert(firewall_text(d) =~= sa + sr + (pa + pr));
    assert(firewall_text(d) =~= (sa + sr) + pa + pr);
    assert(firewall_text(d) =~= (sa + sr + pa) + pr + e);
    assert forall|k: int|
        #![trigger r.state.firewall_services_added@[k]]
        0 <= k < r.state.firewall_services_added@.len() implies contains(
            built(r, blobs, l).out,
            firewalld_task("Open firewall service "@, "service"@, "enabled"@, r.state.firewall_services_added@[k]@),
        ) by {
        let xs = strs(d.firewall_services_added@);
        assert(xs[k] == r.state.firewall_services_added@[k]@);
        lemma_task_in_built(r, blobs, l, e, "Open firewall service "@, "service"@, "enabled"@, xs, sr + pa + pr, k);
    }
    assert forall|k: int|
        #![trigger r.state.firewall_services_removed@[k]]
        0 <= k < r.state.firewall_services_removed@.len() implies contains(
            built(r, blobs, l).out,
            firewalld_task("Close firewall service "@, "service"@, "disabled"@, r.state.firewall_services_removed@[k]@),
        ) by {
        let xs = strs(d.firewall_services_removed@);
        assert(xs[k] == r.state.firewall_services_removed@[k]@);
        lemma_task_in_built(r, blobs, l, sa, "Close firewall service "@, "service"@, "disabled"@, xs, pa + pr, k);
    }
    assert forall|k: int|
        #![trigger r.state.firewall_ports_added@[k]]
        0 <= k < r.state.firewall_ports_added@.len() implies contains(
            built(r, blobs, l).out,
            firewalld_task("Open port "@, "port"@, "enabled"@, r.state.firewall_ports_added@[k]@),
        ) by {
        let xs = strs(d.firewall_ports_added@);
        assert(xs[k] == r.state.firewall_ports_added@[k]@);
        lemma_task_in_built(r, blobs, l, sa + sr, "Open port "@, "port"@, "enabled"@, xs, pr, k);
    }
    assert forall|k: int|
        #![trigger r.state.firewall_ports_removed@[k]]
        0 <= k < r.state.firewall_ports_removed@.len() implies contains(
            built(r, blobs, l).out,
            firewalld_task("Close port "@, "port"@, "disabled"@, r.state.firewall_ports_removed@[k]@),
        ) by {
        let xs = strs(d.firewall_ports_removed@);
        assert(xs[k] == r.state.firewall_ports_removed@[k]@);
        lemma_task_in_built(r, blobs, l, sa + sr + pa, "Close port "@, "port"@, "disabled"@, xs, e, k);
    }
}

/// What the account tasks hold, the playbook's tasks hold.
proof fn lemma_accounts_in_built(
    r: crate::step::Runbook,
    blobs: Seq<(Seq<char>, Seq<char>)>,
    l: crate::i18n::Locale,
    n: Seq<char>,
)
    requires
        has_rest(r),
        contains(accounts_text(r.state), n),
    ensures
        contains(built(r, blobs, l).out, n),
{
    let b0 = BuildV { out: Seq::empty(), files: Seq::empty(), warnings: Seq::empty() };
    let bs = steps_build(b0, crate::step::steps(r.steps@), r.state, blobs, l);
    let b1 = add_out(bs, comment_text(crate::i18n::msg_playbook_unattributed(l)));
    let b2 = add_out(b1, packages_text(pkgs(r.other_packages@)));
    let b3 = files_build(b2, changes(r.other_files@), blobs, l);
    assert(built(r, blobs, l).out == b3.out + (firewall_text(r.state) + accounts_text(r.state)));
    crate::text::lemma_contains_within(b3.out + firewall_text(r.state), accounts_text(r.state), Seq::empty(), n);
    assert(b3.out + (firewall_text(r.state) + accounts_text(r.state)) =~= b3.out + firewall_text(r.state)
        + accounts_text(r.state) + Seq::<char>::empty());
}

/// An item of a list is in the concatenation of what each item gives.
proof fn lemma_item_text_in<T>(xs: Seq<T>, f: spec_fn(T) -> Seq<char>, k: int)
    requires
        0 <= k < xs.len(),
    ensures
        contains(concat(xs.map_values(f)), f(xs[k])),
{
    assert(xs.map_values(f)[k] == f(xs[k]));
    crate::text::lemma_concat_contains(xs.map_values(f), k);
}

/// Every account task of the playbook matches the change it stands for: a
/// user or group created during the session is made `present` with the name,
/// ids, home and shell it was created with; one removed is made `absent`.
pub proof fn law_account_tasks_follow_the_change(
    r: crate::step::Runbook,
    blobs: Seq<(Seq<char>, Seq<char>)>,
    l: crate::i18n::Locale,
)
    ensures
        forall|k: int|
            #![trigger r.state.users_added@[k]]
            0 <= k < r.state.users_added@.len() ==> contains(built(r, blobs, l).out, ({
                let u = r.state.users_added@[k];
                task_text("Create user "@ + u.name@, "ansible.builtin.user"@) + arg_text("name"@, scalar_text(u.name@))
                    + arg_text("uid"@, crate::text::decimal(u.uid as nat)) + arg_text("home"@, scalar_text(u.home@))
                    + arg_text("shell"@, scalar_text(u.shell@)) + arg_text("state"@, "present"@)
            })),
        forall|k: int|
            #![trigger r.state.users_removed@[k]]
            0 <= k < r.state.users_removed@.len() ==> contains(built(r, blobs, l).out, ({
                let u = r.state.users_removed@[k];
                task_text("Remove user "@ + u.name@, "ansible.builtin.user"@) + arg_text("name"@, scalar_text(u.name@))
                    + arg_text("state"@, "absent"@)
            })),
        forall|k: int|
            #![trigger r.state.groups_added@[k]]
            0 <= k < r.state.groups_added@.len() ==> contains(built(r, blobs, l).out, ({
                let g = r.state.groups_added@[k];
                task_text("Create group "@ + g.name@, "ansible.builtin.group"@) + arg_text("name"@, scalar_text(g.name@))
                    + arg_text("gid"@, crate::text::decimal(g.gid as nat)) + arg_text("state"@, "present"@)
            })),
        forall|k: int|
            #![trigger r.state.groups_removed@[k]]
            0 <= k < r.state.groups_removed@.len() ==> contains(built(r, blobs, l).out, ({
                let g = r.state.groups_removed@[k];
                task_text("Remove group "@ + g.name@, "ansible.builtin.group"@) + arg_text("name"@, scalar_text(g.name@))
                    + arg_text("state"@, "absent"@)
            })),
{
    let d = r.state;
    let ga = concat(crate::state::groups(d.groups_added@).map_values(|g: crate::state::GroupV| group_created(g)));
    let ua = concat(crate::state::users(d.users_added@).map_values(|u: crate::state::UserV| user_created(u)));
    let ur = concat(crate::state::users(d.users_removed@).map_values(|u: crate::state::UserV| user_removed(u)));
    let gr = concat(crate::state::groups(d.groups_removed@).map_values(|g: crate::state::GroupV| group_removed(g)));
    let e = Seq::<char>::empty();
    assert(accounts_text(d) == ga + ua + ur + gr);
    assert forall|k: int|
        #![trigger r.state.users_added@[k]]
        0 <= k < r.state.users_added@.len() implies contains(built(r, blobs, l).out, ({
            let u = r.state.users_added@[k];
            task_text("Create user "@ + u.name@, "ansible.builtin.user"@) + arg_text("name"@, scalar_text(u.name@))
                + arg_text("uid"@, crate::text::decimal(u.uid as nat)) + arg_text("home"@, scalar_text(u.home@))
                + arg_text("shell"@, scalar_text(u.shell@)) + arg_text("state"@, "present"@)
        })) by {
        let u = r.state.users_added@[k];
        let xs = crate::state::users(d.users_added@);
        assert(xs[k] == u@);
        let t = task_text("Create user "@ + u.name@, "ansible.builtin.user"@) + arg_text("name"@, scalar_text(u.name@))
            + arg_text("uid"@, crate::text::decimal(u.uid as nat)) + arg_text("home"@, scalar_text(u.home@))
            + arg_text("shell"@, scalar_text(u.shell@)) + arg_text("state"@, "present"@);
        lemma_item_text_in(xs, |u: crate::state::UserV| user_created(u), k);
        assert(user_created(xs[k]) =~= e + t + seq!['\n']);
        crate::text::lemma_contains_part(ua, e, t, seq!['\n']);
        crate::text::lemma_contains_within(ga, ua, ur + gr, t);
        assert(ga + ua + (ur + gr) =~= accounts_text(d));
        lemma_accounts_in_built(r, blobs, l, t);
    }
    assert forall|k: int|
        #![trigger r.state.users_removed@[k]]
        0 <= k < r.state.users_removed@.len() implies contains(built(r, blobs, l).out, ({
            let u = r.state.users_removed@[k];
            task_text("Remove user "@ + u.name@, "ansible.builtin.user"@) + arg_text("name"@, scalar_text(u.name@))
                + arg_text("state"@, "absent"@)
        })) by {
        let u = r.state.users_removed@[k];
        let xs = crate::state::users(d.users_removed@);
        assert(xs[k] == u@);
        let t = task_text("Remove user "@ + u.name@, "ansible.builtin.user"@) + arg_text("name"@, scalar_text(u.name@))
            + arg_text("state"@, "absent"@);
        lemma_item_text_in(xs, |u: crate::state::UserV| user_removed(u), k);
        assert(user_removed(xs[k]) =~= e + t + seq!['\n']);
        crate::text::lemma_contains_part(ur, e, t, seq!['\n']);
        crate::text::lemma_contains_within(ga + ua, ur, gr, t);
        assert(ga + ua + ur + gr =~= accounts_text(d));
        lemma_accounts_in_built(r, blobs, l, t);
    }
    assert forall|k: int|
        #![trigger r.state.groups_added@[k]]
        0 <= k < r.state.groups_added@.len() implies contains(built(r, blobs, l).out, ({
            let g = r.state.groups_added@[k];
            task_text("Create group "@ + g.name@, "ansible.builtin.group"@) + arg_text("name"@, scalar_text(g.name@))
                + arg_text("gid"@, crate::text::decimal(g.gid as nat)) + arg_text("state"@, "present"@)
        })) by {
        let g = r.state.groups_added@[k];
        let xs = crate::state::groups(d.groups_added@);
        assert(xs[k] == g@);
        let t = task_text("Create group "@ + g.name@, "ansible.builtin.group"@) + arg_text("name"@, scalar_text(g.name@))
            + arg_text("gid"@, crate::text::decimal(g.gid as nat)) + arg_text("state"@, "present"@);
        lemma_item_text_in(xs, |g: crate::state::GroupV| group_created(g), k);
        assert(group_created(xs[k]) =~= e + t + seq!['\n']);
        crate::text::lemma_contains_part(ga, e, t, seq!['\n']);
        crate::text::lemma_contains_within(e, ga, ua + ur + gr, t);
        assert(e + ga + (ua + ur + gr) =~= accounts_text(d));
        lemma_accounts_in_built(r, blobs, l, t);
    }
    assert forall|k: int|
        #![trigger r.state.groups_removed@[k]]
        0 <= k < r.state.groups_removed@.len() implies contains(built(r, blobs, l).out, ({
            let g = r.state.groups_removed@[k];
            task_text("Remove group "@ + g.name@, "ansible.builtin.group"@) + arg_text("name"@, scalar_text(g.name@))
                + arg_text("state"@, "absent"@)
        })) by {
        let g = r.state.groups_removed@[k];
        let xs = crate::state::groups(d.groups_removed@);
        assert(xs[k] == g@);
        let t = task_text("Remove group "@ + g.name@, "ansible.builtin.group"@) + arg_text("name"@, scalar_text(g.name@))
            + arg_text("state"@, "absent"@);
        lemma_item_text_in(xs, |g: crate::state::GroupV| group_removed(g), k);
        assert(group_removed(xs[k]) =~= e + t + seq!['\n']);
        crate::text::lemma_contains_part(gr, e, t, seq!['\n']);
        crate::text::lemma_contains_within(ga + ua + ur, gr, e, t);
        assert(ga + ua + ur + gr + e =~= accounts_text(d));
        lemma_accounts_in_built(r, blobs, l, t);
    }
}

} // verus!
