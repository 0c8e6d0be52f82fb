//! Decisions about the environment the recording runs in.

use vstd::prelude::*;

use crate::text::{chars_of, contains, contains_chars, lower, lower_chars, trim, trim_chars};

verus! {

/// Whether the first of the locale variables that is set to something other
/// than white space names UTF-8; false when none is.
pub open spec fn utf8_decision(values: Seq<Option<Seq<char>>>) -> bool
    decreases values.len(),
{
    if values.len() == 0 {
        false
    } else {
        match values[0] {
            Some(v) if trim(v).len() > 0 => {
                let l = lower(trim(v));
                contains(l, "utf-8"@) || contains(l, "utf8"@)
            },
            _ => utf8_decision(values.drop_first()),
        }
    }
}

pub open spec fn option_views(values: Seq<Option<String>>) -> Seq<Option<Seq<char>>> {
    values.map_values(|v: Option<String>| match v {
        Some(s) => Some(s@),
        None => None,
    })
}

/// Whether the character encoding of the locale is UTF-8, given the values of
/// LC_ALL, LC_CTYPE and LANG in that order, which is the order in which the C
/// library resolves it.
pub fn utf8_locale(values: &[Option<String>]) -> (r: bool)
    ensures
        r == utf8_decision(option_views(values@)),
{
    let ghost all = option_views(values@);
    let mut i: usize = 0;
    assert(all.skip(0) == all);
    while i < values.len()
        invariant
            i <= values@.len(),
            all == option_views(values@),
            utf8_decision(all) == utf8_decision(all.skip(i as int)),
        decreases values.len() - i,
    {
        let ghost rest = all.skip(i as int);
        assert(rest[0] == all[i as int]);
        assert(rest.drop_first() == all.skip(i + 1));
        match &values[i] {
            Some(value) => {
                let v = chars_of(value.as_str());
                let t = trim_chars(&v);
                if t.len() > 0 {
                    let l = lower_chars(&t);
                    let a = chars_of("utf-8");
                    let b = chars_of("utf8");
                    return contains_chars(&l, &a) || contains_chars(&l, &b);
                }
            },
            None => {},
        }
        i = i + 1;
    }
    assert(all.skip(all.len() as int).len() == 0);
    false
}

/// The first line of what a failed command printed on standard error,
/// trimmed, or `no output` when it printed nothing.
pub open spec fn first_error_line(stderr: Seq<char>) -> Seq<char> {
    if crate::text::lines(stderr).len() == 0 {
        "no output"@
    } else {
        trim(crate::text::lines(stderr)[0])
    }
}

/// `{program} {args} failed: {first line of stderr}`.
pub open spec fn failure_text(program: Seq<char>, args: Seq<Seq<char>>, stderr: Seq<char>) -> Seq<char> {
    program + seq![' '] + crate::markdown::joined(seq![' '], args) + " failed: "@ + first_error_line(stderr)
}

/// The error a probe reports when its command fails: what ran, and the
/// first line the command printed on standard error.
pub fn failure_message(program: &str, args: &[&str], stderr: &str) -> (r: String)
    ensures
        r@ == failure_text(program@, args@.map_values(|a: &str| a@), stderr@),
{
    let ghost av = args@.map_values(|a: &str| a@);
    let mut joined = String::new();
    let mut i: usize = 0;
    assert(av.take(0) =~= Seq::<Seq<char>>::empty());
    while i < args.len()
        invariant
            i <= args@.len(),
            av == args@.map_values(|a: &str| a@),
            joined@ == crate::markdown::joined(seq![' '], av.take(i as int)),
        decreases args.len() - i,
    {
        let ghost t = av.take(i + 1);
        assert(t.drop_last() == av.take(i as int));
        assert(t.last() == args@[i as int]@);
        if i > 0 {
            crate::text::push_char(&mut joined, ' ');
        }
        crate::text::push_str(&mut joined, args[i]);
        proof {
            if i == 0 {
                assert(av.take(0).len() == 0);
                assert(joined@ =~= t[0]);
            }
        }
        assert(joined@ =~= crate::markdown::joined(seq![' '], t));
        i = i + 1;
    }
    assert(av.take(av.len() as int) == av);
    let mut out = crate::text::owned(program);
    crate::text::push_char(&mut out, ' ');
    crate::text::push_str(&mut out, joined.as_str());
    crate::text::push_str(&mut out, " failed: ");
    let v = chars_of(stderr);
    let ls = crate::text::lines_chars(&v);
    if ls.len() == 0 {
        crate::text::push_str(&mut out, "no output");
    } else {
        assert(crate::text::lines(stderr@)[0] == ls@[0]@);
        let t = trim_chars(&ls[0]);
        let line = crate::text::string_of(&t, 0, t.len());
        assert(t@.subrange(0, t@.len() as int) == t@);
        crate::text::push_str(&mut out, line.as_str());
    }
    out
}

} // verus!
