//! Renders a recorded session as a Markdown runbook.
//!
//! Chapters are either generated from the record, or a template for a human
//! to fill in. Nothing is invented: where the record cannot answer a
//! question, the document says so and leaves a TODO.

use vstd::prelude::*;

use crate::ansible::play_title;
use crate::diff::{change_label, change_path, changes, unified_body_of, Change, ChangeV};
use crate::i18n::{
    count_text, msg_before_first_step, msg_ended, msg_host, msg_list_separator, msg_no_steps_hint,
    msg_overview, msg_overview_intro, msg_prereq_recorded, msg_prereq_todo, msg_prerequisites,
    msg_purpose, msg_purpose_done, msg_purpose_intro, msg_purpose_what, msg_purpose_why,
    msg_runbook_title, msg_session_id, msg_shell, msg_started, msg_todo, msg_unnamed_step,
    msg_snapshot_directories, msg_user, msg_watched_directories, Locale, Messages,
};
use crate::order::strs;
use crate::diff::path_lt;
use crate::watcher::{in_window_of, seen, Touched, MAX_PATHS};
use crate::packages::PackageV;
use crate::session::Meta;
use crate::step::{commands_of, steps, Runbook, Step, StepV};
use crate::text::{
    concat, decimal, lemma_concat_push, lemma_filter_map_contains, lemma_map_values_step, push_char, push_decimal, push_str,
};

verus! {

// ----------------------------------------------------------------------------
// Times.

/// The text `time` gives for the instant `ts` (nanoseconds since the Unix
/// epoch, UTC) in the format description `pattern`.
pub uninterp spec fn time_text(ts: i128, pattern: Seq<char>) -> Seq<char>;

/// `time::OffsetDateTime::from_unix_timestamp_nanos(ts)` formatted by
/// `OffsetDateTime::format` with the format description `pattern`. The
/// contract names the result: it depends on the instant and the pattern
/// alone. An instant `time` cannot represent, or a pattern it does not
/// parse, is written as the number of nanoseconds; a failed formatting as
/// the instant's default text.
#[verifier::external_body]
fn format_time(ts: i128, pattern: &str) -> (r: String)
    ensures
        r@ == time_text(ts, pattern@),
{
    let items = match time::format_description::parse_borrowed::<1>(pattern) {
        Ok(items) => items,
        Err(_) => return ts.to_string(),
    };
    match time::OffsetDateTime::from_unix_timestamp_nanos(ts) {
        Ok(t) => t.format(&items).unwrap_or_else(|_| t.to_string()),
        Err(_) => ts.to_string(),
    }
}

pub open spec fn datetime_of(ts: i128) -> Seq<char> {
    time_text(ts, "[year]-[month]-[day] [hour]:[minute]:[second] UTC"@)
}

pub open spec fn clock_of(ts: i128) -> Seq<char> {
    time_text(ts, "[hour]:[minute]:[second]"@)
}

fn datetime(ts: i128) -> (r: String)
    ensures
        r@ == datetime_of(ts),
{
    format_time(ts, "[year]-[month]-[day] [hour]:[minute]:[second] UTC")
}

fn clock(ts: i128) -> (r: String)
    ensures
        r@ == clock_of(ts),
{
    format_time(ts, "[hour]:[minute]:[second]")
}

// ----------------------------------------------------------------------------
// Small pieces.

/// A TODO for a human, with a hint when there is one.
pub open spec fn todo_text(l: Locale, text: Seq<char>) -> Seq<char> {
    if text.len() == 0 {
        "> **"@ + msg_todo(l) + "**\n\n"@
    } else {
        "> **"@ + msg_todo(l) + "**: "@ + text + "\n\n"@
    }
}

fn todo(out: &mut String, msg: &Messages, text: &str)
    ensures
        final(out)@ == old(out)@ + todo_text(msg.locale, text@),
{
    let ghost start = out@;
    push_str(out, "> **");
    push_str(out, msg.todo());
    if text.is_empty() {
        push_str(out, "**\n\n");
    } else {
        push_str(out, "**: ");
        push_str(out, text);
        push_str(out, "\n\n");
    }
    assert(out@ =~= start + todo_text(msg.locale, text@));
}

pub open spec fn row_text(label: Seq<char>, value: Seq<char>) -> Seq<char> {
    "| "@ + label + " | "@ + value + " |\n"@
}

fn row(out: &mut String, label: &str, value: &str)
    ensures
        final(out)@ == old(out)@ + row_text(label@, value@),
{
    let ghost start = out@;
    push_str(out, "| ");
    push_str(out, label);
    push_str(out, " | ");
    push_str(out, value);
    push_str(out, " |\n");
    assert(out@ =~= start + row_text(label@, value@));
}

pub open spec fn or_dash(o: Option<String>) -> Seq<char> {
    match o {
        Some(s) => s@,
        None => "-"@,
    }
}

fn or_dash_str(o: &Option<String>) -> (r: &str)
    ensures
        r@ == or_dash(*o),
{
    match o {
        Some(s) => s.as_str(),
        None => "-",
    }
}

/// `xs` separated by `sep`.
pub open spec fn joined(sep: Seq<char>, xs: Seq<Seq<char>>) -> Seq<char>
    decreases xs.len(),
{
    if xs.len() == 0 {
        Seq::empty()
    } else if xs.len() == 1 {
        xs[0]
    } else {
        joined(sep, xs.drop_last()) + sep + xs.last()
    }
}

pub open spec fn ticked(x: Seq<char>) -> Seq<char> {
    seq!['`'] + x + seq!['`']
}

/// Paths in backticks, separated by commas.
pub open spec fn paths_text(ps: Seq<Seq<char>>) -> Seq<char> {
    joined(", "@, ps.map_values(|p: Seq<char>| ticked(p)))
}

/// Writes `xs`, each in backticks, separated by commas.
fn push_ticked_list(out: &mut String, xs: &Vec<String>)
    ensures
        final(out)@ == old(out)@ + paths_text(strs(xs@)),
{
    let ghost ps = strs(xs@).map_values(|p: Seq<char>| ticked(p));
    let ghost start = out@;
    let mut i: usize = 0;
    assert(ps.take(0) =~= Seq::<Seq<char>>::empty());
    assert(out@ =~= start + joined(", "@, ps.take(0)));
    while i < xs.len()
        invariant
            i <= xs@.len(),
            ps == strs(xs@).map_values(|p: Seq<char>| ticked(p)),
            out@ == start + joined(", "@, ps.take(i as int)),
        decreases xs.len() - i,
    {
        let ghost t = ps.take(i + 1);
        assert(t.drop_last() == ps.take(i as int));
        assert(t.last() == ticked(xs@[i as int]@));
        if i > 0 {
            push_str(out, ", ");
        }
        push_char(out, '`');
        push_str(out, xs[i].as_str());
        push_char(out, '`');
        proof {
            if i == 0 {
                assert(ps.take(0).len() == 0);
                assert(joined(", "@, t) == t[0]);
            }
        }
        assert(out@ =~= start + joined(", "@, t));
        i = i + 1;
    }
    assert(ps.take(ps.len() as int) == ps);
}

// ----------------------------------------------------------------------------
// The chapters before the procedure.

pub open spec fn metadata_head(l: Locale, m: Meta) -> Seq<char> {
    "# "@ + msg_runbook_title(l) + ": "@ + play_title(m) + "\n\n"@ + "| | |\n|---|---|\n"@
}

pub open spec fn ended_text(m: Meta) -> Seq<char> {
    match m.ended_at {
        Some(t) => datetime_of(t),
        None => "-"@,
    }
}

pub open spec fn metadata_text(l: Locale, m: Meta) -> Seq<char> {
    metadata_head(l, m) + row_text(msg_session_id(l), m.id@) + row_text(msg_host(l), or_dash(m.hostname))
        + row_text(msg_user(l), or_dash(m.user)) + row_text(msg_shell(l), m.shell@)
        + row_text(msg_started(l), datetime_of(m.started_at)) + row_text(msg_ended(l), ended_text(m))
        + "\n"@
}

fn row_string(label: &str, value: &str) -> (r: String)
    ensures
        r@ == row_text(label@, value@),
{
    let mut t = crate::text::owned("| ");
    push_str(&mut t, label);
    push_str(&mut t, " | ");
    push_str(&mut t, value);
    push_str(&mut t, " |\n");
    t
}

fn metadata(out: &mut String, meta: &Meta, msg: &Messages)
    ensures
        final(out)@ == old(out)@ + metadata_text(msg.locale, *meta),
{
    let title = match &meta.name {
        Some(n) => n.as_str(),
        None => meta.id.as_str(),
    };
    let mut t = crate::text::owned("# ");
    push_str(&mut t, msg.runbook_title());
    push_str(&mut t, ": ");
    push_str(&mut t, title);
    push_str(&mut t, "\n\n");
    push_str(&mut t, "| | |\n|---|---|\n");
    let r1 = row_string(msg.session_id(), meta.id.as_str());
    push_str(&mut t, r1.as_str());
    let r2 = row_string(msg.host(), or_dash_str(&meta.hostname));
    push_str(&mut t, r2.as_str());
    let r3 = row_string(msg.user(), or_dash_str(&meta.user));
    push_str(&mut t, r3.as_str());
    let r4 = row_string(msg.shell(), meta.shell.as_str());
    push_str(&mut t, r4.as_str());
    let started = datetime(meta.started_at);
    let r5 = row_string(msg.started(), started.as_str());
    push_str(&mut t, r5.as_str());
    let ended = match meta.ended_at {
        Some(at) => datetime(at),
        None => crate::text::owned("-"),
    };
    assert(ended@ == ended_text(*meta));
    let r6 = row_string(msg.ended(), ended.as_str());
    push_str(&mut t, r6.as_str());
    push_str(&mut t, "\n");
    assert(t@ == metadata_text(msg.locale, *meta));
    push_str(out, t.as_str());
}

pub open spec fn purpose_text(l: Locale) -> Seq<char> {
    "## 1. "@ + msg_purpose(l) + "\n\n"@ + msg_purpose_intro(l) + "\n\n"@
        + "### "@ + msg_purpose_what(l) + "\n\n"@ + todo_text(l, Seq::empty())
        + "### "@ + msg_purpose_why(l) + "\n\n"@ + todo_text(l, Seq::empty())
        + "### "@ + msg_purpose_done(l) + "\n\n"@ + todo_text(l, Seq::empty())
}

fn purpose(out: &mut String, msg: &Messages)
    ensures
        final(out)@ == old(out)@ + purpose_text(msg.locale),
{
    let ghost start = out@;
    proof {
        reveal_strlit("");
    }
    assert(""@ =~= Seq::<char>::empty());
    push_str(out, "## 1. ");
    push_str(out, msg.purpose());
    push_str(out, "\n\n");
    push_str(out, msg.purpose_intro());
    push_str(out, "\n\n");
    push_str(out, "### ");
    push_str(out, msg.purpose_what());
    push_str(out, "\n\n");
    todo(out, msg, "");
    push_str(out, "### ");
    push_str(out, msg.purpose_why());
    push_str(out, "\n\n");
    todo(out, msg, "");
    push_str(out, "### ");
    push_str(out, msg.purpose_done());
    push_str(out, "\n\n");
    todo(out, msg, "");
    assert(out@ =~= start + purpose_text(msg.locale));
}

/// A step with no title of its own is either the whole session, or the work
/// that came before the first heading.
pub open spec fn step_title(st: StepV, without_steps: bool, l: Locale) -> Seq<char> {
    match st.title {
        Some(t) => t,
        None => if without_steps { msg_unnamed_step(l) } else { msg_before_first_step(l) },
    }
}

fn title_of(step: &Step, without_steps: bool, msg: &Messages) -> (r: String)
    ensures
        r@ == step_title(step@, without_steps, msg.locale),
{
    match &step.title {
        Some(t) => t.clone(),
        None => if without_steps {
            crate::text::owned(msg.unnamed_step())
        } else {
            crate::text::owned(msg.before_first_step())
        },
    }
}

/// How much a step holds: its commands, packages and changed files.
pub open spec fn step_counts(st: StepV, l: Locale) -> Seq<char> {
    count_text(l, commands_of(st.items).len(), "command"@, "commands"@, "コマンド"@)
        + msg_list_separator(l) + count_text(l, st.packages.len(), "package"@, "packages"@, "パッケージ"@)
        + msg_list_separator(l) + count_text(l, st.files.len(), "changed file"@, "changed files"@, "変更ファイル"@)
}

pub open spec fn overview_line(i: int, st: StepV, without_steps: bool, l: Locale) -> Seq<char> {
    decimal((i + 1) as nat) + ". **"@ + step_title(st, without_steps, l) + "** — "@ + step_counts(st, l) + "\n"@
}

/// A label of a Mermaid node, with each double quote written as the entity
/// Mermaid reads back as one.
pub open spec fn mermaid_escaped(s: Seq<char>) -> Seq<char> {
    concat(s.map_values(|c: char| if c == '"' { "#quot;"@ } else { seq![c] }))
}

/// Step `i` as a node of the flowchart, joined to the step before it.
pub open spec fn mermaid_node(i: int, st: StepV, without_steps: bool, l: Locale) -> Seq<char> {
    "    s"@ + decimal((i + 1) as nat) + "[\""@
        + mermaid_escaped(decimal((i + 1) as nat) + ". "@ + step_title(st, without_steps, l) + " — "@ + step_counts(st, l))
        + "\"]\n"@ + if i > 0 {
        "    s"@ + decimal(i as nat) + " --> s"@ + decimal((i + 1) as nat) + "\n"@
    } else {
        Seq::<char>::empty()
    }
}

/// The steps in order: a numbered list, or a Mermaid flowchart.
pub open spec fn overview_text(l: Locale, r: Runbook, mermaid: bool) -> Seq<char> {
    let sts = steps(r.steps@);
    "## 2. "@ + msg_overview(l) + "\n\n"@ + msg_overview_intro(l) + "\n\n"@
        + (if mermaid {
        "```mermaid\nflowchart TD\n"@
            + concat(Seq::new(sts.len(), |i: int| mermaid_node(i, sts[i], r.without_steps, l))) + "```\n"@
    } else {
        concat(Seq::new(sts.len(), |i: int| overview_line(i, sts[i], r.without_steps, l)))
    }) + "\n"@ + if r.without_steps { msg_no_steps_hint(l) + "\n\n"@ } else { Seq::empty() }
}

fn push_mermaid_escaped(out: &mut String, s: &str)
    ensures
        final(out)@ == old(out)@ + mermaid_escaped(s@),
{
    let v = crate::text::chars_of(s);
    let ghost f = |c: char| if c == '"' { "#quot;"@ } else { seq![c] };
    let ghost xs = s@.map_values(f);
    let ghost start = out@;
    let mut i: usize = 0;
    assert(xs.take(0) =~= Seq::<Seq<char>>::empty());
    assert(out@ =~= start + concat(xs.take(0)));
    while i < v.len()
        invariant
            i <= v@.len(),
            v@ == s@,
            f == (|c: char| if c == '"' { "#quot;"@ } else { seq![c] }),
            xs == s@.map_values(f),
            out@ == start + concat(xs.take(i as int)),
        decreases v.len() - i,
    {
        if v[i] == '"' {
            push_str(out, "#quot;");
        } else {
            push_char(out, v[i]);
        }
        proof {
            assert(xs.take(i + 1) =~= xs.take(i as int).push(xs[i as int]));
            lemma_concat_push(xs.take(i as int), xs[i as int]);
        }
        assert(out@ =~= start + concat(xs.take(i + 1)));
        i = i + 1;
    }
    assert(xs.take(xs.len() as int) == xs);
}

fn step_counts_string(step: &Step, msg: &Messages) -> (r: String)
    ensures
        r@ == step_counts(step@, msg.locale),
{
    let mut out = msg.count_commands(step.command_count());
    push_str(&mut out, msg.list_separator());
    let p = msg.count_packages(step.packages.len());
    push_str(&mut out, p.as_str());
    push_str(&mut out, msg.list_separator());
    let f = msg.count_files(step.files.len());
    push_str(&mut out, f.as_str());
    assert(step@.packages.len() == step.packages@.len());
    assert(step@.files.len() == step.files@.len());
    assert(out@ =~= step_counts(step@, msg.locale));
    out
}

fn mermaid_entry(out: &mut String, i: usize, step: &Step, without_steps: bool, msg: &Messages)
    requires
        i < usize::MAX,
    ensures
        final(out)@ == old(out)@ + mermaid_node(i as int, step@, without_steps, msg.locale),
{
    let ghost start = out@;
    let mut label = String::new();
    push_decimal(&mut label, (i + 1) as u64);
    push_str(&mut label, ". ");
    let t = title_of(step, without_steps, msg);
    push_str(&mut label, t.as_str());
    push_str(&mut label, " — ");
    let c = step_counts_string(step, msg);
    push_str(&mut label, c.as_str());
    push_str(out, "    s");
    push_decimal(out, (i + 1) as u64);
    push_str(out, "[\"");
    push_mermaid_escaped(out, label.as_str());
    push_str(out, "\"]\n");
    let ghost node = out@;
    if i > 0 {
        push_str(out, "    s");
        push_decimal(out, i as u64);
        push_str(out, " --> s");
        push_decimal(out, (i + 1) as u64);
        push_str(out, "\n");
    }
    assert(out@ =~= start + mermaid_node(i as int, step@, without_steps, msg.locale));
}

fn overview_entry(out: &mut String, i: usize, step: &Step, without_steps: bool, msg: &Messages)
    requires
        i < usize::MAX,
    ensures
        final(out)@ == old(out)@ + overview_line(i as int, step@, without_steps, msg.locale),
{
    let ghost start = out@;
    push_decimal(out, (i + 1) as u64);
    push_str(out, ". **");
    let t = title_of(step, without_steps, msg);
    push_str(out, t.as_str());
    push_str(out, "** — ");
    let ghost s1 = out@;
    let c = msg.count_commands(step.command_count());
    push_str(out, c.as_str());
    push_str(out, msg.list_separator());
    let p = msg.count_packages(step.packages.len());
    push_str(out, p.as_str());
    push_str(out, msg.list_separator());
    let f = msg.count_files(step.files.len());
    push_str(out, f.as_str());
    push_str(out, "\n");
    assert(step@.packages.len() == step.packages@.len());
    assert(step@.files.len() == step.files@.len());
    assert(out@ =~= start + overview_line(i as int, step@, without_steps, msg.locale));
}

fn overview_list(out: &mut String, runbook: &Runbook, msg: &Messages)
    ensures
        final(out)@ == old(out)@ + concat(Seq::new(
            steps(runbook.steps@).len(),
            |i: int| overview_line(i, steps(runbook.steps@)[i], runbook.without_steps, msg.locale),
        )),
{
    let ghost l = msg.locale;
    let ghost sts = steps(runbook.steps@);
    let ghost lines = Seq::new(sts.len(), |i: int| overview_line(i, sts[i], runbook.without_steps, l));
    let ghost mid = out@;
    let mut i: usize = 0;
    assert(lines.take(0) =~= Seq::<Seq<char>>::empty());
    while i < runbook.steps.len()
        invariant
            i <= runbook.steps@.len(),
            sts == steps(runbook.steps@),
            l == msg.locale,
            lines == Seq::new(sts.len(), |i: int| overview_line(i, sts[i], runbook.without_steps, l)),
            out@ == mid + concat(lines.take(i as int)),
        decreases runbook.steps.len() - i,
    {
        let step = &runbook.steps[i];
        assert(sts[i as int] == step@);
        assert(lines.take(i + 1) =~= lines.take(i as int).push(lines[i as int]));
        proof { lemma_concat_push(lines.take(i as int), lines[i as int]); }
        overview_entry(out, i, step, runbook.without_steps, msg);
        i = i + 1;
    }
    assert(lines.take(lines.len() as int) == lines);
}

fn overview_flowchart(out: &mut String, runbook: &Runbook, msg: &Messages)
    ensures
        final(out)@ == old(out)@ + concat(Seq::new(
            steps(runbook.steps@).len(),
            |i: int| mermaid_node(i, steps(runbook.steps@)[i], runbook.without_steps, msg.locale),
        )),
{
    let ghost l = msg.locale;
    let ghost sts = steps(runbook.steps@);
    let ghost nodes = Seq::new(sts.len(), |i: int| mermaid_node(i, sts[i], runbook.without_steps, l));
    let ghost mid = out@;
    let mut i: usize = 0;
    assert(nodes.take(0) =~= Seq::<Seq<char>>::empty());
    while i < runbook.steps.len()
        invariant
            i <= runbook.steps@.len(),
            sts == steps(runbook.steps@),
            l == msg.locale,
            nodes == Seq::new(sts.len(), |i: int| mermaid_node(i, sts[i], runbook.without_steps, l)),
            out@ == mid + concat(nodes.take(i as int)),
        decreases runbook.steps.len() - i,
    {
        let step = &runbook.steps[i];
        assert(sts[i as int] == step@);
        assert(nodes.take(i + 1) =~= nodes.take(i as int).push(nodes[i as int]));
        proof { lemma_concat_push(nodes.take(i as int), nodes[i as int]); }
        mermaid_entry(out, i, step, runbook.without_steps, msg);
        i = i + 1;
    }
    assert(nodes.take(nodes.len() as int) == nodes);
}

#[verifier::spinoff_prover]
#[verifier::rlimit(40)]
fn overview(out: &mut String, runbook: &Runbook, msg: &Messages, mermaid: bool)
    ensures
        final(out)@ == old(out)@ + overview_text(msg.locale, *runbook, mermaid),
{
    let ghost start = out@;
    push_str(out, "## 2. ");
    push_str(out, msg.overview());
    push_str(out, "\n\n");
    push_str(out, msg.overview_intro());
    push_str(out, "\n\n");
    let ghost mid = out@;
    if mermaid {
        push_str(out, "```mermaid\nflowchart TD\n");
        overview_flowchart(out, runbook, msg);
        push_str(out, "```\n");
    } else {
        overview_list(out, runbook, msg);
    }
    push_str(out, "\n");
    if runbook.without_steps {
        push_str(out, msg.no_steps_hint());
        push_str(out, "\n\n");
    }
    assert(out@ =~= start + overview_text(msg.locale, *runbook, mermaid));
}

/// The rows naming the directories of the session: those snapshotted, and
/// those watched for touches when there are any.
pub open spec fn roots_rows(l: Locale, m: Meta) -> Seq<char> {
    row_text(msg_snapshot_directories(l), paths_text(strs(m.snapshot_roots@)))
        + if m.watch_roots@.len() == 0 {
        Seq::<char>::empty()
    } else {
        row_text(msg_watched_directories(l), paths_text(strs(m.watch_roots@)))
    }
}

fn roots(out: &mut String, meta: &Meta, msg: &Messages)
    ensures
        final(out)@ == old(out)@ + roots_rows(msg.locale, *meta),
{
    let ghost start = out@;
    let mut snap = String::new();
    push_ticked_list(&mut snap, &meta.snapshot_roots);
    assert(snap@ =~= paths_text(strs(meta.snapshot_roots@)));
    row(out, msg.snapshot_directories(), snap.as_str());
    if meta.watch_roots.len() > 0 {
        let mut watched = String::new();
        push_ticked_list(&mut watched, &meta.watch_roots);
        assert(watched@ =~= paths_text(strs(meta.watch_roots@)));
        row(out, msg.watched_directories(), watched.as_str());
    }
    assert(out@ =~= start + roots_rows(msg.locale, *meta));
}

pub open spec fn prerequisites_text(l: Locale, m: Meta) -> Seq<char> {
    "## 3. "@ + msg_prerequisites(l) + "\n\n"@ + "### "@ + msg_prereq_recorded(l) + "\n\n"@
        + "| | |\n|---|---|\n"@ + row_text(msg_host(l), or_dash(m.hostname))
        + row_text(msg_user(l), or_dash(m.user))
        + roots_rows(l, m) + "\n"@
        + todo_text(l, msg_prereq_todo(l))
}

fn prerequisites(out: &mut String, meta: &Meta, msg: &Messages)
    ensures
        final(out)@ == old(out)@ + prerequisites_text(msg.locale, *meta),
{
    let ghost start = out@;
    push_str(out, "## 3. ");
    push_str(out, msg.prerequisites());
    push_str(out, "\n\n");
    push_str(out, "### ");
    push_str(out, msg.prereq_recorded());
    push_str(out, "\n\n");
    push_str(out, "| | |\n|---|---|\n");
    row(out, msg.host(), or_dash_str(&meta.hostname));
    row(out, msg.user(), or_dash_str(&meta.user));
    roots(out, meta, msg);
    push_str(out, "\n");
    todo(out, msg, msg.prereq_todo());
    assert(out@ =~= start + prerequisites_text(msg.locale, *meta));
}

// ----------------------------------------------------------------------------
// The procedure.

/// The commands waiting to be shown, as one console block.
pub open spec fn flush_text(p: Seq<Seq<char>>) -> Seq<char> {
    if p.len() == 0 {
        Seq::empty()
    } else {
        "```console\n"@ + concat(p.map_values(|c: Seq<char>| "$ "@ + c + "\n"@)) + "```\n\n"@
    }
}

pub open spec fn note_text(l: Locale, t: Seq<char>) -> Seq<char> {
    "> **"@ + crate::i18n::msg_note_label(l) + "**: "@ + t + "\n\n"@
}

/// What the items of a step have written so far, and the commands still
/// waiting for their console block.
pub open spec fn body_fold(its: Seq<crate::step::ItemV>, l: Locale) -> (Seq<char>, Seq<Seq<char>>)
    decreases its.len(),
{
    if its.len() == 0 {
        (Seq::empty(), Seq::empty())
    } else {
        let prev = body_fold(its.drop_last(), l);
        match its.last() {
            crate::step::ItemV::Command(r) => (prev.0, prev.1.push(r.cmd)),
            crate::step::ItemV::Note(t) => (prev.0 + flush_text(prev.1) + note_text(l, t), Seq::empty()),
        }
    }
}

/// Commands and notes in the order they were recorded: a remark splits the
/// console block, so that it stays next to the command it is about.
pub open spec fn step_body_text(its: Seq<crate::step::ItemV>, l: Locale) -> Seq<char> {
    body_fold(its, l).0 + flush_text(body_fold(its, l).1)
}

fn flush_commands(out: &mut String, pending: &mut Vec<String>)
    ensures
        final(out)@ == old(out)@ + flush_text(strs(old(pending)@)),
        final(pending)@.len() == 0,
{
    if pending.len() == 0 {
        assert(flush_text(strs(pending@)) =~= Seq::<char>::empty());
        return;
    }
    let ghost ps = strs(pending@);
    let ghost f = |c: Seq<char>| "$ "@ + c + "\n"@;
    let ghost start = out@;
    push_str(out, "```console\n");
    let ghost mid = out@;
    let mut i: usize = 0;
    assert(mid + concat(ps.take(0).map_values(f)) =~= out@);
    while i < pending.len()
        invariant
            i <= pending@.len(),
            ps == strs(pending@),
            f == (|c: Seq<char>| "$ "@ + c + "\n"@),
            out@ == mid + concat(ps.take(i as int).map_values(f)),
        decreases pending.len() - i,
    {
        proof {
            lemma_map_values_step(ps, f, i as int);
            lemma_concat_push(ps.take(i as int).map_values(f), f(ps[i as int]));
        }
        assert(ps[i as int] == pending@[i as int]@);
        push_str(out, "$ ");
        push_str(out, pending[i].as_str());
        push_str(out, "\n");
        assert(out@ =~= mid + concat(ps.take(i + 1).map_values(f)));
        i = i + 1;
    }
    assert(ps.take(ps.len() as int) == ps);
    push_str(out, "```\n\n");
    assert(out@ =~= start + flush_text(ps));
    pending.clear();
}

fn step_body(out: &mut String, step: &Step, msg: &Messages)
    ensures
        final(out)@ == old(out)@ + step_body_text(step@.items, msg.locale),
{
    let ghost its = crate::step::items(step.items@);
    let ghost l = msg.locale;
    let ghost start = out@;
    let mut pending: Vec<String> = Vec::new();
    let mut i: usize = 0;
    assert(its.take(0) =~= Seq::<crate::step::ItemV>::empty());
    assert(out@ =~= start + body_fold(its.take(0), l).0);
    assert(strs(pending@) =~= body_fold(its.take(0), l).1);
    while i < step.items.len()
        invariant
            i <= step.items@.len(),
            its == crate::step::items(step.items@),
            l == msg.locale,
            out@ == start + body_fold(its.take(i as int), l).0,
            strs(pending@) == body_fold(its.take(i as int), l).1,
        decreases step.items.len() - i,
    {
        let ghost t = its.take(i + 1);
        assert(t.drop_last() == its.take(i as int));
        assert(t.last() == step.items@[i as int]@);
        let ghost prev = body_fold(its.take(i as int), l);
        match &step.items[i] {
            crate::step::Item::Command(run) => {
                let c = run.cmd.clone();
                proof { crate::order::lemma_strs_push(pending@, c); }
                pending.push(c);
            },
            crate::step::Item::Note(text) => {
                flush_commands(out, &mut pending);
                push_str(out, "> **");
                push_str(out, msg.note_label());
                push_str(out, "**: ");
                push_str(out, text.as_str());
                push_str(out, "\n\n");
                assert(out@ =~= start + prev.0 + flush_text(prev.1) + note_text(l, text@));
                assert(strs(pending@) =~= Seq::<Seq<char>>::empty());
            },
        }
        i = i + 1;
    }
    assert(its.take(its.len() as int) == its);
    let ghost before = out@;
    flush_commands(out, &mut pending);
    assert(out@ =~= start + step_body_text(step@.items, l));
}

/// The directories the commands of a step ran in, in order of appearance.
pub open spec fn dirs_of(st: StepV) -> Seq<Seq<char>> {
    crate::step::append_new(Seq::empty(), commands_of(st.items).map_values(|r: crate::step::RunV| r.cwd))
}

pub open spec fn dirs_text(st: StepV, l: Locale) -> Seq<char> {
    if dirs_of(st).len() == 0 {
        Seq::empty()
    } else {
        crate::i18n::msg_working_directory(l) + ": "@ + paths_text(dirs_of(st)) + "\n\n"@
    }
}

fn directories(step: &Step) -> (r: Vec<String>)
    ensures
        strs(r@) == dirs_of(step@),
{
    let cmds = step.commands();
    let ghost cw = crate::step::runs(cmds@).map_values(|r: crate::step::RunV| r.cwd);
    let mut seen: Vec<String> = Vec::new();
    let mut i: usize = 0;
    assert(cw.take(0) =~= Seq::<Seq<char>>::empty());
    while i < cmds.len()
        invariant
            i <= cmds@.len(),
            cw == crate::step::runs(cmds@).map_values(|r: crate::step::RunV| r.cwd),
            strs(seen@) == crate::step::append_new(Seq::empty(), cw.take(i as int)),
        decreases cmds.len() - i,
    {
        let ghost t = cw.take(i + 1);
        assert(t.drop_last() == cw.take(i as int));
        assert(t.last() == cmds@[i as int].cwd@);
        if !crate::order::contains_str(&seen, &cmds[i].cwd) {
            let c = cmds[i].cwd.clone();
            proof { crate::order::lemma_strs_push(seen@, c); }
            seen.push(c);
        }
        i = i + 1;
    }
    assert(cw.take(cw.len() as int) == cw);
    seen
}

pub open spec fn pkg_line(p: PackageV) -> Seq<char> {
    "- `"@ + p.0 + "` "@ + p.1 + "\n"@
}

pub open spec fn pkg_lines(ps: Seq<PackageV>) -> Seq<char> {
    concat(ps.map_values(|p: PackageV| pkg_line(p)))
}

fn push_pkg_lines(out: &mut String, packages: &Vec<crate::packages::Package>)
    ensures
        final(out)@ == old(out)@ + pkg_lines(crate::packages::pkgs(packages@)),
{
    let ghost ps = crate::packages::pkgs(packages@);
    let ghost f = |p: PackageV| pkg_line(p);
    let ghost start = out@;
    let mut i: usize = 0;
    assert(start + concat(ps.take(0).map_values(f)) =~= out@);
    while i < packages.len()
        invariant
            i <= packages@.len(),
            ps == crate::packages::pkgs(packages@),
            f == (|p: PackageV| pkg_line(p)),
            out@ == start + concat(ps.take(i as int).map_values(f)),
        decreases packages.len() - i,
    {
        proof {
            lemma_map_values_step(ps, f, i as int);
            lemma_concat_push(ps.take(i as int).map_values(f), f(ps[i as int]));
        }
        assert(ps[i as int] == packages@[i as int]@);
        push_str(out, "- `");
        push_str(out, packages[i].name.as_str());
        push_str(out, "` ");
        push_str(out, packages[i].version.as_str());
        push_str(out, "\n");
        assert(out@ =~= start + concat(ps.take(i + 1).map_values(f)));
        i = i + 1;
    }
    assert(ps.take(ps.len() as int) == ps);
}

/// Diff lines shown inline per file; longer diffs move to an appendix.
pub const MAX_INLINE_DIFF_LINES: usize = 50;

pub open spec fn change_line_text(c: ChangeV, l: Locale) -> Seq<char> {
    "- "@ + crate::i18n::msg_change_kind(l, change_label(c)) + " `"@ + change_path(c) + "`"@
}

fn change_line(out: &mut String, change: &Change, msg: &Messages)
    ensures
        final(out)@ == old(out)@ + change_line_text(change@, msg.locale),
{
    let ghost start = out@;
    push_str(out, "- ");
    push_str(out, msg.change_kind(change.label()));
    push_str(out, " `");
    push_str(out, change.path());
    push_str(out, "`");
    assert(out@ =~= start + change_line_text(change@, msg.locale));
}

pub open spec fn shown_lines(ls: Seq<Seq<char>>) -> Seq<Seq<char>> {
    if ls.len() > MAX_INLINE_DIFF_LINES { ls.take(MAX_INLINE_DIFF_LINES as int) } else { ls }
}

/// The diff of a change shown inline, up to the limit, with a note when the
/// rest moved to the appendix.
pub open spec fn block_text(c: ChangeV, blobs: Seq<(Seq<char>, Seq<char>)>, l: Locale) -> Seq<char> {
    match unified_body_of(c, blobs) {
        None => Seq::empty(),
        Some(b) => {
            let ls = crate::text::lines(b);
            "```diff\n"@ + concat(shown_lines(ls).map_values(|x: Seq<char>| x + "\n"@)) + "```\n\n"@
                + if ls.len() > MAX_INLINE_DIFF_LINES {
                crate::i18n::msg_diff_truncated(l, MAX_INLINE_DIFF_LINES as nat, ls.len()) + "\n\n"@
            } else {
                Seq::empty()
            }
        },
    }
}

/// The diff of a change when it is too long to show inline, for the appendix.
pub open spec fn block_long(c: ChangeV, blobs: Seq<(Seq<char>, Seq<char>)>) -> Seq<(Seq<char>, Seq<char>)> {
    match unified_body_of(c, blobs) {
        Some(b) => if crate::text::lines(b).len() > MAX_INLINE_DIFF_LINES {
            seq![(change_path(c), b)]
        } else {
            Seq::empty()
        },
        None => Seq::empty(),
    }
}

fn diff_block(
    out: &mut String,
    change: &Change,
    blobs: &crate::snapshot::Blobs,
    msg: &Messages,
    long: &mut Vec<(String, String)>,
)
    ensures
        final(out)@ == old(out)@ + block_text(change@, blobs.spec_texts(), msg.locale),
        crate::snapshot::blob_pairs(final(long)@) == crate::snapshot::blob_pairs(old(long)@)
            + block_long(change@, blobs.spec_texts()),
{
    let ghost start = out@;
    let ghost bt = blobs.spec_texts();
    let body = match crate::diff::unified_body(change, blobs) {
        Some(b) => b,
        None => {
            assert(crate::snapshot::blob_pairs(long@) =~= crate::snapshot::blob_pairs(long@)
                + block_long(change@, bt));
            assert(out@ =~= start + block_text(change@, bt, msg.locale));
            return;
        },
    };
    let bv = crate::text::chars_of(body.as_str());
    let ls = crate::text::lines_chars(&bv);
    let ghost lv = crate::text::views(ls@);
    let n = ls.len();
    let shown = if n > MAX_INLINE_DIFF_LINES { MAX_INLINE_DIFF_LINES } else { n };
    let ghost sl = shown_lines(lv);
    let ghost f = |x: Seq<char>| x + "\n"@;
    push_str(out, "```diff\n");
    let ghost mid = out@;
    let mut i: usize = 0;
    assert(mid + concat(sl.take(0).map_values(f)) =~= out@);
    while i < shown
        invariant
            i <= shown <= n,
            n == ls@.len(),
            lv == crate::text::views(ls@),
            sl == shown_lines(lv),
            sl.len() == shown,
            forall|q: int| 0 <= q < shown ==> sl[q] == #[trigger] lv[q],
            f == (|x: Seq<char>| x + "\n"@),
            out@ == mid + concat(sl.take(i as int).map_values(f)),
        decreases shown - i,
    {
        proof {
            lemma_map_values_step(sl, f, i as int);
            lemma_concat_push(sl.take(i as int).map_values(f), f(sl[i as int]));
        }
        assert(sl[i as int] == lv[i as int]);
        assert(lv[i as int] == ls@[i as int]@);
        let line = crate::text::string_of(&ls[i], 0, ls[i].len());
        assert(ls@[i as int]@.subrange(0, ls@[i as int]@.len() as int) == ls@[i as int]@);
        push_str(out, line.as_str());
        push_str(out, "\n");
        assert(out@ =~= mid + concat(sl.take(i + 1).map_values(f)));
        i = i + 1;
    }
    assert(sl.take(sl.len() as int) == sl);
    push_str(out, "```\n\n");
    if n > MAX_INLINE_DIFF_LINES {
        let note = msg.diff_truncated(MAX_INLINE_DIFF_LINES, n);
        push_str(out, note.as_str());
        push_str(out, "\n\n");
        let path = crate::text::owned(change.path());
        let ghost before = long@;
        let ghost pair = (path@, body@);
        long.push((path, body));
        assert(crate::snapshot::blob_pairs(long@) =~= crate::snapshot::blob_pairs(before).push(pair));
    } else {
        assert(crate::snapshot::blob_pairs(long@) =~= crate::snapshot::blob_pairs(long@)
            + block_long(change@, bt));
    }
    assert(out@ =~= start + block_text(change@, bt, msg.locale));
}

pub open spec fn file_entry_text(c: ChangeV, blobs: Seq<(Seq<char>, Seq<char>)>, l: Locale) -> Seq<char> {
    change_line_text(c, l) + "\n\n"@ + block_text(c, blobs, l)
}

pub open spec fn files_entries(cs: Seq<ChangeV>, blobs: Seq<(Seq<char>, Seq<char>)>, l: Locale) -> Seq<char> {
    concat(cs.map_values(|c: ChangeV| file_entry_text(c, blobs, l)))
}

pub open spec fn flat_pairs(s: Seq<Seq<(Seq<char>, Seq<char>)>>) -> Seq<(Seq<char>, Seq<char>)>
    decreases s.len(),
{
    if s.len() == 0 {
        Seq::empty()
    } else {
        flat_pairs(s.drop_last()) + s.last()
    }
}

pub open spec fn files_long(cs: Seq<ChangeV>, blobs: Seq<(Seq<char>, Seq<char>)>) -> Seq<(Seq<char>, Seq<char>)> {
    flat_pairs(cs.map_values(|c: ChangeV| block_long(c, blobs)))
}

/// Each change with its diff, in order; the long diffs also go to `long`.
fn push_file_entries(
    out: &mut String,
    long: &mut Vec<(String, String)>,
    files: &Vec<Change>,
    blobs: &crate::snapshot::Blobs,
    msg: &Messages,
)
    ensures
        final(out)@ == old(out)@ + files_entries(changes(files@), blobs.spec_texts(), msg.locale),
        crate::snapshot::blob_pairs(final(long)@) == crate::snapshot::blob_pairs(old(long)@)
            + files_long(changes(files@), blobs.spec_texts()),
{
    let ghost cs = changes(files@);
    let ghost bt = blobs.spec_texts();
    let ghost l = msg.locale;
    let ghost f = |c: ChangeV| file_entry_text(c, bt, l);
    let ghost g = |c: ChangeV| block_long(c, bt);
    let ghost start = out@;
    let ghost long0 = crate::snapshot::blob_pairs(long@);
    let mut i: usize = 0;
    assert(start + concat(cs.take(0).map_values(f)) =~= out@);
    assert(cs.take(0).map_values(g) =~= Seq::<Seq<(Seq<char>, Seq<char>)>>::empty());
    assert(long0 + flat_pairs(cs.take(0).map_values(g)) =~= crate::snapshot::blob_pairs(long@));
    while i < files.len()
        invariant
            i <= files@.len(),
            cs == changes(files@),
            bt == blobs.spec_texts(),
            l == msg.locale,
            f == (|c: ChangeV| file_entry_text(c, bt, l)),
            g == (|c: ChangeV| block_long(c, bt)),
            out@ == start + concat(cs.take(i as int).map_values(f)),
            crate::snapshot::blob_pairs(long@) == long0 + flat_pairs(cs.take(i as int).map_values(g)),
        decreases files.len() - i,
    {
        proof {
            lemma_map_values_step(cs, f, i as int);
            lemma_map_values_step(cs, g, i as int);
            lemma_concat_push(cs.take(i as int).map_values(f), f(cs[i as int]));
        }
        assert(cs[i as int] == files@[i as int]@);
        let ghost o0 = out@;
        let ghost l0 = crate::snapshot::blob_pairs(long@);
        change_line(out, &files[i], msg);
        push_str(out, "\n\n");
        diff_block(out, &files[i], blobs, msg, long);
        assert(out@ =~= o0 + file_entry_text(cs[i as int], bt, l));
        assert(out@ =~= start + concat(cs.take(i + 1).map_values(f)));
        assert(cs.take(i + 1).map_values(g).drop_last() == cs.take(i as int).map_values(g));
        assert(crate::snapshot::blob_pairs(long@) =~= long0 + flat_pairs(cs.take(i + 1).map_values(g)));
        i = i + 1;
    }
    assert(cs.take(cs.len() as int) == cs);
}

pub open spec fn step_pkgs_text(st: StepV, l: Locale) -> Seq<char> {
    if st.packages.len() == 0 {
        Seq::empty()
    } else {
        "#### "@ + crate::i18n::msg_packages(l) + "\n\n"@ + pkg_lines(st.packages) + "\n"@
    }
}

/// The units, services and accounts the step's commands name.
pub open spec fn step_state_text(st: StepV, l: Locale) -> Seq<char> {
    if st.state.len() == 0 {
        Seq::empty()
    } else {
        "#### "@ + crate::i18n::msg_step_state(l) + "\n\n"@ + ticked_items(st.state) + "\n"@
    }
}

pub open spec fn step_files_text(st: StepV, blobs: Seq<(Seq<char>, Seq<char>)>, l: Locale) -> Seq<char> {
    if st.files.len() == 0 {
        Seq::empty()
    } else {
        "#### "@ + crate::i18n::msg_step_files(l) + "\n\n"@ + files_entries(st.files, blobs, l)
    }
}

/// One step of the procedure: its commands and notes, where they ran, and
/// what it installed, changed and touched.
pub open spec fn step_section(
    i: int,
    st: StepV,
    without_steps: bool,
    blobs: Seq<(Seq<char>, Seq<char>)>,
    l: Locale,
    touched: Seq<Seq<char>>,
) -> Seq<char> {
    "### 4."@ + decimal((i + 1) as nat) + ". "@ + step_title(st, without_steps, l) + "\n\n"@
        + step_body_text(st.items, l) + dirs_text(st, l) + step_pkgs_text(st, l) + step_state_text(st, l)
        + step_files_text(st, blobs, l) + step_touched_text(touched, l)
}

pub open spec fn procedure_text(r: Runbook, blobs: Seq<(Seq<char>, Seq<char>)>, l: Locale, t: Touched) -> Seq<char> {
    let sts = steps(r.steps@);
    "## 4. "@ + crate::i18n::msg_procedure(l) + "\n\n"@ + crate::i18n::msg_procedure_intro(l) + "\n\n"@
        + concat(Seq::new(sts.len(), |i: int| step_section(i, sts[i], r.without_steps, blobs, l, step_touched(r, t, i))))
}

pub open spec fn procedure_long(r: Runbook, blobs: Seq<(Seq<char>, Seq<char>)>) -> Seq<(Seq<char>, Seq<char>)> {
    flat_pairs(steps(r.steps@).map_values(|st: StepV| files_long(st.files, blobs)))
}

fn dirs_string(step: &Step, msg: &Messages) -> (r: String)
    ensures
        r@ == dirs_text(step@, msg.locale),
{
    let dirs = directories(step);
    if dirs.len() == 0 {
        let r = String::new();
        assert(r@ =~= dirs_text(step@, msg.locale));
        return r;
    }
    let mut t = crate::text::owned(msg.working_directory());
    push_str(&mut t, ": ");
    let mut list = String::new();
    push_ticked_list(&mut list, &dirs);
    assert(list@ =~= paths_text(dirs_of(step@)));
    push_str(&mut t, list.as_str());
    push_str(&mut t, "\n\n");
    t
}

fn pkgs_string(step: &Step, msg: &Messages) -> (r: String)
    ensures
        r@ == step_pkgs_text(step@, msg.locale),
{
    if step.packages.len() == 0 {
        let r = String::new();
        assert(r@ =~= step_pkgs_text(step@, msg.locale));
        return r;
    }
    let mut t = crate::text::owned("#### ");
    push_str(&mut t, msg.packages());
    push_str(&mut t, "\n\n");
    let mut lines = String::new();
    push_pkg_lines(&mut lines, &step.packages);
    assert(lines@ =~= pkg_lines(step@.packages));
    push_str(&mut t, lines.as_str());
    push_str(&mut t, "\n");
    t
}

fn step_state_string(step: &Step, msg: &Messages) -> (r: String)
    ensures
        r@ == step_state_text(step@, msg.locale),
{
    if step.state.len() == 0 {
        let r = String::new();
        assert(r@ =~= step_state_text(step@, msg.locale));
        return r;
    }
    let mut t = crate::text::owned("#### ");
    push_str(&mut t, msg.step_state());
    push_str(&mut t, "\n\n");
    push_ticked_items(&mut t, &step.state);
    push_str(&mut t, "\n");
    t
}

fn step_files_part(
    out: &mut String,
    long: &mut Vec<(String, String)>,
    step: &Step,
    blobs: &crate::snapshot::Blobs,
    msg: &Messages,
)
    ensures
        final(out)@ == old(out)@ + step_files_text(step@, blobs.spec_texts(), msg.locale),
        crate::snapshot::blob_pairs(final(long)@) == crate::snapshot::blob_pairs(old(long)@)
            + files_long(step@.files, blobs.spec_texts()),
{
    let ghost bt = blobs.spec_texts();
    if step.files.len() == 0 {
        assert(changes(step.files@).map_values(|c: ChangeV| block_long(c, bt)) =~= Seq::<Seq<(Seq<char>, Seq<char>)>>::empty());
        assert(crate::snapshot::blob_pairs(long@) =~= crate::snapshot::blob_pairs(long@) + files_long(step@.files, bt));
        assert(out@ =~= out@ + step_files_text(step@, bt, msg.locale));
        return;
    }
    let mut t = crate::text::owned("#### ");
    push_str(&mut t, msg.step_files());
    push_str(&mut t, "\n\n");
    let mut entries = String::new();
    push_file_entries(&mut entries, long, &step.files, blobs, msg);
    assert(entries@ =~= files_entries(step@.files, bt, msg.locale));
    push_str(&mut t, entries.as_str());
    push_str(out, t.as_str());
}

fn step_section_exec(
    out: &mut String,
    long: &mut Vec<(String, String)>,
    i: usize,
    step: &Step,
    without_steps: bool,
    blobs: &crate::snapshot::Blobs,
    msg: &Messages,
    touched: &Vec<String>,
)
    requires
        i < usize::MAX,
    ensures
        final(out)@ == old(out)@ + step_section(i as int, step@, without_steps, blobs.spec_texts(), msg.locale, strs(touched@)),
        crate::snapshot::blob_pairs(final(long)@) == crate::snapshot::blob_pairs(old(long)@)
            + files_long(step@.files, blobs.spec_texts()),
{
    let mut t = crate::text::owned("### 4.");
    push_decimal(&mut t, (i + 1) as u64);
    push_str(&mut t, ". ");
    let title = title_of(step, without_steps, msg);
    push_str(&mut t, title.as_str());
    push_str(&mut t, "\n\n");
    step_body(&mut t, step, msg);
    let d = dirs_string(step, msg);
    push_str(&mut t, d.as_str());
    let p = pkgs_string(step, msg);
    push_str(&mut t, p.as_str());
    let sn = step_state_string(step, msg);
    push_str(&mut t, sn.as_str());
    step_files_part(&mut t, long, step, blobs, msg);
    let tt = step_touched_string(touched, msg);
    push_str(&mut t, tt.as_str());
    assert(t@ == step_section(i as int, step@, without_steps, blobs.spec_texts(), msg.locale, strs(touched@)));
    push_str(out, t.as_str());
}

#[verifier::spinoff_prover]
fn procedure(
    out: &mut String,
    long: &mut Vec<(String, String)>,
    runbook: &Runbook,
    blobs: &crate::snapshot::Blobs,
    msg: &Messages,
    touched: &Touched,
)
    ensures
        final(out)@ == old(out)@ + procedure_text(*runbook, blobs.spec_texts(), msg.locale, *touched),
        crate::snapshot::blob_pairs(final(long)@) == crate::snapshot::blob_pairs(old(long)@)
            + procedure_long(*runbook, blobs.spec_texts()),
{
    let ghost start = out@;
    let ghost l = msg.locale;
    let ghost bt = blobs.spec_texts();
    let ghost sts = steps(runbook.steps@);
    let ghost secs = Seq::new(sts.len(), |i: int| step_section(i, sts[i], runbook.without_steps, bt, l, step_touched(*runbook, *touched, i)));
    let ghost g = |st: StepV| files_long(st.files, bt);
    let all = all_changes(runbook);
    let ghost long0 = crate::snapshot::blob_pairs(long@);
    push_str(out, "## 4. ");
    push_str(out, msg.procedure());
    push_str(out, "\n\n");
    push_str(out, msg.procedure_intro());
    push_str(out, "\n\n");
    let ghost mid = out@;
    let mut i: usize = 0;
    assert(secs.take(0) =~= Seq::<Seq<char>>::empty());
    assert(sts.take(0).map_values(g) =~= Seq::<Seq<(Seq<char>, Seq<char>)>>::empty());
    assert(long0 + flat_pairs(sts.take(0).map_values(g)) =~= long0);
    while i < runbook.steps.len()
        invariant
            i <= runbook.steps@.len(),
            sts == steps(runbook.steps@),
            l == msg.locale,
            bt == blobs.spec_texts(),
            secs == Seq::new(sts.len(), |i: int| step_section(i, sts[i], runbook.without_steps, bt, l, step_touched(*runbook, *touched, i))),
            g == (|st: StepV| files_long(st.files, bt)),
            changes(all@) == all_files(*runbook),
            out@ == mid + concat(secs.take(i as int)),
            crate::snapshot::blob_pairs(long@) == long0 + flat_pairs(sts.take(i as int).map_values(g)),
        decreases runbook.steps.len() - i,
    {
        let step = &runbook.steps[i];
        assert(sts[i as int] == step@);
        let from = match step.started {
            Some(t) => t,
            None => i128::MIN,
        };
        let until = if i + 1 < runbook.steps.len() {
            assert(sts[i + 1] == runbook.steps@[i + 1]@);
            match runbook.steps[i + 1].started {
                Some(t) => Some(t),
                None => Some(i128::MIN),
            }
        } else {
            None
        };
        let window = touched.in_window(from, until);
        let mine = untracked_exec(&all, &window);
        assert(strs(mine@) == step_touched(*runbook, *touched, i as int));
        assert(secs.take(i + 1) =~= secs.take(i as int).push(secs[i as int]));
        proof {
            lemma_concat_push(secs.take(i as int), secs[i as int]);
            lemma_map_values_step(sts, g, i as int);
        }
        step_section_exec(out, long, i, step, runbook.without_steps, blobs, msg, &mine);
        assert(sts.take(i + 1).map_values(g).drop_last() == sts.take(i as int).map_values(g));
        assert(crate::snapshot::blob_pairs(long@) =~= long0 + flat_pairs(sts.take(i + 1).map_values(g)));
        i = i + 1;
    }
    assert(secs.take(secs.len() as int) == secs);
    assert(sts.take(sts.len() as int) == sts);
    assert(out@ =~= start + procedure_text(*runbook, bt, l, *touched));
}

// ----------------------------------------------------------------------------
// Touched files.

/// Some change of `cs` is to the path `p`.
pub open spec fn has_change(cs: Seq<ChangeV>, p: Seq<char>) -> bool {
    exists|i: int| 0 <= i < cs.len() && change_path(#[trigger] cs[i]) == p
}

/// The touched paths that no change accounts for, in their order: the
/// watcher saw a write, and no content was recorded for them.
pub open spec fn untracked(cs: Seq<ChangeV>, ps: Seq<Seq<char>>) -> Seq<Seq<char>> {
    ps.filter_map(|p: Seq<char>| if has_change(cs, p) { None } else { Some(p) })
}

fn has_change_exec(all: &Vec<Change>, p: &str) -> (r: bool)
    ensures
        r == has_change(changes(all@), p@),
{
    let ghost cs = changes(all@);
    let mut i: usize = 0;
    while i < all.len()
        invariant
            i <= all@.len(),
            cs == changes(all@),
            forall|k: int| 0 <= k < i ==> change_path(#[trigger] cs[k]) != p@,
        decreases all.len() - i,
    {
        assert(cs[i as int] == all@[i as int]@);
        if crate::text::str_eq(all[i].path(), p) {
            return true;
        }
        i = i + 1;
    }
    false
}

fn untracked_exec(all: &Vec<Change>, ps: &Vec<String>) -> (r: Vec<String>)
    ensures
        strs(r@) == untracked(changes(all@), strs(ps@)),
{
    let ghost cs = changes(all@);
    let ghost v = strs(ps@);
    let ghost f = |p: Seq<char>| if has_change(cs, p) { None } else { Some(p) };
    let mut r: Vec<String> = Vec::new();
    let mut i: usize = 0;
    assert(v.take(0).filter_map(f) =~= strs(r@));
    while i < ps.len()
        invariant
            i <= ps@.len(),
            cs == changes(all@),
            v == strs(ps@),
            f == (|p: Seq<char>| if has_change(cs, p) { None } else { Some(p) }),
            strs(r@) == v.take(i as int).filter_map(f),
        decreases ps.len() - i,
    {
        proof { crate::text::lemma_filter_map_step(v, f, i as int); }
        assert(v[i as int] == ps@[i as int]@);
        if !has_change_exec(all, ps[i].as_str()) {
            let x = ps[i].clone();
            proof { crate::order::lemma_strs_push(r@, x); }
            r.push(x);
        }
        i = i + 1;
    }
    assert(v.take(v.len() as int) == v);
    r
}

pub open spec fn ticked_item(p: Seq<char>) -> Seq<char> {
    "- `"@ + p + "`\n"@
}

/// One item a line, in backticks.
pub open spec fn ticked_items(ps: Seq<Seq<char>>) -> Seq<char> {
    concat(ps.map_values(|p: Seq<char>| ticked_item(p)))
}

fn push_ticked_items(out: &mut String, ps: &Vec<String>)
    ensures
        final(out)@ == old(out)@ + ticked_items(strs(ps@)),
{
    let ghost xs = strs(ps@).map_values(|p: Seq<char>| ticked_item(p));
    let ghost start = out@;
    let mut i: usize = 0;
    assert(xs.take(0) =~= Seq::<Seq<char>>::empty());
    assert(out@ =~= start + concat(xs.take(0)));
    while i < ps.len()
        invariant
            i <= ps@.len(),
            xs == strs(ps@).map_values(|p: Seq<char>| ticked_item(p)),
            out@ == start + concat(xs.take(i as int)),
        decreases ps.len() - i,
    {
        push_str(out, "- `");
        push_str(out, ps[i].as_str());
        push_str(out, "`\n");
        proof {
            assert(xs.take(i + 1) =~= xs.take(i as int).push(xs[i as int]));
            lemma_concat_push(xs.take(i as int), xs[i as int]);
            assert(xs[i as int] =~= "- `"@ + ps@[i as int]@ + "`\n"@);
        }
        assert(out@ =~= start + concat(xs.take(i + 1)));
        i = i + 1;
    }
    assert(xs.take(xs.len() as int) == xs);
}

pub open spec fn gap_item(g: Seq<char>) -> Seq<char> {
    "- "@ + g + "\n"@
}

pub open spec fn gap_items(gs: Seq<Seq<char>>) -> Seq<char> {
    concat(gs.map_values(|g: Seq<char>| gap_item(g)))
}

fn push_gap_items(out: &mut String, gs: &Vec<String>)
    ensures
        final(out)@ == old(out)@ + gap_items(strs(gs@)),
{
    let ghost xs = strs(gs@).map_values(|g: Seq<char>| gap_item(g));
    let ghost start = out@;
    let mut i: usize = 0;
    assert(xs.take(0) =~= Seq::<Seq<char>>::empty());
    assert(out@ =~= start + concat(xs.take(0)));
    while i < gs.len()
        invariant
            i <= gs@.len(),
            xs == strs(gs@).map_values(|g: Seq<char>| gap_item(g)),
            out@ == start + concat(xs.take(i as int)),
        decreases gs.len() - i,
    {
        push_str(out, "- ");
        push_str(out, gs[i].as_str());
        push_str(out, "\n");
        proof {
            assert(xs.take(i + 1) =~= xs.take(i as int).push(xs[i as int]));
            lemma_concat_push(xs.take(i as int), xs[i as int]);
            assert(xs[i as int] =~= "- "@ + gs@[i as int]@ + "\n"@);
        }
        assert(out@ =~= start + concat(xs.take(i + 1)));
        i = i + 1;
    }
    assert(xs.take(xs.len() as int) == xs);
}

/// Where the window of a step opens: at its heading, or with the session for
/// the work before the first heading.
pub open spec fn step_from(st: StepV) -> i128 {
    match st.started {
        Some(t) => t,
        None => i128::MIN,
    }
}

/// Where it closes: where the window of the next step opens. The last one
/// stays open, so that a late notification still lands in a step.
pub open spec fn step_until(sts: Seq<StepV>, k: int) -> Option<i128> {
    if k + 1 < sts.len() {
        Some(step_from(sts[k + 1]))
    } else {
        None
    }
}

/// The paths first seen while step `k` was being worked on, that no change
/// accounts for.
pub open spec fn step_touched(r: Runbook, t: Touched, k: int) -> Seq<Seq<char>> {
    let sts = steps(r.steps@);
    untracked(all_files(r), in_window_of(seen(t.paths@), step_from(sts[k]), step_until(sts, k)))
}

pub open spec fn step_touched_text(ps: Seq<Seq<char>>, l: Locale) -> Seq<char> {
    if ps.len() == 0 {
        Seq::empty()
    } else {
        "#### "@ + crate::i18n::msg_step_touched(l) + "\n\n"@ + ticked_items(ps) + "\n"@
    }
}

fn step_touched_string(ps: &Vec<String>, msg: &Messages) -> (r: String)
    ensures
        r@ == step_touched_text(strs(ps@), msg.locale),
{
    if ps.len() == 0 {
        let r = String::new();
        assert(r@ =~= step_touched_text(strs(ps@), msg.locale));
        return r;
    }
    let mut t = crate::text::owned("#### ");
    push_str(&mut t, msg.step_touched());
    push_str(&mut t, "\n\n");
    push_ticked_items(&mut t, ps);
    push_str(&mut t, "\n");
    t
}

/// Every touched path that no change accounts for.
pub open spec fn touched_all(r: Runbook, t: Touched) -> Seq<Seq<char>> {
    untracked(all_files(r), in_window_of(seen(t.paths@), i128::MIN, None))
}

/// The touched paths of the session, after its changes: what the watcher saw
/// written, that warning when the list was cut at the cap, and the
/// directories that could not be watched. Nothing when there is none of it.
pub open spec fn touched_section_text(l: Locale, ps: Seq<Seq<char>>, truncated: bool, gaps: Seq<Seq<char>>) -> Seq<char> {
    if ps.len() == 0 && !truncated && gaps.len() == 0 {
        Seq::empty()
    } else {
        "### "@ + crate::i18n::msg_touched_files(l) + "\n\n"@ + crate::i18n::msg_touched_intro(l) + "\n\n"@
            + (if ps.len() > 0 { ticked_items(ps) + "\n"@ } else { Seq::<char>::empty() })
            + (if truncated {
            crate::i18n::msg_touched_truncated(l, MAX_PATHS as nat) + "\n\n"@
        } else {
            Seq::<char>::empty()
        }) + (if gaps.len() > 0 {
            crate::i18n::msg_touched_incomplete(l) + "\n\n"@ + gap_items(gaps) + "\n"@
        } else {
            Seq::<char>::empty()
        })
    }
}

fn touched_section(all: &Vec<Change>, touched: &Touched, msg: &Messages) -> (r: String)
    ensures
        r@ == touched_section_text(
            msg.locale,
            untracked(changes(all@), in_window_of(seen(touched.paths@), i128::MIN, None)),
            touched.truncated,
            strs(touched.incomplete_roots@),
        ),
{
    let seen_all = touched.in_window(i128::MIN, None);
    let ps = untracked_exec(all, &seen_all);
    let ghost l = msg.locale;
    let ghost gaps = strs(touched.incomplete_roots@);
    if ps.len() == 0 && !touched.truncated && touched.incomplete_roots.len() == 0 {
        let r = String::new();
        assert(r@ =~= touched_section_text(l, strs(ps@), touched.truncated, gaps));
        return r;
    }
    let mut t = crate::text::owned("### ");
    push_str(&mut t, msg.touched_files());
    push_str(&mut t, "\n\n");
    push_str(&mut t, msg.touched_intro());
    push_str(&mut t, "\n\n");
    let ghost head = t@;
    let mut a = String::new();
    if ps.len() > 0 {
        push_ticked_items(&mut a, &ps);
        push_str(&mut a, "\n");
    }
    assert(a@ =~= (if strs(ps@).len() > 0 { ticked_items(strs(ps@)) + "\n"@ } else { Seq::<char>::empty() }));
    let mut b = String::new();
    if touched.truncated {
        let m = msg.touched_truncated(MAX_PATHS);
        push_str(&mut b, m.as_str());
        push_str(&mut b, "\n\n");
    }
    assert(b@ =~= (if touched.truncated {
        crate::i18n::msg_touched_truncated(l, MAX_PATHS as nat) + "\n\n"@
    } else {
        Seq::<char>::empty()
    }));
    let mut c = String::new();
    if touched.incomplete_roots.len() > 0 {
        push_str(&mut c, msg.touched_incomplete());
        push_str(&mut c, "\n\n");
        push_gap_items(&mut c, &touched.incomplete_roots);
        push_str(&mut c, "\n");
    }
    assert(c@ =~= (if gaps.len() > 0 {
        crate::i18n::msg_touched_incomplete(l) + "\n\n"@ + gap_items(gaps) + "\n"@
    } else {
        Seq::<char>::empty()
    }));
    push_str(&mut t, a.as_str());
    push_str(&mut t, b.as_str());
    push_str(&mut t, c.as_str());
    assert(t@ =~= head + a@ + b@ + c@);
    t
}

// ----------------------------------------------------------------------------
// Services, firewall and accounts.

pub open spec fn user_names(us: Seq<crate::state::UserV>) -> Seq<Seq<char>> {
    us.map_values(|u: crate::state::UserV| u.0)
}

pub open spec fn group_names(gs: Seq<crate::state::GroupV>) -> Seq<Seq<char>> {
    gs.map_values(|g: crate::state::GroupV| g.0)
}

/// The users whose entry changed, by name.
pub open spec fn changed_user_names(ps: Seq<(crate::state::UserV, crate::state::UserV)>) -> Seq<Seq<char>> {
    ps.map_values(|p: (crate::state::UserV, crate::state::UserV)| p.1.0)
}

fn user_names_exec(us: &Vec<crate::state::User>) -> (r: Vec<String>)
    ensures
        strs(r@) == user_names(crate::state::users(us@)),
{
    let ghost v = user_names(crate::state::users(us@));
    let mut r: Vec<String> = Vec::new();
    let mut i: usize = 0;
    while i < us.len()
        invariant
            i <= us@.len(),
            v == user_names(crate::state::users(us@)),
            strs(r@) == v.take(i as int),
        decreases us.len() - i,
    {
        let x = us[i].name.clone();
        proof { crate::order::lemma_strs_push(r@, x); }
        r.push(x);
        assert(v.take(i + 1) =~= v.take(i as int).push(v[i as int]));
        i = i + 1;
    }
    assert(v.take(v.len() as int) == v);
    r
}

fn changed_user_names_exec(ps: &Vec<(crate::state::User, crate::state::User)>) -> (r: Vec<String>)
    ensures
        strs(r@) == changed_user_names(crate::state::user_pairs(ps@)),
{
    let ghost v = changed_user_names(crate::state::user_pairs(ps@));
    let mut r: Vec<String> = Vec::new();
    let mut i: usize = 0;
    while i < ps.len()
        invariant
            i <= ps@.len(),
            v == changed_user_names(crate::state::user_pairs(ps@)),
            strs(r@) == v.take(i as int),
        decreases ps.len() - i,
    {
        let x = ps[i].1.name.clone();
        proof { crate::order::lemma_strs_push(r@, x); }
        r.push(x);
        assert(v.take(i + 1) =~= v.take(i as int).push(v[i as int]));
        i = i + 1;
    }
    assert(v.take(v.len() as int) == v);
    r
}

fn group_names_exec(gs: &Vec<crate::state::Group>) -> (r: Vec<String>)
    ensures
        strs(r@) == group_names(crate::state::groups(gs@)),
{
    let ghost v = group_names(crate::state::groups(gs@));
    let mut r: Vec<String> = Vec::new();
    let mut i: usize = 0;
    while i < gs.len()
        invariant
            i <= gs@.len(),
            v == group_names(crate::state::groups(gs@)),
            strs(r@) == v.take(i as int),
        decreases gs.len() - i,
    {
        let x = gs[i].name.clone();
        proof { crate::order::lemma_strs_push(r@, x); }
        r.push(x);
        assert(v.take(i + 1) =~= v.take(i as int).push(v[i as int]));
        i = i + 1;
    }
    assert(v.take(v.len() as int) == v);
    r
}

pub open spec fn services_lists(d: crate::state::Diff, l: Locale) -> Seq<char> {
    list_text(crate::i18n::msg_units_enabled(l), strs(d.units_enabled@))
        + list_text(crate::i18n::msg_units_disabled(l), strs(d.units_disabled@))
        + list_text(crate::i18n::msg_services_started(l), strs(d.services_started@))
        + list_text(crate::i18n::msg_services_stopped(l), strs(d.services_stopped@))
}

pub open spec fn firewall_lists(d: crate::state::Diff, l: Locale) -> Seq<char> {
    list_text(crate::i18n::msg_firewall_services_added(l), strs(d.firewall_services_added@))
        + list_text(crate::i18n::msg_firewall_services_removed(l), strs(d.firewall_services_removed@))
        + list_text(crate::i18n::msg_firewall_ports_added(l), strs(d.firewall_ports_added@))
        + list_text(crate::i18n::msg_firewall_ports_removed(l), strs(d.firewall_ports_removed@))
}

pub open spec fn has_account_changes(d: crate::state::Diff) -> bool {
    ||| d.users_added@.len() > 0
    ||| d.users_removed@.len() > 0
    ||| d.users_changed@.len() > 0
    ||| d.groups_added@.len() > 0
    ||| d.groups_removed@.len() > 0
}

pub open spec fn accounts_text(d: crate::state::Diff, l: Locale) -> Seq<char> {
    if !has_account_changes(d) {
        Seq::empty()
    } else {
        "### "@ + crate::i18n::msg_accounts(l) + "\n\n"@
            + list_text(crate::i18n::msg_users_added(l), user_names(crate::state::users(d.users_added@)))
            + list_text(crate::i18n::msg_users_removed(l), user_names(crate::state::users(d.users_removed@)))
            + list_text(crate::i18n::msg_users_changed(l), changed_user_names(crate::state::user_pairs(d.users_changed@)))
            + list_text(crate::i18n::msg_groups_added(l), group_names(crate::state::groups(d.groups_added@)))
            + list_text(crate::i18n::msg_groups_removed(l), group_names(crate::state::groups(d.groups_removed@)))
    }
}

/// Services, firewall rules and accounts, from systemd, firewalld and the
/// account files. A subsystem that did not answer is said to be unknown
/// rather than reported as unchanged.
pub open spec fn state_section_text(d: crate::state::Diff, l: Locale) -> Seq<char> {
    "### "@ + crate::i18n::msg_services(l) + "\n\n"@ + if d.systemd_known && d.firewall_known && d.spec_is_empty() {
        crate::i18n::msg_no_state_changes(l) + "\n\n"@
    } else {
        (if d.systemd_known {
            services_lists(d, l)
        } else {
            crate::i18n::msg_systemd_unavailable(l) + "\n\n"@
        }) + (if d.firewall_known {
            firewall_lists(d, l)
        } else {
            crate::i18n::msg_firewall_unavailable(l) + "\n\n"@
        }) + accounts_text(d, l)
    }
}

fn accounts_string(d: &crate::state::Diff, msg: &Messages) -> (r: String)
    ensures
        r@ == accounts_text(*d, msg.locale),
{
    if !(d.users_added.len() > 0 || d.users_removed.len() > 0 || d.users_changed.len() > 0
        || d.groups_added.len() > 0 || d.groups_removed.len() > 0) {
        let r = String::new();
        assert(r@ =~= accounts_text(*d, msg.locale));
        return r;
    }
    let mut t = crate::text::owned("### ");
    push_str(&mut t, msg.accounts());
    push_str(&mut t, "\n\n");
    let a = list_string(msg.users_added(), &user_names_exec(&d.users_added));
    push_str(&mut t, a.as_str());
    let b = list_string(msg.users_removed(), &user_names_exec(&d.users_removed));
    push_str(&mut t, b.as_str());
    let c = list_string(msg.users_changed(), &changed_user_names_exec(&d.users_changed));
    push_str(&mut t, c.as_str());
    let e = list_string(msg.groups_added(), &group_names_exec(&d.groups_added));
    push_str(&mut t, e.as_str());
    let f = list_string(msg.groups_removed(), &group_names_exec(&d.groups_removed));
    push_str(&mut t, f.as_str());
    t
}

fn services_string(d: &crate::state::Diff, msg: &Messages) -> (r: String)
    ensures
        r@ == services_lists(*d, msg.locale),
{
    let mut t = list_string(msg.units_enabled(), &d.units_enabled);
    let b = list_string(msg.units_disabled(), &d.units_disabled);
    push_str(&mut t, b.as_str());
    let c = list_string(msg.services_started(), &d.services_started);
    push_str(&mut t, c.as_str());
    let e = list_string(msg.services_stopped(), &d.services_stopped);
    push_str(&mut t, e.as_str());
    t
}

fn firewall_string(d: &crate::state::Diff, msg: &Messages) -> (r: String)
    ensures
        r@ == firewall_lists(*d, msg.locale),
{
    let mut t = list_string(msg.firewall_services_added(), &d.firewall_services_added);
    let b = list_string(msg.firewall_services_removed(), &d.firewall_services_removed);
    push_str(&mut t, b.as_str());
    let c = list_string(msg.firewall_ports_added(), &d.firewall_ports_added);
    push_str(&mut t, c.as_str());
    let e = list_string(msg.firewall_ports_removed(), &d.firewall_ports_removed);
    push_str(&mut t, e.as_str());
    t
}

fn state_section(d: &crate::state::Diff, msg: &Messages) -> (r: String)
    ensures
        r@ == state_section_text(*d, msg.locale),
{
    let ghost l = msg.locale;
    let mut t = crate::text::owned("### ");
    push_str(&mut t, msg.services());
    push_str(&mut t, "\n\n");
    if d.systemd_known && d.firewall_known && d.is_empty() {
        push_str(&mut t, msg.no_state_changes());
        push_str(&mut t, "\n\n");
        return t;
    }
    let a = if d.systemd_known {
        services_string(d, msg)
    } else {
        let mut x = crate::text::owned(msg.systemd_unavailable());
        push_str(&mut x, "\n\n");
        x
    };
    let b = if d.firewall_known {
        firewall_string(d, msg)
    } else {
        let mut x = crate::text::owned(msg.firewall_unavailable());
        push_str(&mut x, "\n\n");
        x
    };
    let c = accounts_string(d, msg);
    let ghost head = t@;
    push_str(&mut t, a.as_str());
    push_str(&mut t, b.as_str());
    push_str(&mut t, c.as_str());
    assert(t@ =~= head + a@ + b@ + c@);
    t
}

/// What the rollback chapter offers to undo of the services and accounts:
/// the units enabled, the users and the groups added.
pub open spec fn rollback_state_names(d: crate::state::Diff) -> Seq<Seq<char>> {
    strs(d.units_enabled@) + user_names(crate::state::users(d.users_added@))
        + group_names(crate::state::groups(d.groups_added@))
}

fn rollback_state_names_exec(d: &crate::state::Diff) -> (r: Vec<String>)
    ensures
        strs(r@) == rollback_state_names(*d),
{
    let mut r = crate::order::copy_strings(&d.units_enabled);
    let us = user_names_exec(&d.users_added);
    let gs = group_names_exec(&d.groups_added);
    let ghost base = strs(r@);
    let mut i: usize = 0;
    assert(strs(r@) =~= base + strs(us@).take(0));
    while i < us.len()
        invariant
            i <= us@.len(),
            strs(r@) == base + strs(us@).take(i as int),
        decreases us.len() - i,
    {
        let x = us[i].clone();
        proof { crate::order::lemma_strs_push(r@, x); }
        r.push(x);
        assert(strs(us@).take(i + 1) =~= strs(us@).take(i as int).push(us@[i as int]@));
        assert(strs(r@) =~= base + strs(us@).take(i + 1));
        i = i + 1;
    }
    assert(strs(us@).take(us@.len() as int) == strs(us@));
    let ghost base2 = strs(r@);
    let mut k: usize = 0;
    assert(strs(r@) =~= base2 + strs(gs@).take(0));
    while k < gs.len()
        invariant
            k <= gs@.len(),
            strs(r@) == base2 + strs(gs@).take(k as int),
        decreases gs.len() - k,
    {
        let x = gs[k].clone();
        proof { crate::order::lemma_strs_push(r@, x); }
        r.push(x);
        assert(strs(gs@).take(k + 1) =~= strs(gs@).take(k as int).push(gs@[k as int]@));
        assert(strs(r@) =~= base2 + strs(gs@).take(k + 1));
        k = k + 1;
    }
    assert(strs(gs@).take(gs@.len() as int) == strs(gs@));
    assert(strs(r@) =~= rollback_state_names(*d));
    r
}

// ----------------------------------------------------------------------------
// What changed.

pub open spec fn errors_text(d: crate::packages::Diff, l: Locale) -> Seq<char> {
    if d.errors@.len() == 0 {
        Seq::empty()
    } else {
        "> "@ + crate::i18n::msg_packages_incomplete(l) + "\n\n"@
            + concat(strs(d.errors@).map_values(|e: Seq<char>| "> - "@ + e + "\n"@)) + "\n"@
    }
}

pub open spec fn installed_row(p: PackageV) -> Seq<char> {
    "| `"@ + p.0 + "` | "@ + p.1 + " |\n"@
}

pub open spec fn deps_text(d: crate::packages::Diff, l: Locale) -> Seq<char> {
    if crate::packages::dependencies_of(d).len() > 0 {
        crate::i18n::msg_packages_dependencies(l, crate::packages::dependencies_of(d).len()) + "\n\n"@
    } else {
        Seq::empty()
    }
}

pub open spec fn explicit_text(d: crate::packages::Diff, l: Locale) -> Seq<char> {
    let ex = crate::packages::explicit_of(d);
    if ex.len() == 0 {
        Seq::empty()
    } else {
        "**"@ + crate::i18n::msg_packages_installed(l) + "**\n\n"@ + "| "@ + crate::i18n::msg_name(l)
            + " | "@ + crate::i18n::msg_version(l) + " |\n|---|---|\n"@
            + concat(ex.map_values(|p: PackageV| installed_row(p))) + "\n"@ + deps_text(d, l)
    }
}

pub open spec fn removed_text(d: crate::packages::Diff, l: Locale) -> Seq<char> {
    if d.removed@.len() == 0 {
        Seq::empty()
    } else {
        "**"@ + crate::i18n::msg_packages_removed(l) + "**\n\n"@ + pkg_lines(crate::packages::pkgs(d.removed@)) + "\n"@
    }
}

pub open spec fn upgrade_line(u: crate::packages::UpgradeV) -> Seq<char> {
    "- `"@ + u.0 + "` "@ + u.2 + " → "@ + u.3 + "\n"@
}

pub open spec fn upgraded_text(d: crate::packages::Diff, l: Locale) -> Seq<char> {
    if d.upgraded@.len() == 0 {
        Seq::empty()
    } else {
        "**"@ + crate::i18n::msg_packages_upgraded(l) + "**\n\n"@
            + concat(crate::packages::upgrades(d.upgraded@).map_values(|u: crate::packages::UpgradeV| upgrade_line(u)))
            + "\n"@
    }
}

pub open spec fn list_text(label: Seq<char>, vs: Seq<Seq<char>>) -> Seq<char> {
    if vs.len() == 0 {
        Seq::empty()
    } else {
        "**"@ + label + "**\n\n"@ + concat(vs.map_values(|v: Seq<char>| "- `"@ + v + "`\n"@)) + "\n"@
    }
}

/// Packages, repositories and module streams, from the rpm database rather
/// than from what the commands printed. A host without rpm is not reported
/// as one where nothing changed.
pub open spec fn packages_section_text(d: crate::packages::Diff, l: Locale) -> Seq<char> {
    "### "@ + crate::i18n::msg_packages(l) + "\n\n"@ + errors_text(d, l) + if !d.available {
        crate::i18n::msg_packages_unavailable(l) + "\n\n"@
    } else if d.spec_is_empty() {
        crate::i18n::msg_no_package_changes(l) + "\n\n"@
    } else {
        explicit_text(d, l) + removed_text(d, l) + upgraded_text(d, l)
            + list_text(crate::i18n::msg_repositories_added(l), strs(d.repositories_added@))
            + list_text(crate::i18n::msg_repositories_removed(l), strs(d.repositories_removed@))
            + list_text(crate::i18n::msg_modules_added(l), strs(d.modules_added@))
    }
}

fn errors_string(d: &crate::packages::Diff, msg: &Messages) -> (r: String)
    ensures
        r@ == errors_text(*d, msg.locale),
{
    if d.errors.len() == 0 {
        let r = String::new();
        assert(r@ =~= errors_text(*d, msg.locale));
        return r;
    }
    let ghost es = strs(d.errors@);
    let ghost f = |e: Seq<char>| "> - "@ + e + "\n"@;
    let mut lines = String::new();
    let mut i: usize = 0;
    assert(concat(es.take(0).map_values(f)) =~= lines@);
    while i < d.errors.len()
        invariant
            i <= d.errors@.len(),
            es == strs(d.errors@),
            f == (|e: Seq<char>| "> - "@ + e + "\n"@),
            lines@ == concat(es.take(i as int).map_values(f)),
        decreases d.errors.len() - i,
    {
        proof {
            lemma_map_values_step(es, f, i as int);
            lemma_concat_push(es.take(i as int).map_values(f), f(es[i as int]));
        }
        assert(es[i as int] == d.errors@[i as int]@);
        let mut x = crate::text::owned("> - ");
        push_str(&mut x, d.errors[i].as_str());
        push_str(&mut x, "\n");
        push_str(&mut lines, x.as_str());
        i = i + 1;
    }
    assert(es.take(es.len() as int) == es);
    let mut t = crate::text::owned("> ");
    push_str(&mut t, msg.packages_incomplete());
    push_str(&mut t, "\n\n");
    push_str(&mut t, lines.as_str());
    push_str(&mut t, "\n");
    t
}

fn explicit_string(d: &crate::packages::Diff, msg: &Messages) -> (r: String)
    ensures
        r@ == explicit_text(*d, msg.locale),
{
    let ex = d.explicit_installs();
    let ghost ps = crate::packages::pkgs(ex@);
    if ex.len() == 0 {
        let r = String::new();
        assert(r@ =~= explicit_text(*d, msg.locale));
        return r;
    }
    let ghost f = |p: PackageV| installed_row(p);
    let mut rows = String::new();
    let mut i: usize = 0;
    assert(concat(ps.take(0).map_values(f)) =~= rows@);
    while i < ex.len()
        invariant
            i <= ex@.len(),
            ps == crate::packages::pkgs(ex@),
            f == (|p: PackageV| installed_row(p)),
            rows@ == concat(ps.take(i as int).map_values(f)),
        decreases ex.len() - i,
    {
        proof {
            lemma_map_values_step(ps, f, i as int);
            lemma_concat_push(ps.take(i as int).map_values(f), f(ps[i as int]));
        }
        assert(ps[i as int] == ex@[i as int]@);
        let mut x = crate::text::owned("| `");
        push_str(&mut x, ex[i].name.as_str());
        push_str(&mut x, "` | ");
        push_str(&mut x, ex[i].version.as_str());
        push_str(&mut x, " |\n");
        push_str(&mut rows, x.as_str());
        i = i + 1;
    }
    assert(ps.take(ps.len() as int) == ps);
    let mut t = crate::text::owned("**");
    push_str(&mut t, msg.packages_installed());
    push_str(&mut t, "**\n\n");
    push_str(&mut t, "| ");
    push_str(&mut t, msg.name());
    push_str(&mut t, " | ");
    push_str(&mut t, msg.version());
    push_str(&mut t, " |\n|---|---|\n");
    push_str(&mut t, rows.as_str());
    push_str(&mut t, "\n");
    let deps = d.dependency_installs().len();
    let mut dt = String::new();
    if deps > 0 {
        let note = msg.packages_dependencies(deps);
        push_str(&mut dt, note.as_str());
        push_str(&mut dt, "\n\n");
    }
    assert(dt@ =~= deps_text(*d, msg.locale));
    push_str(&mut t, dt.as_str());
    t
}

fn removed_string(d: &crate::packages::Diff, msg: &Messages) -> (r: String)
    ensures
        r@ == removed_text(*d, msg.locale),
{
    if d.removed.len() == 0 {
        let r = String::new();
        assert(r@ =~= removed_text(*d, msg.locale));
        return r;
    }
    let mut t = crate::text::owned("**");
    push_str(&mut t, msg.packages_removed());
    push_str(&mut t, "**\n\n");
    let mut lines = String::new();
    push_pkg_lines(&mut lines, &d.removed);
    assert(lines@ =~= pkg_lines(crate::packages::pkgs(d.removed@)));
    push_str(&mut t, lines.as_str());
    push_str(&mut t, "\n");
    t
}

fn upgraded_string(d: &crate::packages::Diff, msg: &Messages) -> (r: String)
    ensures
        r@ == upgraded_text(*d, msg.locale),
{
    if d.upgraded.len() == 0 {
        let r = String::new();
        assert(r@ =~= upgraded_text(*d, msg.locale));
        return r;
    }
    let ghost us = crate::packages::upgrades(d.upgraded@);
    let ghost f = |u: crate::packages::UpgradeV| upgrade_line(u);
    let mut lines = String::new();
    let mut i: usize = 0;
    assert(concat(us.take(0).map_values(f)) =~= lines@);
    while i < d.upgraded.len()
        invariant
            i <= d.upgraded@.len(),
            us == crate::packages::upgrades(d.upgraded@),
            f == (|u: crate::packages::UpgradeV| upgrade_line(u)),
            lines@ == concat(us.take(i as int).map_values(f)),
        decreases d.upgraded.len() - i,
    {
        proof {
            lemma_map_values_step(us, f, i as int);
            lemma_concat_push(us.take(i as int).map_values(f), f(us[i as int]));
        }
        let u = &d.upgraded[i];
        assert(us[i as int] == u@);
        let mut x = crate::text::owned("- `");
        push_str(&mut x, u.name.as_str());
        push_str(&mut x, "` ");
        push_str(&mut x, u.from.as_str());
        push_str(&mut x, " → ");
        push_str(&mut x, u.to.as_str());
        push_str(&mut x, "\n");
        push_str(&mut lines, x.as_str());
        i = i + 1;
    }
    assert(us.take(us.len() as int) == us);
    let mut t = crate::text::owned("**");
    push_str(&mut t, msg.packages_upgraded());
    push_str(&mut t, "**\n\n");
    push_str(&mut t, lines.as_str());
    push_str(&mut t, "\n");
    t
}

fn list_string(label: &str, vs: &Vec<String>) -> (r: String)
    ensures
        r@ == list_text(label@, strs(vs@)),
{
    if vs.len() == 0 {
        let r = String::new();
        assert(r@ =~= list_text(label@, strs(vs@)));
        return r;
    }
    let ghost xs = strs(vs@);
    let ghost f = |v: Seq<char>| "- `"@ + v + "`\n"@;
    let mut lines = String::new();
    let mut i: usize = 0;
    assert(concat(xs.take(0).map_values(f)) =~= lines@);
    while i < vs.len()
        invariant
            i <= vs@.len(),
            xs == strs(vs@),
            f == (|v: Seq<char>| "- `"@ + v + "`\n"@),
            lines@ == concat(xs.take(i as int).map_values(f)),
        decreases vs.len() - i,
    {
        proof {
            lemma_map_values_step(xs, f, i as int);
            lemma_concat_push(xs.take(i as int).map_values(f), f(xs[i as int]));
        }
        assert(xs[i as int] == vs@[i as int]@);
        let mut x = crate::text::owned("- `");
        push_str(&mut x, vs[i].as_str());
        push_str(&mut x, "`\n");
        push_str(&mut lines, x.as_str());
        i = i + 1;
    }
    assert(xs.take(xs.len() as int) == xs);
    let mut t = crate::text::owned("**");
    push_str(&mut t, label);
    push_str(&mut t, "**\n\n");
    push_str(&mut t, lines.as_str());
    push_str(&mut t, "\n");
    t
}

fn packages_section(d: &crate::packages::Diff, msg: &Messages) -> (r: String)
    ensures
        r@ == packages_section_text(*d, msg.locale),
{
    let mut t = crate::text::owned("### ");
    push_str(&mut t, msg.packages());
    push_str(&mut t, "\n\n");
    let e = errors_string(d, msg);
    push_str(&mut t, e.as_str());
    let ghost l = msg.locale;
    let ghost head = t@;
    let tail = if !d.available {
        let mut x = crate::text::owned(msg.packages_unavailable());
        push_str(&mut x, "\n\n");
        x
    } else if d.is_empty() {
        let mut x = crate::text::owned(msg.no_package_changes());
        push_str(&mut x, "\n\n");
        x
    } else {
        let mut x = explicit_string(d, msg);
        let a = removed_string(d, msg);
        push_str(&mut x, a.as_str());
        let b = upgraded_string(d, msg);
        push_str(&mut x, b.as_str());
        let c = list_string(msg.repositories_added(), &d.repositories_added);
        push_str(&mut x, c.as_str());
        let e2 = list_string(msg.repositories_removed(), &d.repositories_removed);
        push_str(&mut x, e2.as_str());
        let f = list_string(msg.modules_added(), &d.modules_added);
        push_str(&mut x, f.as_str());
        x
    };
    push_str(&mut t, tail.as_str());
    t
}

pub open spec fn flat_changes(s: Seq<Seq<ChangeV>>) -> Seq<ChangeV>
    decreases s.len(),
{
    if s.len() == 0 {
        Seq::empty()
    } else {
        flat_changes(s.drop_last()) + s.last()
    }
}

/// Every changed file: those of the steps in order, then those no step
/// claimed.
pub open spec fn all_files(r: Runbook) -> Seq<ChangeV> {
    flat_changes(steps(r.steps@).map_values(|st: StepV| st.files)) + changes(r.other_files@)
}

fn all_changes(runbook: &Runbook) -> (r: Vec<Change>)
    ensures
        changes(r@) == all_files(*runbook),
{
    let ghost sts = steps(runbook.steps@);
    let ghost g = |st: StepV| st.files;
    let mut all: Vec<Change> = Vec::new();
    let mut k: usize = 0;
    assert(sts.take(0).map_values(g) =~= Seq::<Seq<ChangeV>>::empty());
    assert(changes(all@) =~= flat_changes(sts.take(0).map_values(g)));
    while k < runbook.steps.len()
        invariant
            k <= runbook.steps@.len(),
            sts == steps(runbook.steps@),
            g == (|st: StepV| st.files),
            changes(all@) == flat_changes(sts.take(k as int).map_values(g)),
        decreases runbook.steps.len() - k,
    {
        proof { lemma_map_values_step(sts, g, k as int); }
        let files = &runbook.steps[k].files;
        assert(sts[k as int].files == changes(files@));
        let ghost base = changes(all@);
        let mut i: usize = 0;
        assert(changes(all@) =~= base + changes(files@).take(0));
        while i < files.len()
            invariant
                i <= files@.len(),
                changes(all@) == base + changes(files@).take(i as int),
            decreases files.len() - i,
        {
            let c = files[i].duplicate();
            let ghost prev = all@;
            all.push(c);
            assert(changes(all@) =~= changes(prev).push(files@[i as int]@));
            assert(changes(files@).take(i + 1) =~= changes(files@).take(i as int).push(files@[i as int]@));
            assert(changes(all@) =~= base + changes(files@).take(i + 1));
            i = i + 1;
        }
        assert(changes(files@).take(changes(files@).len() as int) == changes(files@));
        assert(sts.take(k + 1).map_values(g).drop_last() == sts.take(k as int).map_values(g));
        k = k + 1;
    }
    assert(sts.take(sts.len() as int) == sts);
    let ghost base = changes(all@);
    let mut i: usize = 0;
    assert(changes(all@) =~= base + changes(runbook.other_files@).take(0));
    while i < runbook.other_files.len()
        invariant
            i <= runbook.other_files@.len(),
            changes(all@) == base + changes(runbook.other_files@).take(i as int),
        decreases runbook.other_files.len() - i,
    {
        let c = runbook.other_files[i].duplicate();
        let ghost prev = all@;
        all.push(c);
        assert(changes(all@) =~= changes(prev).push(runbook.other_files@[i as int]@));
        assert(changes(runbook.other_files@).take(i + 1) =~= changes(runbook.other_files@).take(i as int).push(runbook.other_files@[i as int]@));
        assert(changes(all@) =~= base + changes(runbook.other_files@).take(i + 1));
        i = i + 1;
    }
    assert(changes(runbook.other_files@).take(changes(runbook.other_files@).len() as int) == changes(runbook.other_files@));
    all
}

pub open spec fn table_row(c: ChangeV, l: Locale) -> Seq<char> {
    "| `"@ + change_path(c) + "` | "@ + crate::i18n::msg_change_kind(l, change_label(c)) + " |\n"@
}

pub open spec fn changed_table(cs: Seq<ChangeV>, l: Locale) -> Seq<char> {
    concat(cs.map_values(|c: ChangeV| table_row(c, l)))
}

pub open spec fn changed_files_text(r: Runbook, blobs: Seq<(Seq<char>, Seq<char>)>, l: Locale) -> Seq<char> {
    if all_files(r).len() == 0 {
        crate::i18n::msg_no_changes(l) + "\n\n"@
    } else {
        "### "@ + crate::i18n::msg_changed_files(l) + "\n\n"@ + "| "@ + crate::i18n::msg_path(l) + " | "@
            + crate::i18n::msg_change(l) + " |\n|---|---|\n"@ + changed_table(all_files(r), l) + "\n"@
            + crate::i18n::msg_attribution_note(l) + "\n\n"@ + files_entries(changes(r.other_files@), blobs, l)
    }
}

/// The packages, the services and accounts, the changed files, and the
/// paths only touched.
pub open spec fn what_changed_text(r: Runbook, blobs: Seq<(Seq<char>, Seq<char>)>, l: Locale, t: Touched) -> Seq<char> {
    "## 5. "@ + crate::i18n::msg_what_changed(l) + "\n\n"@ + packages_section_text(r.packages, l)
        + state_section_text(r.state, l) + changed_files_text(r, blobs, l)
        + touched_section_text(l, touched_all(r, t), t.truncated, strs(t.incomplete_roots@))
}

/// The diffs of the other files too long to show inline.
pub open spec fn changed_long(r: Runbook, blobs: Seq<(Seq<char>, Seq<char>)>) -> Seq<(Seq<char>, Seq<char>)> {
    if all_files(r).len() == 0 {
        Seq::empty()
    } else {
        files_long(changes(r.other_files@), blobs)
    }
}

fn table_string(all: &Vec<Change>, msg: &Messages) -> (r: String)
    ensures
        r@ == changed_table(changes(all@), msg.locale),
{
    let ghost cs = changes(all@);
    let ghost l = msg.locale;
    let ghost f = |c: ChangeV| table_row(c, l);
    let mut t = String::new();
    let mut i: usize = 0;
    assert(concat(cs.take(0).map_values(f)) =~= t@);
    while i < all.len()
        invariant
            i <= all@.len(),
            cs == changes(all@),
            l == msg.locale,
            f == (|c: ChangeV| table_row(c, l)),
            t@ == concat(cs.take(i as int).map_values(f)),
        decreases all.len() - i,
    {
        proof {
            lemma_map_values_step(cs, f, i as int);
            lemma_concat_push(cs.take(i as int).map_values(f), f(cs[i as int]));
        }
        assert(cs[i as int] == all@[i as int]@);
        let mut x = crate::text::owned("| `");
        push_str(&mut x, all[i].path());
        push_str(&mut x, "` | ");
        push_str(&mut x, msg.change_kind(all[i].label()));
        push_str(&mut x, " |\n");
        push_str(&mut t, x.as_str());
        i = i + 1;
    }
    assert(cs.take(cs.len() as int) == cs);
    t
}

fn what_changed(
    long: &mut Vec<(String, String)>,
    runbook: &Runbook,
    blobs: &crate::snapshot::Blobs,
    msg: &Messages,
    touched: &Touched,
) -> (r: String)
    ensures
        r@ == what_changed_text(*runbook, blobs.spec_texts(), msg.locale, *touched),
        crate::snapshot::blob_pairs(final(long)@) == crate::snapshot::blob_pairs(old(long)@)
            + changed_long(*runbook, blobs.spec_texts()),
{
    let mut t = crate::text::owned("## 5. ");
    push_str(&mut t, msg.what_changed());
    push_str(&mut t, "\n\n");
    let p = packages_section(&runbook.packages, msg);
    push_str(&mut t, p.as_str());
    let st = state_section(&runbook.state, msg);
    push_str(&mut t, st.as_str());
    let all = all_changes(runbook);
    let tail = touched_section(&all, touched, msg);
    if all.len() == 0 {
        let mut x = crate::text::owned(msg.no_changes());
        push_str(&mut x, "\n\n");
        push_str(&mut t, x.as_str());
        assert(crate::snapshot::blob_pairs(long@) =~= crate::snapshot::blob_pairs(long@)
            + changed_long(*runbook, blobs.spec_texts()));
        push_str(&mut t, tail.as_str());
        return t;
    }
    let mut x = crate::text::owned("### ");
    push_str(&mut x, msg.changed_files());
    push_str(&mut x, "\n\n");
    push_str(&mut x, "| ");
    push_str(&mut x, msg.path());
    push_str(&mut x, " | ");
    push_str(&mut x, msg.change());
    push_str(&mut x, " |\n|---|---|\n");
    let rows = table_string(&all, msg);
    push_str(&mut x, rows.as_str());
    push_str(&mut x, "\n");
    push_str(&mut x, msg.attribution_note());
    push_str(&mut x, "\n\n");
    let mut entries = String::new();
    push_file_entries(&mut entries, long, &runbook.other_files, blobs, msg);
    assert(entries@ =~= files_entries(changes(runbook.other_files@), blobs.spec_texts(), msg.locale));
    push_str(&mut x, entries.as_str());
    push_str(&mut t, x.as_str());
    push_str(&mut t, tail.as_str());
    t
}

// ----------------------------------------------------------------------------
// Verification, rollback and the appendices.

pub open spec fn check_entry(v: crate::step::RunV, l: Locale) -> Seq<char> {
    "- `"@ + v.cmd + "`\n\n"@ + "  > **"@ + msg_todo(l) + "**: "@ + crate::i18n::msg_expected_result(l) + "\n\n"@
}

pub open spec fn verification_text(r: Runbook, l: Locale) -> Seq<char> {
    let vs = crate::step::runs(r.verifications@);
    "## 6. "@ + crate::i18n::msg_verification(l) + "\n\n"@ + if vs.len() == 0 {
        crate::i18n::msg_verification_none(l) + "\n\n"@ + todo_text(l, Seq::empty())
    } else {
        crate::i18n::msg_verification_intro(l) + "\n\n"@ + concat(vs.map_values(|v: crate::step::RunV| check_entry(v, l)))
    }
}

fn verification(runbook: &Runbook, msg: &Messages) -> (r: String)
    ensures
        r@ == verification_text(*runbook, msg.locale),
{
    let ghost l = msg.locale;
    let mut t = crate::text::owned("## 6. ");
    push_str(&mut t, msg.verification());
    push_str(&mut t, "\n\n");
    if runbook.verifications.len() == 0 {
        let mut x = crate::text::owned(msg.verification_none());
        push_str(&mut x, "\n\n");
        let mut y = String::new();
        proof { reveal_strlit(""); }
        assert(""@ =~= Seq::<char>::empty());
        todo(&mut y, msg, "");
        assert(y@ =~= todo_text(l, Seq::empty()));
        push_str(&mut x, y.as_str());
        push_str(&mut t, x.as_str());
        return t;
    }
    let ghost vs = crate::step::runs(runbook.verifications@);
    let ghost f = |v: crate::step::RunV| check_entry(v, l);
    let mut entries = String::new();
    let mut i: usize = 0;
    assert(concat(vs.take(0).map_values(f)) =~= entries@);
    while i < runbook.verifications.len()
        invariant
            i <= runbook.verifications@.len(),
            vs == crate::step::runs(runbook.verifications@),
            l == msg.locale,
            f == (|v: crate::step::RunV| check_entry(v, l)),
            entries@ == concat(vs.take(i as int).map_values(f)),
        decreases runbook.verifications.len() - i,
    {
        proof {
            lemma_map_values_step(vs, f, i as int);
            lemma_concat_push(vs.take(i as int).map_values(f), f(vs[i as int]));
        }
        assert(vs[i as int] == runbook.verifications@[i as int]@);
        let mut x = crate::text::owned("- `");
        push_str(&mut x, runbook.verifications[i].cmd.as_str());
        push_str(&mut x, "`\n\n");
        push_str(&mut x, "  > **");
        push_str(&mut x, msg.todo());
        push_str(&mut x, "**: ");
        push_str(&mut x, msg.expected_result());
        push_str(&mut x, "\n\n");
        push_str(&mut entries, x.as_str());
        i = i + 1;
    }
    assert(vs.take(vs.len() as int) == vs);
    let mut x = crate::text::owned(msg.verification_intro());
    push_str(&mut x, "\n\n");
    push_str(&mut x, entries.as_str());
    push_str(&mut t, x.as_str());
    t
}

pub open spec fn rollback_lines(cs: Seq<ChangeV>, l: Locale) -> Seq<char> {
    concat(cs.map_values(|c: ChangeV| change_line_text(c, l) + "\n"@))
}

pub open spec fn rollback_body(r: Runbook, l: Locale) -> Seq<char> {
    let files = all_files(r);
    let installed = crate::packages::explicit_of(r.packages);
    let names = rollback_state_names(r.state);
    if files.len() == 0 && installed.len() == 0 && names.len() == 0 {
        crate::i18n::msg_rollback_none(l) + "\n\n"@
    } else {
        (if installed.len() > 0 {
            "### "@ + crate::i18n::msg_rollback_packages(l) + "\n\n"@ + pkg_lines(installed) + "\n"@
        } else {
            Seq::empty()
        }) + (if names.len() > 0 {
            "### "@ + crate::i18n::msg_rollback_state(l) + "\n\n"@ + ticked_items(names) + "\n"@
        } else {
            Seq::empty()
        }) + (if files.len() > 0 {
            "### "@ + crate::i18n::msg_rollback_files(l) + "\n\n"@ + rollback_lines(files, l) + "\n"@
        } else {
            Seq::empty()
        }) + todo_text(l, Seq::empty())
    }
}

/// Candidates for undoing the work, behind a warning that they are not a
/// verified procedure.
pub open spec fn rollback_text(r: Runbook, l: Locale) -> Seq<char> {
    "## 7. "@ + crate::i18n::msg_rollback(l) + "\n\n"@ + "> "@ + crate::i18n::msg_rollback_disclaimer(l) + "\n\n"@
        + rollback_body(r, l)
}

fn rollback_lines_string(all: &Vec<Change>, msg: &Messages) -> (r: String)
    ensures
        r@ == rollback_lines(changes(all@), msg.locale),
{
    let ghost cs = changes(all@);
    let ghost l = msg.locale;
    let ghost f = |c: ChangeV| change_line_text(c, l) + "\n"@;
    let mut t = String::new();
    let mut i: usize = 0;
    assert(concat(cs.take(0).map_values(f)) =~= t@);
    while i < all.len()
        invariant
            i <= all@.len(),
            cs == changes(all@),
            l == msg.locale,
            f == (|c: ChangeV| change_line_text(c, l) + "\n"@),
            t@ == concat(cs.take(i as int).map_values(f)),
        decreases all.len() - i,
    {
        proof {
            lemma_map_values_step(cs, f, i as int);
            lemma_concat_push(cs.take(i as int).map_values(f), f(cs[i as int]));
        }
        assert(cs[i as int] == all@[i as int]@);
        let mut x = String::new();
        change_line(&mut x, &all[i], msg);
        assert(x@ =~= change_line_text(cs[i as int], l));
        push_str(&mut x, "\n");
        push_str(&mut t, x.as_str());
        i = i + 1;
    }
    assert(cs.take(cs.len() as int) == cs);
    t
}

fn rollback(runbook: &Runbook, msg: &Messages) -> (r: String)
    ensures
        r@ == rollback_text(*runbook, msg.locale),
{
    let ghost l = msg.locale;
    let mut t = crate::text::owned("## 7. ");
    push_str(&mut t, msg.rollback());
    push_str(&mut t, "\n\n");
    push_str(&mut t, "> ");
    push_str(&mut t, msg.rollback_disclaimer());
    push_str(&mut t, "\n\n");
    let all = all_changes(runbook);
    let installed = runbook.packages.explicit_installs();
    let names = rollback_state_names_exec(&runbook.state);
    if all.len() == 0 && installed.len() == 0 && names.len() == 0 {
        let mut x = crate::text::owned(msg.rollback_none());
        push_str(&mut x, "\n\n");
        push_str(&mut t, x.as_str());
        return t;
    }
    let mut a = String::new();
    if installed.len() > 0 {
        push_str(&mut a, "### ");
        push_str(&mut a, msg.rollback_packages());
        push_str(&mut a, "\n\n");
        push_pkg_lines(&mut a, &installed);
        push_str(&mut a, "\n");
    }
    assert(a@ =~= (if crate::packages::explicit_of(runbook.packages).len() > 0 {
        "### "@ + crate::i18n::msg_rollback_packages(l) + "\n\n"@ + pkg_lines(crate::packages::explicit_of(runbook.packages)) + "\n"@
    } else {
        Seq::<char>::empty()
    }));
    let mut s = String::new();
    if names.len() > 0 {
        push_str(&mut s, "### ");
        push_str(&mut s, msg.rollback_state());
        push_str(&mut s, "\n\n");
        push_ticked_items(&mut s, &names);
        push_str(&mut s, "\n");
    }
    assert(s@ =~= (if rollback_state_names(runbook.state).len() > 0 {
        "### "@ + crate::i18n::msg_rollback_state(l) + "\n\n"@ + ticked_items(rollback_state_names(runbook.state)) + "\n"@
    } else {
        Seq::<char>::empty()
    }));
    let mut b = String::new();
    if all.len() > 0 {
        push_str(&mut b, "### ");
        push_str(&mut b, msg.rollback_files());
        push_str(&mut b, "\n\n");
        let lines = rollback_lines_string(&all, msg);
        push_str(&mut b, lines.as_str());
        push_str(&mut b, "\n");
    }
    assert(b@ =~= (if all_files(*runbook).len() > 0 {
        "### "@ + crate::i18n::msg_rollback_files(l) + "\n\n"@ + rollback_lines(all_files(*runbook), l) + "\n"@
    } else {
        Seq::<char>::empty()
    }));
    let mut c = String::new();
    proof { reveal_strlit(""); }
    assert(""@ =~= Seq::<char>::empty());
    todo(&mut c, msg, "");
    assert(c@ =~= todo_text(l, Seq::empty()));
    let mut body = a;
    push_str(&mut body, s.as_str());
    push_str(&mut body, b.as_str());
    push_str(&mut body, c.as_str());
    push_str(&mut t, body.as_str());
    t
}

pub open spec fn pipe_escaped(s: Seq<char>) -> Seq<char> {
    concat(s.map_values(|c: char| if c == '|' { seq!['\\', '|'] } else { seq![c] }))
}

pub open spec fn signed_text(c: i32) -> Seq<char> {
    if c < 0 {
        seq!['-'] + decimal((-c) as nat)
    } else {
        decimal(c as nat)
    }
}

pub open spec fn exit_text(o: Option<i32>, l: Locale) -> Seq<char> {
    match o {
        Some(c) => signed_text(c),
        None => crate::i18n::msg_still_running(l),
    }
}

pub open spec fn log_row(x: crate::step::RunV, l: Locale) -> Seq<char> {
    "| "@ + clock_of(x.ts) + " | `"@ + pipe_escaped(x.cmd) + "` | `"@ + x.cwd + "` | "@
        + exit_text(x.exit_code, l) + " |\n"@
}

pub open spec fn appendix_log_text(r: Runbook, l: Locale) -> Seq<char> {
    "## "@ + crate::i18n::msg_appendix_log(l) + "\n\n"@ + crate::i18n::msg_appendix_log_intro(l) + "\n\n"@
        + "| "@ + crate::i18n::msg_time(l) + " | "@ + crate::i18n::msg_command(l) + " | "@
        + crate::i18n::msg_working_directory(l) + " | "@ + crate::i18n::msg_exit_code(l)
        + " |\n|---|---|---|---|\n"@
        + concat(crate::step::runs(r.log@).map_values(|x: crate::step::RunV| log_row(x, l))) + "\n"@
}

fn pipe_escape(cmd: &str) -> (r: String)
    ensures
        r@ == pipe_escaped(cmd@),
{
    let v = crate::text::chars_of(cmd);
    let ghost f = |c: char| if c == '|' { seq!['\\', '|'] } else { seq![c] };
    let mut out = String::new();
    let mut i: usize = 0;
    assert(concat(v@.take(0).map_values(f)) =~= out@);
    while i < v.len()
        invariant
            i <= v@.len(),
            f == (|c: char| if c == '|' { seq!['\\', '|'] } else { seq![c] }),
            out@ == concat(v@.take(i as int).map_values(f)),
        decreases v.len() - i,
    {
        proof {
            lemma_map_values_step(v@, f, i as int);
            lemma_concat_push(v@.take(i as int).map_values(f), f(v@[i as int]));
        }
        if v[i] == '|' {
            push_char(&mut out, '\\');
            push_char(&mut out, '|');
        } else {
            push_char(&mut out, v[i]);
        }
        assert(out@ =~= concat(v@.take(i + 1).map_values(f)));
        i = i + 1;
    }
    assert(v@.take(v@.len() as int) == v@);
    out
}

fn exit_string(o: Option<i32>, msg: &Messages) -> (r: String)
    ensures
        r@ == exit_text(o, msg.locale),
{
    match o {
        Some(c) => {
            let mut out = String::new();
            if c < 0 {
                push_char(&mut out, '-');
                let m: i64 = -(c as i64);
                push_decimal(&mut out, m as u64);
                assert(out@ =~= signed_text(c));
            } else {
                push_decimal(&mut out, c as u64);
                assert(out@ =~= signed_text(c));
            }
            out
        },
        None => crate::text::owned(msg.still_running()),
    }
}

fn appendix_log(runbook: &Runbook, msg: &Messages) -> (r: String)
    ensures
        r@ == appendix_log_text(*runbook, msg.locale),
{
    let ghost l = msg.locale;
    let ghost rs = crate::step::runs(runbook.log@);
    let ghost f = |x: crate::step::RunV| log_row(x, l);
    let mut rows = String::new();
    let mut i: usize = 0;
    assert(concat(rs.take(0).map_values(f)) =~= rows@);
    while i < runbook.log.len()
        invariant
            i <= runbook.log@.len(),
            rs == crate::step::runs(runbook.log@),
            l == msg.locale,
            f == (|x: crate::step::RunV| log_row(x, l)),
            rows@ == concat(rs.take(i as int).map_values(f)),
        decreases runbook.log.len() - i,
    {
        proof {
            lemma_map_values_step(rs, f, i as int);
            lemma_concat_push(rs.take(i as int).map_values(f), f(rs[i as int]));
        }
        let run = &runbook.log[i];
        assert(rs[i as int] == run@);
        let mut x = crate::text::owned("| ");
        let c = clock(run.ts);
        push_str(&mut x, c.as_str());
        push_str(&mut x, " | `");
        let e = pipe_escape(run.cmd.as_str());
        push_str(&mut x, e.as_str());
        push_str(&mut x, "` | `");
        push_str(&mut x, run.cwd.as_str());
        push_str(&mut x, "` | ");
        let ex = exit_string(run.exit_code, msg);
        push_str(&mut x, ex.as_str());
        push_str(&mut x, " |\n");
        push_str(&mut rows, x.as_str());
        i = i + 1;
    }
    assert(rs.take(rs.len() as int) == rs);
    let mut t = crate::text::owned("## ");
    push_str(&mut t, msg.appendix_log());
    push_str(&mut t, "\n\n");
    push_str(&mut t, msg.appendix_log_intro());
    push_str(&mut t, "\n\n");
    push_str(&mut t, "| ");
    push_str(&mut t, msg.time());
    push_str(&mut t, " | ");
    push_str(&mut t, msg.command());
    push_str(&mut t, " | ");
    push_str(&mut t, msg.working_directory());
    push_str(&mut t, " | ");
    push_str(&mut t, msg.exit_code());
    push_str(&mut t, " |\n|---|---|---|---|\n");
    push_str(&mut t, rows.as_str());
    push_str(&mut t, "\n");
    t
}

pub open spec fn long_entry(p: (Seq<char>, Seq<char>)) -> Seq<char> {
    "### `"@ + p.0 + "`\n\n"@ + "```diff\n"@ + p.1 + "```\n\n"@
}

pub open spec fn appendix_diffs_text(long: Seq<(Seq<char>, Seq<char>)>, l: Locale) -> Seq<char> {
    if long.len() == 0 {
        Seq::empty()
    } else {
        "## "@ + crate::i18n::msg_appendix_diffs(l) + "\n\n"@
            + concat(long.map_values(|p: (Seq<char>, Seq<char>)| long_entry(p)))
    }
}

fn appendix_diffs(long: &Vec<(String, String)>, msg: &Messages) -> (r: String)
    ensures
        r@ == appendix_diffs_text(crate::snapshot::blob_pairs(long@), msg.locale),
{
    let ghost ps = crate::snapshot::blob_pairs(long@);
    if long.len() == 0 {
        let r = String::new();
        assert(r@ =~= appendix_diffs_text(ps, msg.locale));
        return r;
    }
    let ghost f = |p: (Seq<char>, Seq<char>)| long_entry(p);
    let mut entries = String::new();
    let mut i: usize = 0;
    assert(concat(ps.take(0).map_values(f)) =~= entries@);
    while i < long.len()
        invariant
            i <= long@.len(),
            ps == crate::snapshot::blob_pairs(long@),
            f == (|p: (Seq<char>, Seq<char>)| long_entry(p)),
            entries@ == concat(ps.take(i as int).map_values(f)),
        decreases long.len() - i,
    {
        proof {
            lemma_map_values_step(ps, f, i as int);
            lemma_concat_push(ps.take(i as int).map_values(f), f(ps[i as int]));
        }
        assert(ps[i as int] == (long@[i as int].0@, long@[i as int].1@));
        let mut x = crate::text::owned("### `");
        push_str(&mut x, long[i].0.as_str());
        push_str(&mut x, "`\n\n");
        push_str(&mut x, "```diff\n");
        push_str(&mut x, long[i].1.as_str());
        push_str(&mut x, "```\n\n");
        push_str(&mut entries, x.as_str());
        i = i + 1;
    }
    assert(ps.take(ps.len() as int) == ps);
    let mut t = crate::text::owned("## ");
    push_str(&mut t, msg.appendix_diffs());
    push_str(&mut t, "\n\n");
    push_str(&mut t, entries.as_str());
    t
}

/// The last appendix: how the document was made. It takes the letter after
/// the appendix of full diffs when that one is there.
pub open spec fn appendix_generated_text(m: Meta, version: Seq<char>, l: Locale, after_diffs: bool) -> Seq<char> {
    "## "@ + (if after_diffs {
        crate::i18n::msg_appendix_generated_after_diffs(l)
    } else {
        crate::i18n::msg_appendix_generated(l)
    }) + "\n\n"@ + "| | |\n|---|---|\n"@ + "| "@
        + crate::i18n::msg_generated_by(l) + " | exarare "@ + version + " |\n"@
        + roots_rows(l, m) + "\n"@
        + crate::i18n::msg_generated_note(l) + "\n"@
}

fn appendix_generated(meta: &Meta, version: &str, msg: &Messages, after_diffs: bool) -> (r: String)
    ensures
        r@ == appendix_generated_text(*meta, version@, msg.locale, after_diffs),
{
    let mut t = crate::text::owned("## ");
    if after_diffs {
        push_str(&mut t, msg.appendix_generated_after_diffs());
    } else {
        push_str(&mut t, msg.appendix_generated());
    }
    push_str(&mut t, "\n\n");
    push_str(&mut t, "| | |\n|---|---|\n");
    push_str(&mut t, "| ");
    push_str(&mut t, msg.generated_by());
    push_str(&mut t, " | exarare ");
    push_str(&mut t, version);
    push_str(&mut t, " |\n");
    roots(&mut t, meta, msg);
    push_str(&mut t, "\n");
    push_str(&mut t, msg.generated_note());
    push_str(&mut t, "\n");
    t
}

// ----------------------------------------------------------------------------
// The document.

/// What a runbook is made from.
pub struct Input<'a> {
    pub meta: &'a Meta,
    pub runbook: &'a Runbook,
    /// The recorded file content of the session.
    pub blobs: &'a crate::snapshot::Blobs,
    pub version: &'a str,
    /// The paths the watcher saw being written to.
    pub touched: &'a Touched,
    /// Draw the overview as a Mermaid flowchart rather than a numbered list.
    pub mermaid: bool,
}

/// The runbook: its chapters in their fixed order, the long diffs gathered
/// in an appendix.
pub open spec fn document(
    m: Meta,
    r: Runbook,
    blobs: Seq<(Seq<char>, Seq<char>)>,
    version: Seq<char>,
    l: Locale,
    t: Touched,
    mermaid: bool,
) -> Seq<char> {
    metadata_text(l, m) + purpose_text(l) + overview_text(l, r, mermaid) + prerequisites_text(l, m)
        + procedure_text(r, blobs, l, t) + what_changed_text(r, blobs, l, t) + verification_text(r, l)
        + rollback_text(r, l) + appendix_log_text(r, l)
        + appendix_diffs_text(procedure_long(r, blobs) + changed_long(r, blobs), l)
        + appendix_generated_text(m, version, l, (procedure_long(r, blobs) + changed_long(r, blobs)).len() > 0)
}

pub fn render(input: &Input, msg: &Messages) -> (r: String)
    ensures
        r@ == document(*input.meta, *input.runbook, input.blobs.spec_texts(), input.version@, msg.locale, *input.touched, input.mermaid),
{
    let ghost l = msg.locale;
    let ghost bt = input.blobs.spec_texts();
    let mut long: Vec<(String, String)> = Vec::new();
    let mut out = String::new();
    metadata(&mut out, input.meta, msg);
    assert(out@ =~= metadata_text(l, *input.meta));
    let mut b = String::new();
    purpose(&mut b, msg);
    assert(b@ =~= purpose_text(l));
    push_str(&mut out, b.as_str());
    let mut c = String::new();
    overview(&mut c, input.runbook, msg, input.mermaid);
    assert(c@ =~= overview_text(l, *input.runbook, input.mermaid));
    push_str(&mut out, c.as_str());
    let mut d = String::new();
    prerequisites(&mut d, input.meta, msg);
    assert(d@ =~= prerequisites_text(l, *input.meta));
    push_str(&mut out, d.as_str());
    let mut e = String::new();
    assert(crate::snapshot::blob_pairs(long@) =~= Seq::<(Seq<char>, Seq<char>)>::empty());
    procedure(&mut e, &mut long, input.runbook, input.blobs, msg, input.touched);
    assert(e@ =~= procedure_text(*input.runbook, bt, l, *input.touched));
    push_str(&mut out, e.as_str());
    let w = what_changed(&mut long, input.runbook, input.blobs, msg, input.touched);
    push_str(&mut out, w.as_str());
    assert(crate::snapshot::blob_pairs(long@) =~= procedure_long(*input.runbook, bt) + changed_long(*input.runbook, bt));
    let v = verification(input.runbook, msg);
    push_str(&mut out, v.as_str());
    let rb = rollback(input.runbook, msg);
    push_str(&mut out, rb.as_str());
    let lg = appendix_log(input.runbook, msg);
    push_str(&mut out, lg.as_str());
    let ad = appendix_diffs(&long, msg);
    push_str(&mut out, ad.as_str());
    let ag = appendix_generated(input.meta, input.version, msg, long.len() > 0);
    push_str(&mut out, ag.as_str());
    out
}

// ----------------------------------------------------------------------------
// Laws.


/// A path of a record sorted by path is in a window exactly when the time it
/// was first seen is.
proof fn lemma_in_window(s: Seq<(Seq<char>, i128)>, i: int, from: i128, until: Option<i128>)
    requires
        crate::watcher::sorted_paths(s),
        0 <= i < s.len(),
    ensures
        in_window_of(s, from, until).contains(s[i].0) == crate::watcher::window_holds(s[i].1, from, until),
{
    let f = |q: (Seq<char>, i128)| if crate::watcher::window_holds(q.1, from, until) { Some(q.0) } else { None };
    lemma_filter_map_contains(s, f, s[i].0);
    if crate::watcher::window_holds(s[i].1, from, until) {
        assert(f(s[i]) == Some(s[i].0));
    }
    if exists|j: int| 0 <= j < s.len() && #[trigger] f(s[j]) == Some(s[i].0) {
        let j = choose|j: int| 0 <= j < s.len() && #[trigger] f(s[j]) == Some(s[i].0);
        if j != i {
            crate::diff::lemma_path_lt_irreflexive(s[i].0);
            if j < i {
                assert(path_lt(s[j].0, s[i].0));
            } else {
                assert(path_lt(s[i].0, s[j].0));
            }
        }
    }
}

/// A touched path no change accounts for stays among the untracked ones.
proof fn lemma_untracked(cs: Seq<ChangeV>, ps: Seq<Seq<char>>, p: Seq<char>)
    ensures
        untracked(cs, ps).contains(p) == (ps.contains(p) && !has_change(cs, p)),
{
    let f = |q: Seq<char>| if has_change(cs, q) { None } else { Some(q) };
    lemma_filter_map_contains(ps, f, p);
    if ps.contains(p) && !has_change(cs, p) {
        let i = choose|i: int| 0 <= i < ps.len() && ps[i] == p;
        assert(f(ps[i]) == Some(p));
    }
    if exists|i: int| 0 <= i < ps.len() && #[trigger] f(ps[i]) == Some(p) {
        let i = choose|i: int| 0 <= i < ps.len() && #[trigger] f(ps[i]) == Some(p);
        assert(ps[i] == p);
    }
}

/// The headings were recorded in the order of time.
pub open spec fn starts_in_order(sts: Seq<StepV>) -> bool {
    forall|i: int, j: int| 0 <= i < j < sts.len() ==> step_from(#[trigger] sts[i]) <= step_from(#[trigger] sts[j])
}

/// The last step that had begun at `at`, from `k` on.
proof fn window_of(sts: Seq<StepV>, at: i128, k: int) -> (w: int)
    requires
        0 <= k < sts.len(),
        step_from(sts[k]) <= at,
    ensures
        k <= w < sts.len(),
        crate::watcher::window_holds(at, step_from(sts[w]), step_until(sts, w)),
    decreases sts.len() - k,
{
    if k + 1 < sts.len() && step_from(sts[k + 1]) <= at {
        window_of(sts, at, k + 1)
    } else {
        k
    }
}

/// A path the watcher saw being written, that no change accounts for, is
/// listed under exactly one step: the one under way when it was first seen,
/// however late the notification came. This holds for every path first seen
/// once the first step had begun, when the headings came in the order of
/// time.
pub proof fn law_touched_in_one_step(r: Runbook, t: Touched, i: int)
    requires
        t.well_formed(),
        starts_in_order(steps(r.steps@)),
        0 <= i < t.paths@.len(),
        steps(r.steps@).len() > 0,
        step_from(steps(r.steps@)[0]) <= t.paths@[i].1,
        !has_change(all_files(r), t.paths@[i].0@),
    ensures
        exists|k: int| 0 <= k < steps(r.steps@).len() && #[trigger] step_touched(r, t, k).contains(t.paths@[i].0@),
        forall|k1: int, k2: int|
            0 <= k1 < steps(r.steps@).len() && 0 <= k2 < steps(r.steps@).len()
                && #[trigger] step_touched(r, t, k1).contains(t.paths@[i].0@)
                && #[trigger] step_touched(r, t, k2).contains(t.paths@[i].0@) ==> k1 == k2,
{
    let sts = steps(r.steps@);
    let s = seen(t.paths@);
    let p = t.paths@[i].0@;
    let at = t.paths@[i].1;
    assert(s[i] == (p, at));
    assert forall|k: int| 0 <= k < sts.len() implies
        #[trigger] step_touched(r, t, k).contains(p) == crate::watcher::window_holds(at, step_from(sts[k]), step_until(sts, k)) by {
        lemma_in_window(s, i, step_from(sts[k]), step_until(sts, k));
        lemma_untracked(all_files(r), in_window_of(s, step_from(sts[k]), step_until(sts, k)), p);
    }
    let w = window_of(sts, at, 0);
    assert(step_touched(r, t, w).contains(p));
    assert forall|k1: int, k2: int|
        0 <= k1 < sts.len() && 0 <= k2 < sts.len()
            && #[trigger] step_touched(r, t, k1).contains(p)
            && #[trigger] step_touched(r, t, k2).contains(p) implies k1 == k2 by {
        if k1 < k2 {
            assert(step_from(sts[k1 + 1]) <= step_from(sts[k2]));
        } else if k2 < k1 {
            assert(step_from(sts[k2 + 1]) <= step_from(sts[k1]));
        }
    }
}

#[verifier::spinoff_prover]
proof fn lemma_heading_purpose(l: Locale)
    ensures
        ("## 1. "@ + msg_purpose(l)).is_prefix_of(purpose_text(l)),
{
    let h = "## 1. "@ + msg_purpose(l);
    let x = purpose_text(l);
    assert(x.subrange(0, h.len() as int) =~= h);
}

#[verifier::spinoff_prover]
proof fn lemma_heading_overview(l: Locale, r: Runbook, mermaid: bool)
    ensures
        ("## 2. "@ + msg_overview(l)).is_prefix_of(overview_text(l, r, mermaid)),
{
    let h = "## 2. "@ + msg_overview(l);
    let x = overview_text(l, r, mermaid);
    assert(x.subrange(0, h.len() as int) =~= h);
}

#[verifier::spinoff_prover]
proof fn lemma_heading_prerequisites(l: Locale, m: Meta)
    ensures
        ("## 3. "@ + msg_prerequisites(l)).is_prefix_of(prerequisites_text(l, m)),
{
    let h = "## 3. "@ + msg_prerequisites(l);
    let x = prerequisites_text(l, m);
    assert(x.subrange(0, h.len() as int) =~= h);
}

#[verifier::spinoff_prover]
proof fn lemma_heading_procedure(r: Runbook, blobs: Seq<(Seq<char>, Seq<char>)>, l: Locale, t: Touched)
    ensures
        ("## 4. "@ + crate::i18n::msg_procedure(l)).is_prefix_of(procedure_text(r, blobs, l, t)),
{
    let h = "## 4. "@ + crate::i18n::msg_procedure(l);
    let x = procedure_text(r, blobs, l, t);
    assert(x.subrange(0, h.len() as int) =~= h);
}

#[verifier::spinoff_prover]
proof fn lemma_heading_what_changed(r: Runbook, blobs: Seq<(Seq<char>, Seq<char>)>, l: Locale, t: Touched)
    ensures
        ("## 5. "@ + crate::i18n::msg_what_changed(l)).is_prefix_of(what_changed_text(r, blobs, l, t)),
{
    let h = "## 5. "@ + crate::i18n::msg_what_changed(l);
    let x = what_changed_text(r, blobs, l, t);
    assert(x.subrange(0, h.len() as int) =~= h);
}

#[verifier::spinoff_prover]
proof fn lemma_heading_verification(r: Runbook, l: Locale)
    ensures
        ("## 6. "@ + crate::i18n::msg_verification(l)).is_prefix_of(verification_text(r, l)),
{
    let h = "## 6. "@ + crate::i18n::msg_verification(l);
    let x = verification_text(r, l);
    assert(x.subrange(0, h.len() as int) =~= h);
}

#[verifier::spinoff_prover]
proof fn lemma_heading_rollback(r: Runbook, l: Locale)
    ensures
        ("## 7. "@ + crate::i18n::msg_rollback(l)).is_prefix_of(rollback_text(r, l)),
{
    let h = "## 7. "@ + crate::i18n::msg_rollback(l);
    let x = rollback_text(r, l);
    assert(x.subrange(0, h.len() as int) =~= h);
}

#[verifier::spinoff_prover]
proof fn lemma_heading_appendix_log(r: Runbook, l: Locale)
    ensures
        ("## "@ + crate::i18n::msg_appendix_log(l)).is_prefix_of(appendix_log_text(r, l)),
{
    let h = "## "@ + crate::i18n::msg_appendix_log(l);
    let x = appendix_log_text(r, l);
    assert(x.subrange(0, h.len() as int) =~= h);
}

#[verifier::spinoff_prover]
proof fn lemma_heading_generated(m: Meta, version: Seq<char>, l: Locale)
    ensures
        ("## "@ + crate::i18n::msg_appendix_generated(l)).is_prefix_of(appendix_generated_text(m, version, l, false)),
{
    let h = "## "@ + crate::i18n::msg_appendix_generated(l);
    let x = appendix_generated_text(m, version, l, false);
    assert(x.subrange(0, h.len() as int) =~= h);
}

#[verifier::spinoff_prover]
proof fn lemma_heading_generated_after_diffs(m: Meta, version: Seq<char>, l: Locale)
    ensures
        ("## "@ + crate::i18n::msg_appendix_generated_after_diffs(l)).is_prefix_of(appendix_generated_text(m, version, l, true)),
{
    let h = "## "@ + crate::i18n::msg_appendix_generated_after_diffs(l);
    let x = appendix_generated_text(m, version, l, true);
    assert(x.subrange(0, h.len() as int) =~= h);
}

#[verifier::spinoff_prover]
proof fn lemma_heading_diffs(long: Seq<(Seq<char>, Seq<char>)>, l: Locale)
    ensures
        long.len() == 0 ==> appendix_diffs_text(long, l).len() == 0,
        long.len() > 0 ==> ("## "@ + crate::i18n::msg_appendix_diffs(l)).is_prefix_of(appendix_diffs_text(long, l)),
{
    if long.len() > 0 {
        let h = "## "@ + crate::i18n::msg_appendix_diffs(l);
        let x = appendix_diffs_text(long, l);
        assert(x.subrange(0, h.len() as int) =~= h);
    }
}

/// The chapters of a runbook come in their fixed order, each opening with
/// its heading: purpose, overview, prerequisites, procedure, what changed,
/// verification, rollback, then the appendices, the full diffs only when a
/// diff was too long to show in place.
pub proof fn law_chapters_in_order(
    m: Meta,
    r: Runbook,
    blobs: Seq<(Seq<char>, Seq<char>)>,
    version: Seq<char>,
    l: Locale,
    t: Touched,
    mermaid: bool,
)
    ensures
        document(m, r, blobs, version, l, t, mermaid) == metadata_text(l, m) + purpose_text(l)
            + overview_text(l, r, mermaid) + prerequisites_text(l, m) + procedure_text(r, blobs, l, t)
            + what_changed_text(r, blobs, l, t) + verification_text(r, l) + rollback_text(r, l)
            + appendix_log_text(r, l) + appendix_diffs_text(procedure_long(r, blobs) + changed_long(r, blobs), l)
            + appendix_generated_text(m, version, l, (procedure_long(r, blobs) + changed_long(r, blobs)).len() > 0),
        ("## 1. "@ + msg_purpose(l)).is_prefix_of(purpose_text(l)),
        ("## 2. "@ + msg_overview(l)).is_prefix_of(overview_text(l, r, mermaid)),
        ("## 3. "@ + msg_prerequisites(l)).is_prefix_of(prerequisites_text(l, m)),
        ("## 4. "@ + crate::i18n::msg_procedure(l)).is_prefix_of(procedure_text(r, blobs, l, t)),
        ("## 5. "@ + crate::i18n::msg_what_changed(l)).is_prefix_of(what_changed_text(r, blobs, l, t)),
        ("## 6. "@ + crate::i18n::msg_verification(l)).is_prefix_of(verification_text(r, l)),
        ("## 7. "@ + crate::i18n::msg_rollback(l)).is_prefix_of(rollback_text(r, l)),
        ("## "@ + crate::i18n::msg_appendix_log(l)).is_prefix_of(appendix_log_text(r, l)),
        (procedure_long(r, blobs) + changed_long(r, blobs)).len() == 0
            ==> appendix_diffs_text(procedure_long(r, blobs) + changed_long(r, blobs), l).len() == 0,
        (procedure_long(r, blobs) + changed_long(r, blobs)).len() > 0 ==> ("## "@ + crate::i18n::msg_appendix_diffs(l)).is_prefix_of(
            appendix_diffs_text(procedure_long(r, blobs) + changed_long(r, blobs), l),
        ),
        ("## "@ + crate::i18n::msg_appendix_generated(l)).is_prefix_of(appendix_generated_text(m, version, l, false)),
        ("## "@ + crate::i18n::msg_appendix_generated_after_diffs(l)).is_prefix_of(
            appendix_generated_text(m, version, l, true),
        ),
{
    lemma_heading_purpose(l);
    lemma_heading_overview(l, r, mermaid);
    lemma_heading_prerequisites(l, m);
    lemma_heading_procedure(r, blobs, l, t);
    lemma_heading_what_changed(r, blobs, l, t);
    lemma_heading_verification(r, l);
    lemma_heading_rollback(r, l);
    lemma_heading_appendix_log(r, l);
    lemma_heading_diffs(procedure_long(r, blobs) + changed_long(r, blobs), l);
    lemma_heading_generated(m, version, l);
    lemma_heading_generated_after_diffs(m, version, l);
}

/// What the packages part of chapter five says: it opens with its heading
/// and any errors, then says the state is unknown when no comparison could
/// be made, that nothing changed when nothing did, and lists the changes
/// otherwise. Each error is shown on a line of its own.
pub proof fn law_packages_section_says_why(d: crate::packages::Diff, l: Locale)
    ensures
        !d.available ==> packages_section_text(d, l) == "### "@ + crate::i18n::msg_packages(l) + "\n\n"@
            + errors_text(d, l) + crate::i18n::msg_packages_unavailable(l) + "\n\n"@,
        d.available && d.spec_is_empty() ==> packages_section_text(d, l) == "### "@ + crate::i18n::msg_packages(l)
            + "\n\n"@ + errors_text(d, l) + crate::i18n::msg_no_package_changes(l) + "\n\n"@,
        d.errors@.len() > 0 ==> errors_text(d, l) == "> "@ + crate::i18n::msg_packages_incomplete(l) + "\n\n"@
            + concat(strs(d.errors@).map_values(|e: Seq<char>| "> - "@ + e + "\n"@)) + "\n"@,
        forall|i: int|
            #![trigger d.errors@[i]]
            0 <= i < d.errors@.len() ==> strs(d.errors@).map_values(|e: Seq<char>| "> - "@ + e + "\n"@)[i]
                == "> - "@ + d.errors@[i]@ + "\n"@,
{
}

} // verus!
