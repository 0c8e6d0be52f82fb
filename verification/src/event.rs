//! The events a recording shell writes, one per line of `events.jsonl`.
//!
//! A time is held as nanoseconds since the Unix epoch, in UTC.

use vstd::prelude::*;

verus! {

/// One line of `events.jsonl`.
#[derive(Debug, Clone, PartialEq)]
pub struct Event {
    /// When it happened, in nanoseconds since the Unix epoch.
    pub ts: i128,
    pub kind: EventKind,
}

#[derive(Debug, Clone, PartialEq)]
pub enum EventKind {
    SessionStart,
    SessionEnd,
    /// A command line is about to run. It is paired with the next `CmdEnd`.
    CmdStart { cmd: String, cwd: String },
    CmdEnd { exit_code: i32 },
    /// A remark inserted by `exarare note`.
    Note { text: String },
    /// A heading inserted by `exarare step`: the work that follows belongs to it.
    Step { title: String },
}

pub enum EventKindV {
    SessionStart,
    SessionEnd,
    CmdStart(Seq<char>, Seq<char>),
    CmdEnd(i32),
    Note(Seq<char>),
    Step(Seq<char>),
}

pub struct EventV {
    pub ts: i128,
    pub kind: EventKindV,
}

impl View for EventKind {
    type V = EventKindV;

    open spec fn view(&self) -> EventKindV {
        match self {
            EventKind::SessionStart => EventKindV::SessionStart,
            EventKind::SessionEnd => EventKindV::SessionEnd,
            EventKind::CmdStart { cmd, cwd } => EventKindV::CmdStart(cmd@, cwd@),
            EventKind::CmdEnd { exit_code } => EventKindV::CmdEnd(*exit_code),
            EventKind::Note { text } => EventKindV::Note(text@),
            EventKind::Step { title } => EventKindV::Step(title@),
        }
    }
}

impl View for Event {
    type V = EventV;

    open spec fn view(&self) -> EventV {
        EventV { ts: self.ts, kind: self.kind@ }
    }
}

pub open spec fn events(s: Seq<Event>) -> Seq<EventV> {
    s.map_values(|e: Event| e@)
}

/// The number of command lines among `evs`.
pub open spec fn command_count_of(evs: Seq<EventV>) -> nat
    decreases evs.len(),
{
    if evs.len() == 0 {
        0
    } else {
        command_count_of(evs.drop_last()) + if evs.last().kind is CmdStart { 1nat } else { 0nat }
    }
}

/// How many commands were started, for the summary lines of `start`,
/// `status` and `list`.
pub fn count_commands(evs: &[Event]) -> (r: usize)
    ensures
        r == command_count_of(events(evs@)),
{
    let ghost all = events(evs@);
    let mut n: usize = 0;
    let mut i: usize = 0;
    while i < evs.len()
        invariant
            i <= evs@.len(),
            all == events(evs@),
            n == command_count_of(all.take(i as int)),
            n <= i,
        decreases evs.len() - i,
    {
        assert(all.take(i + 1).drop_last() == all.take(i as int));
        assert(all.take(i + 1).last() == evs@[i as int]@);
        match &evs[i].kind {
            EventKind::CmdStart { .. } => {
                n = n + 1;
            },
            _ => {},
        }
        i = i + 1;
    }
    assert(all.take(evs@.len() as int) == all);
    n
}

} // verus!
