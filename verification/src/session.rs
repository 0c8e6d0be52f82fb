//! A recorded session: its metadata, where its files live, and whether it is
//! still being recorded.

use vstd::prelude::*;

use crate::order::strs;
use crate::watcher::{chosen, default_roots, watch_candidates};
use crate::text::{push_char, push_str};

verus! {

/// Set in the recording shell so that hooks and subcommands find the session.
pub const ENV_SESSION_DIR: &'static str = "EXARARE_SESSION_DIR";

/// The metadata of a session. Times are nanoseconds since the Unix epoch.
#[derive(Debug, Clone)]
pub struct Meta {
    pub id: String,
    pub name: Option<String>,
    pub hostname: Option<String>,
    pub user: Option<String>,
    pub shell: String,
    /// Directories snapshotted before and after the session, so their
    /// content is diffed.
    pub snapshot_roots: Vec<String>,
    /// Directories watched for touches only, with no content recorded.
    pub watch_roots: Vec<String>,
    pub started_at: i128,
    pub ended_at: Option<i128>,
    pub shell_pid: Option<u32>,
}

#[derive(Debug, Clone, Copy, PartialEq, Eq, Structural)]
pub enum Status {
    Recording,
    Finished,
    /// Never finished, and the shell is gone (crash, kill -9, reboot).
    Aborted,
}

impl Status {
    /// The word `exarare list` shows.
    pub fn name(&self) -> (r: &'static str)
        ensures
            r@ == match *self {
                Status::Recording => "recording"@,
                Status::Finished => "finished"@,
                Status::Aborted => "aborted"@,
            },
    {
        match self {
            Status::Recording => "recording",
            Status::Finished => "finished",
            Status::Aborted => "aborted",
        }
    }
}

pub open spec fn default_snapshot_roots_spec() -> Seq<Seq<char>> {
    seq!["/etc"@]
}

pub fn default_snapshot_roots() -> (r: Vec<String>)
    ensures
        strs(r@) == default_snapshot_roots_spec(),
{
    let mut r: Vec<String> = Vec::new();
    r.push(crate::text::owned("/etc"));
    assert(strs(r@) =~= default_snapshot_roots_spec());
    r
}

/// The directories a new session snapshots: those asked for, or `/etc`.
pub open spec fn snapshot_roots_for(asked: Seq<Seq<char>>) -> Seq<Seq<char>> {
    if asked.len() == 0 { default_snapshot_roots_spec() } else { asked }
}

/// The directories a new session watches: none when the watcher is turned
/// off, else those asked for, or the default candidates that exist
/// (`present[i]` says whether the `i`-th candidate is a directory).
pub open spec fn watch_roots_for(asked: Seq<Seq<char>>, no_watcher: bool, present: Seq<bool>) -> Seq<Seq<char>> {
    if no_watcher {
        Seq::empty()
    } else if asked.len() == 0 {
        chosen(watch_candidates(), present)
    } else {
        asked
    }
}

pub fn snapshot_roots(asked: Vec<String>) -> (r: Vec<String>)
    ensures
        strs(r@) == snapshot_roots_for(strs(asked@)),
{
    if asked.len() == 0 { default_snapshot_roots() } else { asked }
}

pub fn watch_roots(asked: Vec<String>, no_watcher: bool, present: &[bool]) -> (r: Vec<String>)
    ensures
        strs(r@) == watch_roots_for(strs(asked@), no_watcher, present@),
{
    if no_watcher {
        let r: Vec<String> = Vec::new();
        assert(strs(r@) =~= Seq::<Seq<char>>::empty());
        r
    } else if asked.len() == 0 {
        default_roots(present)
    } else {
        asked
    }
}

/// The status of a session: finished once it has an end time; otherwise
/// recording while its shell is alive, and also before the shell's pid is
/// known (the pid is written just after the shell is spawned, so the shell
/// may already be running commands); aborted when the shell is gone.
pub open spec fn status_spec(ended: bool, pid: Option<u32>, alive: bool) -> Status {
    if ended {
        Status::Finished
    } else if pid.is_none() {
        Status::Recording
    } else if alive {
        Status::Recording
    } else {
        Status::Aborted
    }
}

pub fn status_of(ended: bool, pid: Option<u32>, alive: bool) -> (r: Status)
    ensures
        r == status_spec(ended, pid, alive),
{
    if ended {
        Status::Finished
    } else if pid.is_none() {
        Status::Recording
    } else if alive {
        Status::Recording
    } else {
        Status::Aborted
    }
}

/// Whether a process with this pid exists and may be signalled, as
/// `nix::sys::signal::kill` with no signal answers. Nothing is claimed of
/// the answer: it depends on the processes running on the host.
#[verifier::external_body]
fn process_alive(pid: u32) -> (r: bool) {
    nix::sys::signal::kill(nix::unistd::Pid::from_raw(pid as i32), None).is_ok()
}

/// `base` joined with the relative `rest`, as `PathBuf::push` does on Unix:
/// a separator goes between them unless `base` is empty or already ends in
/// one, and an absolute `rest` replaces `base`.
pub open spec fn join(base: Seq<char>, rest: Seq<char>) -> Seq<char> {
    if rest.len() > 0 && rest[0] == '/' {
        rest
    } else if base.len() == 0 || base.last() == '/' {
        base + rest
    } else {
        base + seq!['/'] + rest
    }
}

pub fn join_exec(base: &str, rest: &str) -> (r: String)
    ensures
        r@ == join(base@, rest@),
{
    let b = crate::text::chars_of(base);
    let t = crate::text::chars_of(rest);
    if t.len() > 0 && t[0] == '/' {
        return crate::text::owned(rest);
    }
    let mut out = crate::text::owned(base);
    if b.len() > 0 && b[b.len() - 1] != '/' {
        push_char(&mut out, '/');
    }
    push_str(&mut out, rest);
    out
}

/// Where exarare keeps its data, given the values of `EXARARE_HOME`,
/// `XDG_DATA_HOME` and `HOME`: the first overrides everything, then the XDG
/// location, then the one under the home directory; with none of them set
/// there is no place to keep it.
pub open spec fn data_dir_spec(
    exarare_home: Option<Seq<char>>,
    xdg_data_home: Option<Seq<char>>,
    home: Option<Seq<char>>,
) -> Option<Seq<char>> {
    match exarare_home {
        Some(h) => Some(h),
        None => match xdg_data_home {
            Some(x) => Some(join(x, "exarare"@)),
            None => match home {
                Some(h) => Some(join(h, ".local/share/exarare"@)),
                None => None,
            },
        },
    }
}

pub open spec fn opt_view(o: Option<&str>) -> Option<Seq<char>> {
    match o {
        Some(s) => Some(s@),
        None => None,
    }
}

pub fn data_dir_of(exarare_home: Option<&str>, xdg_data_home: Option<&str>, home: Option<&str>) -> (r: Option<String>)
    ensures
        match data_dir_spec(opt_view(exarare_home), opt_view(xdg_data_home), opt_view(home)) {
            Some(d) => r matches Some(s) && s@ == d,
            None => r is None,
        },
{
    match exarare_home {
        Some(h) => Some(crate::text::owned(h)),
        None => match xdg_data_home {
            Some(x) => Some(join_exec(x, "exarare")),
            None => match home {
                Some(h) => Some(join_exec(h, ".local/share/exarare")),
                None => None,
            },
        },
    }
}

/// The path of a file of the session, `{dir}/{sub}/{which}{ext}`.
pub open spec fn session_file(dir: Seq<char>, sub: Seq<char>, which: Seq<char>, ext: Seq<char>) -> Seq<char> {
    join(join(dir, sub), which + ext)
}

pub struct Session {
    pub dir: String,
    pub meta: Meta,
}

impl Session {
    fn file(&self, sub: &str, which: &str, ext: &str) -> (r: String)
        ensures
            r@ == session_file(self.dir@, sub@, which@, ext@),
    {
        let d = join_exec(self.dir.as_str(), sub);
        let mut name = crate::text::owned(which);
        push_str(&mut name, ext);
        join_exec(d.as_str(), name.as_str())
    }

    /// Path of the `before` or `after` snapshot.
    pub fn snapshot_path(&self, which: &str) -> (r: String)
        ensures
            r@ == session_file(self.dir@, "snapshots"@, which@, ".jsonl"@),
    {
        self.file("snapshots", which, ".jsonl")
    }

    pub fn blobs_dir(&self) -> (r: String)
        ensures
            r@ == join(self.dir@, "blobs"@),
    {
        join_exec(self.dir.as_str(), "blobs")
    }

    /// Path of the `before` or `after` package state.
    pub fn packages_path(&self, which: &str) -> (r: String)
        ensures
            r@ == session_file(self.dir@, "packages"@, which@, ".json"@),
    {
        self.file("packages", which, ".json")
    }

    /// Path of the `before` or `after` service, firewall and account state.
    pub fn state_path(&self, which: &str) -> (r: String)
        ensures
            r@ == session_file(self.dir@, "state"@, which@, ".json"@),
    {
        self.file("state", which, ".json")
    }

    /// Path of the set of files the watcher saw being touched.
    pub fn touched_path(&self) -> (r: String)
        ensures
            r@ == join(self.dir@, "touched.json"@),
    {
        join_exec(self.dir.as_str(), "touched.json")
    }

    /// Finished once it has an end time; recording before the shell's pid is
    /// known; otherwise recording or aborted, as the host says whether the
    /// shell is still there.
    pub fn status(&self) -> (r: Status)
        ensures
            self.meta.ended_at.is_some() ==> r == Status::Finished,
            self.meta.ended_at.is_none() && self.meta.shell_pid.is_none() ==> r == Status::Recording,
            self.meta.ended_at.is_none() && self.meta.shell_pid.is_some() ==> (r == Status::Recording
                || r == Status::Aborted),
    {
        let ended = self.meta.ended_at.is_some();
        let alive = match self.meta.shell_pid {
            Some(pid) => if ended {
                false
            } else {
                process_alive(pid)
            },
            None => false,
        };
        status_of(ended, self.meta.shell_pid, alive)
    }
}

} // verus!
