//! Service, firewall, user and group state before and after a session.
//!
//! Like the package probe, this reads the system rather than the commands'
//! output, and records what it could not read instead of reporting nothing.

use vstd::prelude::*;

use crate::order::{
    added, added_strings, copy_strings, first_after, is_sorted_set_of, lemma_first_after,
    lemma_filter_map_none, lemma_stable_sort_contains,
    lemma_strs_push, merge_strings, merged, push_labeled, sorted_unique, stable_sort, strs,
    to_strings,
};
use crate::text::{
    chars_of, concat, decimal, has_char, has_prefix, labeled_lines, lemma_concat_push,
    lemma_filter_map_contains, lemma_filter_map_step, lemma_map_values_step, lemma_views_push, lines, lines_chars,
    parse_u32, parse_u32_chars, push_char, push_decimal, push_str, seq_equal, seq_lt, split,
    split_chars, starts_with, string_of, strip_leading, strip_leading_chars, trim, trim_chars,
    views, words, words_chars, chars_lt,
};

verus! {

#[derive(Clone, Debug, PartialEq, Eq)]
pub struct User {
    pub name: String,
    pub uid: u32,
    pub gid: u32,
    pub home: String,
    pub shell: String,
}

/// A user as name, uid, gid, home and shell.
pub type UserV = (Seq<char>, u32, u32, Seq<char>, Seq<char>);

impl View for User {
    type V = UserV;

    open spec fn view(&self) -> UserV {
        (self.name@, self.uid, self.gid, self.home@, self.shell@)
    }
}

pub open spec fn users(s: Seq<User>) -> Seq<UserV> {
    s.map_values(|u: User| u@)
}

proof fn lemma_users_push(s: Seq<User>, u: User)
    ensures
        users(s.push(u)) == users(s).push(u@),
{
    assert(users(s.push(u)) =~= users(s).push(u@));
}

impl User {
    /// A copy of this user.
    pub fn duplicate(&self) -> (r: User)
        ensures
            r@ == self@,
    {
        User {
            name: self.name.clone(),
            uid: self.uid,
            gid: self.gid,
            home: self.home.clone(),
            shell: self.shell.clone(),
        }
    }
}

#[derive(Clone, Debug, PartialEq, Eq)]
pub struct Group {
    pub name: String,
    pub gid: u32,
    pub members: Vec<String>,
}

/// A group as name, gid and members.
pub type GroupV = (Seq<char>, u32, Seq<Seq<char>>);

impl View for Group {
    type V = GroupV;

    open spec fn view(&self) -> GroupV {
        (self.name@, self.gid, strs(self.members@))
    }
}

pub open spec fn groups(s: Seq<Group>) -> Seq<GroupV> {
    s.map_values(|g: Group| g@)
}

proof fn lemma_groups_push(s: Seq<Group>, g: Group)
    ensures
        groups(s.push(g)) == groups(s).push(g@),
{
    assert(groups(s.push(g)) =~= groups(s).push(g@));
}

impl Group {
    /// A copy of this group.
    pub fn duplicate(&self) -> (r: Group)
        ensures
            r@ == self@,
    {
        Group { name: self.name.clone(), gid: self.gid, members: copy_strings(&self.members) }
    }
}

// ----------------------------------------------------------------------------
// Parsers.

pub open spec fn unit_markers() -> Seq<char> {
    seq!['●', '*', ' ']
}

/// The unit name of one line of `systemctl list-unit-files` or `list-units`:
/// the first column, a `●` marker on a failed unit dropped.
pub open spec fn unit_line(line: Seq<char>) -> Option<Seq<char>> {
    let t = trim(line);
    let w = words(strip_leading(t, unit_markers()));
    if t.len() > 0 && w.len() > 0 && w[0].contains('.') {
        Some(w[0])
    } else {
        None
    }
}

/// The unit names of a `systemctl` listing, sorted, each once.
pub fn parse_unit_names(text: &str) -> (r: Vec<String>)
    ensures
        is_sorted_set_of(strs(r@), lines(text@).filter_map(|l: Seq<char>| unit_line(l))),
{
    let v = chars_of(text);
    let ls = lines_chars(&v);
    let ghost src = views(ls@);
    let ghost f = |l: Seq<char>| unit_line(l);
    let markers = vec!['●', '*', ' '];
    assert(markers@ =~= unit_markers());
    let mut out: Vec<Vec<char>> = Vec::new();
    let mut i: usize = 0;
    assert(src.take(0).filter_map(f) =~= views(out@));
    while i < ls.len()
        invariant
            i <= ls@.len(),
            src == views(ls@),
            src == lines(text@),
            markers@ == unit_markers(),
            f == (|l: Seq<char>| unit_line(l)),
            views(out@) == src.take(i as int).filter_map(f),
        decreases ls.len() - i,
    {
        proof { lemma_filter_map_step(src, f, i as int); }
        let ghost line = ls@[i as int]@;
        assert(src[i as int] == line);
        let t = trim_chars(&ls[i]);
        if t.len() > 0 {
            let stripped = strip_leading_chars(&t, &markers);
            let w = words_chars(&stripped);
            if w.len() > 0 {
                assert(views(w@)[0] == w@[0]@);
                if has_char(&w[0], '.') {
                    let name = w[0].clone();
                    proof { lemma_views_push(out@, name); }
                    out.push(name);
                }
            }
        }
        i = i + 1;
    }
    assert(src.take(src.len() as int) == src);
    let sorted = sorted_unique(out);
    to_strings(&sorted)
}

/// `firewall-cmd --list-services` and `--list-ports` print one
/// whitespace-separated list; its items, sorted, each once.
pub fn parse_firewall_list(text: &str) -> (r: Vec<String>)
    ensures
        is_sorted_set_of(strs(r@), words(text@)),
{
    let v = chars_of(text);
    let w = words_chars(&v);
    let sorted = sorted_unique(w);
    to_strings(&sorted)
}

/// One line of `/etc/passwd`, which never holds a password hash.
pub open spec fn passwd_line(line: Seq<char>) -> Option<UserV> {
    let f = split(line, ':');
    if starts_with(line, seq!['#']) || f.len() < 7 {
        None
    } else {
        match (parse_u32(f[2]), parse_u32(f[3])) {
            (Some(uid), Some(gid)) => Some((f[0], uid, gid, f[5], f[6])),
            _ => None,
        }
    }
}

/// The order `sort_by` on the name puts users in: `a` after `b`.
pub open spec fn user_after() -> spec_fn(UserV, UserV) -> bool {
    |a: UserV, b: UserV| seq_lt(b.0, a.0)
}

pub open spec fn group_after() -> spec_fn(GroupV, GroupV) -> bool {
    |a: GroupV, b: GroupV| seq_lt(b.0, a.0)
}

/// The users of `/etc/passwd`, in the stable order of their names.
pub open spec fn passwd_users(text: Seq<char>) -> Seq<UserV> {
    stable_sort(lines(text).filter_map(|l: Seq<char>| passwd_line(l)), user_after())
}

fn insert_user(sorted: &mut Vec<User>, u: User)
    ensures
        users(final(sorted)@) == users(old(sorted)@).insert(
            first_after(users(old(sorted)@), u@, user_after()),
            u@,
        ),
{
    let ghost s = users(sorted@);
    let key = chars_of(u.name.as_str());
    let mut k: usize = 0;
    while k < sorted.len() && !chars_lt(&key, &chars_of(sorted[k].name.as_str()))
        invariant
            k <= sorted@.len(),
            s == users(sorted@),
            key@ == u@.0,
            forall|m: int| 0 <= m < k ==> !(user_after())(#[trigger] s[m], u@),
        decreases sorted.len() - k,
    {
        k = k + 1;
    }
    proof {
        lemma_first_after(s, u@, user_after(), k as int);
    }
    let ghost uv = u@;
    sorted.insert(k, u);
    assert(users(sorted@) =~= s.insert(k as int, uv));
}

fn insert_group(sorted: &mut Vec<Group>, g: Group)
    ensures
        groups(final(sorted)@) == groups(old(sorted)@).insert(
            first_after(groups(old(sorted)@), g@, group_after()),
            g@,
        ),
{
    let ghost s = groups(sorted@);
    let key = chars_of(g.name.as_str());
    let mut k: usize = 0;
    while k < sorted.len() && !chars_lt(&key, &chars_of(sorted[k].name.as_str()))
        invariant
            k <= sorted@.len(),
            s == groups(sorted@),
            key@ == g@.0,
            forall|m: int| 0 <= m < k ==> !(group_after())(#[trigger] s[m], g@),
        decreases sorted.len() - k,
    {
        k = k + 1;
    }
    proof {
        lemma_first_after(s, g@, group_after(), k as int);
    }
    let ghost gv = g@;
    sorted.insert(k, g);
    assert(groups(sorted@) =~= s.insert(k as int, gv));
}

/// `/etc/passwd`: name, uid, gid, home and shell of each entry, comments and
/// malformed lines skipped, in the stable order of the names.
pub fn parse_passwd(text: &str) -> (r: Vec<User>)
    ensures
        users(r@) == passwd_users(text@),
{
    let v = chars_of(text);
    let ls = lines_chars(&v);
    let ghost src = views(ls@);
    let ghost f = |l: Seq<char>| passwd_line(l);
    let hash = vec!['#'];
    assert(hash@ =~= seq!['#']);
    let mut parsed: Vec<User> = Vec::new();
    let mut i: usize = 0;
    assert(src.take(0).filter_map(f) =~= users(parsed@));
    while i < ls.len()
        invariant
            i <= ls@.len(),
            src == views(ls@),
            src == lines(text@),
            hash@ == seq!['#'],
            f == (|l: Seq<char>| passwd_line(l)),
            users(parsed@) == src.take(i as int).filter_map(f),
        decreases ls.len() - i,
    {
        proof { lemma_filter_map_step(src, f, i as int); }
        let ghost line = ls@[i as int]@;
        assert(src[i as int] == line);
        if !has_prefix(&ls[i], &hash) {
            let fields = split_chars(&ls[i], ':');
            if fields.len() >= 7 {
                assert(views(fields@)[2] == fields@[2]@);
                assert(views(fields@)[3] == fields@[3]@);
                assert(views(fields@)[0] == fields@[0]@);
                assert(views(fields@)[5] == fields@[5]@);
                assert(views(fields@)[6] == fields@[6]@);
                match parse_u32_chars(&fields[2]) {
                    Some(uid) => match parse_u32_chars(&fields[3]) {
                        Some(gid) => {
                            let u = User {
                                name: string_of(&fields[0], 0, fields[0].len()),
                                uid,
                                gid,
                                home: string_of(&fields[5], 0, fields[5].len()),
                                shell: string_of(&fields[6], 0, fields[6].len()),
                            };
                            assert(fields@[0]@.subrange(0, fields@[0]@.len() as int) == fields@[0]@);
                            assert(fields@[5]@.subrange(0, fields@[5]@.len() as int) == fields@[5]@);
                            assert(fields@[6]@.subrange(0, fields@[6]@.len() as int) == fields@[6]@);
                            proof { lemma_users_push(parsed@, u); }
                            parsed.push(u);
                        },
                        None => {},
                    },
                    None => {},
                }
            }
        }
        i = i + 1;
    }
    assert(src.take(src.len() as int) == src);
    let ghost all = users(parsed@);
    let mut sorted: Vec<User> = Vec::new();
    let mut j: usize = 0;
    assert(users(sorted@) =~= stable_sort(all.take(0), user_after()));
    while j < parsed.len()
        invariant
            j <= parsed@.len(),
            all == users(parsed@),
            users(sorted@) == stable_sort(all.take(j as int), user_after()),
        decreases parsed.len() - j,
    {
        assert(all.take(j + 1).drop_last() == all.take(j as int));
        assert(all.take(j + 1).last() == parsed@[j as int]@);
        let u = parsed[j].duplicate();
        insert_user(&mut sorted, u);
        j = j + 1;
    }
    assert(all.take(parsed@.len() as int) == all);
    sorted
}

/// The non-empty members of a comma-separated list.
pub open spec fn member_list(field: Seq<char>) -> Seq<Seq<char>> {
    split(field, ',').filter_map(|m: Seq<char>| if m.len() > 0 { Some(m) } else { None })
}

/// One line of `/etc/group`.
pub open spec fn group_line(line: Seq<char>) -> Option<GroupV> {
    let f = split(line, ':');
    if starts_with(line, seq!['#']) || f.len() < 4 {
        None
    } else {
        match parse_u32(f[2]) {
            Some(gid) => Some((f[0], gid, member_list(f[3]))),
            None => None,
        }
    }
}

pub open spec fn group_entries(text: Seq<char>) -> Seq<GroupV> {
    stable_sort(lines(text).filter_map(|l: Seq<char>| group_line(l)), group_after())
}

fn members_of(field: &Vec<char>) -> (r: Vec<String>)
    ensures
        strs(r@) == member_list(field@),
{
    let parts = split_chars(field, ',');
    let ghost p = views(parts@);
    let ghost f = |m: Seq<char>| if m.len() > 0 { Some(m) } else { None };
    let mut r: Vec<String> = Vec::new();
    let mut i: usize = 0;
    assert(p.take(0).filter_map(f) =~= strs(r@));
    while i < parts.len()
        invariant
            i <= parts@.len(),
            p == views(parts@),
            p == split(field@, ','),
            f == (|m: Seq<char>| if m.len() > 0 { Some(m) } else { None }),
            strs(r@) == p.take(i as int).filter_map(f),
        decreases parts.len() - i,
    {
        proof { lemma_filter_map_step(p, f, i as int); }
        assert(p[i as int] == parts@[i as int]@);
        if parts[i].len() > 0 {
            let m = string_of(&parts[i], 0, parts[i].len());
            assert(parts@[i as int]@.subrange(0, parts@[i as int]@.len() as int) == parts@[i as int]@);
            proof { lemma_strs_push(r@, m); }
            r.push(m);
        }
        i = i + 1;
    }
    assert(p.take(p.len() as int) == p);
    r
}

/// `/etc/group`: name, gid and members of each entry, in the stable order of
/// the names.
pub fn parse_group(text: &str) -> (r: Vec<Group>)
    ensures
        groups(r@) == group_entries(text@),
{
    let v = chars_of(text);
    let ls = lines_chars(&v);
    let ghost src = views(ls@);
    let ghost f = |l: Seq<char>| group_line(l);
    let hash = vec!['#'];
    assert(hash@ =~= seq!['#']);
    let mut parsed: Vec<Group> = Vec::new();
    let mut i: usize = 0;
    assert(src.take(0).filter_map(f) =~= groups(parsed@));
    while i < ls.len()
        invariant
            i <= ls@.len(),
            src == views(ls@),
            src == lines(text@),
            hash@ == seq!['#'],
            f == (|l: Seq<char>| group_line(l)),
            groups(parsed@) == src.take(i as int).filter_map(f),
        decreases ls.len() - i,
    {
        proof { lemma_filter_map_step(src, f, i as int); }
        let ghost line = ls@[i as int]@;
        assert(src[i as int] == line);
        if !has_prefix(&ls[i], &hash) {
            let fields = split_chars(&ls[i], ':');
            if fields.len() >= 4 {
                assert(views(fields@)[0] == fields@[0]@);
                assert(views(fields@)[2] == fields@[2]@);
                assert(views(fields@)[3] == fields@[3]@);
                match parse_u32_chars(&fields[2]) {
                    Some(gid) => {
                        let g = Group {
                            name: string_of(&fields[0], 0, fields[0].len()),
                            gid,
                            members: members_of(&fields[3]),
                        };
                        assert(fields@[0]@.subrange(0, fields@[0]@.len() as int) == fields@[0]@);
                        proof { lemma_groups_push(parsed@, g); }
                        parsed.push(g);
                    },
                    None => {},
                }
            }
        }
        i = i + 1;
    }
    assert(src.take(src.len() as int) == src);
    let ghost all = groups(parsed@);
    let mut sorted: Vec<Group> = Vec::new();
    let mut j: usize = 0;
    assert(groups(sorted@) =~= stable_sort(all.take(0), group_after()));
    while j < parsed.len()
        invariant
            j <= parsed@.len(),
            all == groups(parsed@),
            groups(sorted@) == stable_sort(all.take(j as int), group_after()),
        decreases parsed.len() - j,
    {
        assert(all.take(j + 1).drop_last() == all.take(j as int));
        assert(all.take(j + 1).last() == parsed@[j as int]@);
        let g = parsed[j].duplicate();
        insert_group(&mut sorted, g);
        j = j + 1;
    }
    assert(all.take(parsed@.len() as int) == all);
    sorted
}

// ----------------------------------------------------------------------------
// Snapshots.

#[derive(Debug, Default, Clone)]
pub struct Snapshot {
    /// Whether systemd could be asked at all.
    pub systemd: bool,
    pub enabled_units: Vec<String>,
    pub running_services: Vec<String>,
    /// Whether firewalld answered. False when it is absent or not running.
    pub firewalld: bool,
    pub firewall_services: Vec<String>,
    pub firewall_ports: Vec<String>,
    pub users: Vec<User>,
    pub groups: Vec<Group>,
    /// Commands or files that could not be read, with the reason.
    pub errors: Vec<String>,
}

/// What the state commands and files answered. `unit_files` is `None` when
/// systemctl is not installed; `running` is asked only when the unit files
/// were listed; `firewall` is `None` when firewall-cmd is not installed, and
/// holds the service and port listings otherwise. Each answer is the output,
/// or the reason it could not be had.
pub struct StateProbes {
    pub unit_files: Option<Result<String, String>>,
    pub running: Option<Result<String, String>>,
    pub firewall: Option<(Result<String, String>, Result<String, String>)>,
    pub passwd: Result<String, String>,
    pub group: Result<String, String>,
}

pub open spec fn answer_error(a: Result<String, String>) -> Seq<Seq<char>> {
    match a {
        Ok(_) => seq![],
        Err(e) => seq![e@],
    }
}

/// Reads the current state from what the probes answered. Never fails as a
/// whole: what could not be read is reported in `errors`.
pub fn capture(probes: StateProbes) -> (r: Snapshot)
    ensures
        r.systemd == (probes.unit_files matches Some(Ok(_))),
        match probes.unit_files {
            Some(Ok(text)) => is_sorted_set_of(
                strs(r.enabled_units@),
                lines(text@).filter_map(|l: Seq<char>| unit_line(l)),
            ),
            _ => r.enabled_units@.len() == 0,
        },
        match (probes.unit_files, probes.running) {
            (Some(Ok(_)), Some(Ok(text))) => is_sorted_set_of(
                strs(r.running_services@),
                lines(text@).filter_map(|l: Seq<char>| unit_line(l)),
            ),
            _ => r.running_services@.len() == 0,
        },
        r.firewalld == (probes.firewall matches Some((Ok(_), Ok(_)))),
        match probes.firewall {
            Some((Ok(services), Ok(ports))) => {
                &&& is_sorted_set_of(strs(r.firewall_services@), words(services@))
                &&& is_sorted_set_of(strs(r.firewall_ports@), words(ports@))
            },
            _ => r.firewall_services@.len() == 0 && r.firewall_ports@.len() == 0,
        },
        match probes.passwd {
            Ok(text) => users(r.users@) == passwd_users(text@),
            Err(_) => r.users@.len() == 0,
        },
        match probes.group {
            Ok(text) => groups(r.groups@) == group_entries(text@),
            Err(_) => r.groups@.len() == 0,
        },
        strs(r.errors@) == (match probes.unit_files {
            Some(Err(e)) => seq![e@],
            Some(Ok(_)) => (match probes.running {
                Some(Err(e)) => seq![e@],
                _ => seq![],
            }),
            None => seq![],
        }) + answer_error(probes.passwd) + answer_error(probes.group),
{
    let mut snapshot = Snapshot {
        systemd: false,
        enabled_units: Vec::new(),
        running_services: Vec::new(),
        firewalld: false,
        firewall_services: Vec::new(),
        firewall_ports: Vec::new(),
        users: Vec::new(),
        groups: Vec::new(),
        errors: Vec::new(),
    };
    match probes.unit_files {
        Some(Ok(text)) => {
            snapshot.systemd = true;
            snapshot.enabled_units = parse_unit_names(text.as_str());
            match probes.running {
                Some(Ok(running)) => snapshot.running_services = parse_unit_names(running.as_str()),
                Some(Err(e)) => {
                    proof { lemma_strs_push(snapshot.errors@, e); }
                    snapshot.errors.push(e);
                },
                None => {},
            }
        },
        Some(Err(e)) => {
            proof { lemma_strs_push(snapshot.errors@, e); }
            snapshot.errors.push(e);
        },
        None => {},
    }
    // firewalld only answers while its daemon runs, which is not the case in
    // a container. That is recorded as "not answered" rather than as an error.
    match probes.firewall {
        Some((Ok(services), Ok(ports))) => {
            snapshot.firewalld = true;
            snapshot.firewall_services = parse_firewall_list(services.as_str());
            snapshot.firewall_ports = parse_firewall_list(ports.as_str());
        },
        _ => {},
    }
    let ghost probe_errors = strs(snapshot.errors@);
    match probes.passwd {
        Ok(text) => snapshot.users = parse_passwd(text.as_str()),
        Err(e) => {
            proof { lemma_strs_push(snapshot.errors@, e); }
            snapshot.errors.push(e);
        },
    }
    let ghost after_passwd = strs(snapshot.errors@);
    assert(after_passwd =~= probe_errors + answer_error(probes.passwd));
    match probes.group {
        Ok(text) => snapshot.groups = parse_group(text.as_str()),
        Err(e) => {
            proof { lemma_strs_push(snapshot.errors@, e); }
            snapshot.errors.push(e);
        },
    }
    assert(strs(snapshot.errors@) =~= after_passwd + answer_error(probes.group));
    snapshot
}

// ----------------------------------------------------------------------------
// Comparison.

#[derive(Debug, Clone, Default)]
pub struct Diff {
    pub systemd_known: bool,
    pub units_enabled: Vec<String>,
    pub units_disabled: Vec<String>,
    pub services_started: Vec<String>,
    pub services_stopped: Vec<String>,
    pub firewall_known: bool,
    pub firewall_services_added: Vec<String>,
    pub firewall_services_removed: Vec<String>,
    pub firewall_ports_added: Vec<String>,
    pub firewall_ports_removed: Vec<String>,
    pub users_added: Vec<User>,
    pub users_removed: Vec<User>,
    /// Same name, different uid, gid, home or shell.
    pub users_changed: Vec<(User, User)>,
    pub groups_added: Vec<Group>,
    pub groups_removed: Vec<Group>,
    pub errors: Vec<String>,
}

pub open spec fn user_pairs(s: Seq<(User, User)>) -> Seq<(UserV, UserV)> {
    s.map_values(|p: (User, User)| (p.0@, p.1@))
}

impl Diff {
    /// Nothing is known: the state of a runbook before a state comparison is
    /// attributed to it.
    pub open spec fn spec_unknown(&self) -> bool {
        &&& !self.systemd_known
        &&& !self.firewall_known
        &&& self.spec_is_empty()
        &&& self.errors@.len() == 0
    }

    pub fn unknown() -> (r: Diff)
        ensures
            r.spec_unknown(),
    {
        Diff {
            systemd_known: false,
            units_enabled: Vec::new(),
            units_disabled: Vec::new(),
            services_started: Vec::new(),
            services_stopped: Vec::new(),
            firewall_known: false,
            firewall_services_added: Vec::new(),
            firewall_services_removed: Vec::new(),
            firewall_ports_added: Vec::new(),
            firewall_ports_removed: Vec::new(),
            users_added: Vec::new(),
            users_removed: Vec::new(),
            users_changed: Vec::new(),
            groups_added: Vec::new(),
            groups_removed: Vec::new(),
            errors: Vec::new(),
        }
    }

    pub open spec fn spec_is_empty(&self) -> bool {
        &&& self.units_enabled@.len() == 0
        &&& self.units_disabled@.len() == 0
        &&& self.services_started@.len() == 0
        &&& self.services_stopped@.len() == 0
        &&& self.firewall_services_added@.len() == 0
        &&& self.firewall_services_removed@.len() == 0
        &&& self.firewall_ports_added@.len() == 0
        &&& self.firewall_ports_removed@.len() == 0
        &&& self.users_added@.len() == 0
        &&& self.users_removed@.len() == 0
        &&& self.users_changed@.len() == 0
        &&& self.groups_added@.len() == 0
        &&& self.groups_removed@.len() == 0
    }

    pub fn is_empty(&self) -> (r: bool)
        ensures
            r == self.spec_is_empty(),
    {
        self.units_enabled.len() == 0 && self.units_disabled.len() == 0
            && self.services_started.len() == 0 && self.services_stopped.len() == 0
            && self.firewall_services_added.len() == 0 && self.firewall_services_removed.len() == 0
            && self.firewall_ports_added.len() == 0 && self.firewall_ports_removed.len() == 0
            && self.users_added.len() == 0 && self.users_removed.len() == 0
            && self.users_changed.len() == 0 && self.groups_added.len() == 0
            && self.groups_removed.len() == 0
    }

    pub open spec fn spec_names(&self) -> Seq<Seq<char>> {
        strs(self.units_enabled@) + strs(self.services_started@)
            + users(self.users_added@).map_values(|u: UserV| u.0)
            + groups(self.groups_added@).map_values(|g: GroupV| g.0)
    }

    /// Every name a step could be said to have touched, for attribution:
    /// the units enabled, the services started, the users and groups added.
    pub fn names(&self) -> (r: Vec<String>)
        ensures
            strs(r@) == self.spec_names(),
    {
        let mut names = copy_strings(&self.units_enabled);
        let started = copy_strings(&self.services_started);
        let ghost base = strs(names@);
        let mut i: usize = 0;
        assert(strs(names@) =~= base + strs(started@).take(0));
        while i < started.len()
            invariant
                i <= started@.len(),
                strs(names@) == base + strs(started@).take(i as int),
            decreases started.len() - i,
        {
            let x = started[i].clone();
            proof { lemma_strs_push(names@, x); }
            names.push(x);
            assert(strs(started@).take(i + 1) =~= strs(started@).take(i as int).push(started@[i as int]@));
            assert(strs(names@) =~= base + strs(started@).take(i + 1));
            i = i + 1;
        }
        assert(strs(started@).take(started@.len() as int) == strs(started@));
        let ghost base2 = strs(names@);
        let ghost un = users(self.users_added@).map_values(|u: UserV| u.0);
        let mut j: usize = 0;
        assert(strs(names@) =~= base2 + un.take(0));
        while j < self.users_added.len()
            invariant
                j <= self.users_added@.len(),
                un == users(self.users_added@).map_values(|u: UserV| u.0),
                strs(names@) == base2 + un.take(j as int),
            decreases self.users_added.len() - j,
        {
            let x = self.users_added[j].name.clone();
            proof { lemma_strs_push(names@, x); }
            names.push(x);
            assert(un.take(j + 1) =~= un.take(j as int).push(self.users_added@[j as int].name@));
            assert(strs(names@) =~= base2 + un.take(j + 1));
            j = j + 1;
        }
        assert(un.take(un.len() as int) == un);
        let ghost base3 = strs(names@);
        let ghost gn = groups(self.groups_added@).map_values(|g: GroupV| g.0);
        let mut k: usize = 0;
        assert(strs(names@) =~= base3 + gn.take(0));
        while k < self.groups_added.len()
            invariant
                k <= self.groups_added@.len(),
                gn == groups(self.groups_added@).map_values(|g: GroupV| g.0),
                strs(names@) == base3 + gn.take(k as int),
            decreases self.groups_added.len() - k,
        {
            let x = self.groups_added[k].name.clone();
            proof { lemma_strs_push(names@, x); }
            names.push(x);
            assert(gn.take(k + 1) =~= gn.take(k as int).push(self.groups_added@[k as int].name@));
            assert(strs(names@) =~= base3 + gn.take(k + 1));
            k = k + 1;
        }
        assert(gn.take(gn.len() as int) == gn);
        assert(strs(names@) =~= self.spec_names());
        names
    }
}

/// The first user in `list` with this name, as `find` returns it.
pub open spec fn first_user(list: Seq<UserV>, name: Seq<char>) -> Option<UserV>
    decreases list.len(),
{
    if list.len() == 0 {
        None
    } else {
        match first_user(list.drop_last(), name) {
            Some(u) => Some(u),
            None => if list.last().0 == name { Some(list.last()) } else { None },
        }
    }
}

pub open spec fn has_group(list: Seq<GroupV>, name: Seq<char>) -> bool {
    exists|i: int| 0 <= i < list.len() && #[trigger] list[i].0 == name
}

pub open spec fn users_added_of(before: Seq<UserV>, after: Seq<UserV>) -> Seq<UserV> {
    after.filter_map(|u: UserV| if first_user(before, u.0).is_none() { Some(u) } else { None })
}

pub open spec fn users_changed_of(before: Seq<UserV>, after: Seq<UserV>) -> Seq<(UserV, UserV)> {
    after.filter_map(|u: UserV| match first_user(before, u.0) {
        Some(old) => if old != u { Some((old, u)) } else { None },
        None => None,
    })
}

pub open spec fn groups_added_of(before: Seq<GroupV>, after: Seq<GroupV>) -> Seq<GroupV> {
    after.filter_map(|g: GroupV| if has_group(before, g.0) { None } else { Some(g) })
}

proof fn lemma_first_user_prefix(list: Seq<UserV>, name: Seq<char>, j: int)
    requires
        0 <= j <= list.len(),
        forall|m: int| 0 <= m < j ==> (#[trigger] list[m]).0 != name,
    ensures
        first_user(list.take(j), name).is_none(),
    decreases j,
{
    if j > 0 {
        assert(list.take(j).drop_last() == list.take(j - 1));
        lemma_first_user_prefix(list, name, j - 1);
    }
}

proof fn lemma_first_user_found(list: Seq<UserV>, name: Seq<char>, j: int, k: int)
    requires
        0 <= j < k <= list.len(),
        list[j].0 == name,
        forall|m: int| 0 <= m < j ==> (#[trigger] list[m]).0 != name,
    ensures
        first_user(list.take(k), name) == Some(list[j]),
    decreases k,
{
    if k == j + 1 {
        assert(list.take(k).drop_last() == list.take(j));
        lemma_first_user_prefix(list, name, j);
    } else {
        assert(list.take(k).drop_last() == list.take(k - 1));
        lemma_first_user_found(list, name, j, k - 1);
    }
}

fn find_user(list: &Vec<User>, name: &String) -> (r: Option<usize>)
    ensures
        match r {
            Some(j) => j < list@.len() && first_user(users(list@), name@) == Some(list@[j as int]@),
            None => first_user(users(list@), name@).is_none(),
        },
{
    let ghost l = users(list@);
    let mut j: usize = 0;
    while j < list.len()
        invariant
            j <= list@.len(),
            l == users(list@),
            forall|m: int| 0 <= m < j ==> (#[trigger] l[m]).0 != name@,
        decreases list.len() - j,
    {
        assert(l[j as int] == list@[j as int]@);
        if list[j].name == *name {
            proof {
                lemma_first_user_found(l, name@, j as int, l.len() as int);
                assert(l.take(l.len() as int) == l);
            }
            return Some(j);
        }
        j = j + 1;
    }
    proof {
        lemma_first_user_prefix(l, name@, l.len() as int);
        assert(l.take(l.len() as int) == l);
    }
    None
}

fn group_named(list: &Vec<Group>, name: &String) -> (r: bool)
    ensures
        r == has_group(groups(list@), name@),
{
    let ghost l = groups(list@);
    let mut j: usize = 0;
    while j < list.len()
        invariant
            j <= list@.len(),
            l == groups(list@),
            forall|m: int| 0 <= m < j ==> (#[trigger] l[m]).0 != name@,
        decreases list.len() - j,
    {
        assert(l[j as int] == list@[j as int]@);
        if list[j].name == *name {
            assert(l[j as int].0 == name@);
            return true;
        }
        j = j + 1;
    }
    false
}

fn users_equal(a: &User, b: &User) -> (r: bool)
    ensures
        r == (a@ == b@),
{
    a.name == b.name && a.uid == b.uid && a.gid == b.gid && a.home == b.home && a.shell == b.shell
}

/// Groups of `after` whose name is not in `before`.
fn new_groups(before: &Vec<Group>, after: &Vec<Group>) -> (r: Vec<Group>)
    ensures
        groups(r@) == groups_added_of(groups(before@), groups(after@)),
{
    let ghost a = groups(after@);
    let ghost b = groups(before@);
    let ghost f = |g: GroupV| if has_group(b, g.0) { None } else { Some(g) };
    let mut r: Vec<Group> = Vec::new();
    let mut i: usize = 0;
    assert(a.take(0).filter_map(f) =~= groups(r@));
    while i < after.len()
        invariant
            i <= after@.len(),
            a == groups(after@),
            b == groups(before@),
            f == (|g: GroupV| if has_group(b, g.0) { None } else { Some(g) }),
            groups(r@) == a.take(i as int).filter_map(f),
        decreases after.len() - i,
    {
        proof { lemma_filter_map_step(a, f, i as int); }
        assert(a[i as int] == after@[i as int]@);
        if !group_named(before, &after[i].name) {
            let g = after[i].duplicate();
            proof { lemma_groups_push(r@, g); }
            r.push(g);
        }
        i = i + 1;
    }
    assert(a.take(a.len() as int) == a);
    r
}

/// Users of `after` whose name is not in `before`.
fn new_users(before: &Vec<User>, after: &Vec<User>) -> (r: Vec<User>)
    ensures
        users(r@) == users_added_of(users(before@), users(after@)),
{
    let ghost a = users(after@);
    let ghost b = users(before@);
    let ghost f = |u: UserV| if first_user(b, u.0).is_none() { Some(u) } else { None };
    let mut r: Vec<User> = Vec::new();
    let mut i: usize = 0;
    assert(a.take(0).filter_map(f) =~= users(r@));
    while i < after.len()
        invariant
            i <= after@.len(),
            a == users(after@),
            b == users(before@),
            f == (|u: UserV| if first_user(b, u.0).is_none() { Some(u) } else { None }),
            users(r@) == a.take(i as int).filter_map(f),
        decreases after.len() - i,
    {
        proof { lemma_filter_map_step(a, f, i as int); }
        assert(a[i as int] == after@[i as int]@);
        if find_user(before, &after[i].name).is_none() {
            let u = after[i].duplicate();
            proof { lemma_users_push(r@, u); }
            r.push(u);
        }
        i = i + 1;
    }
    assert(a.take(a.len() as int) == a);
    r
}

/// Users of `after` whose entry differs from the one of the same name in
/// `before`, as (before, after).
fn changed_users(before: &Vec<User>, after: &Vec<User>) -> (r: Vec<(User, User)>)
    ensures
        user_pairs(r@) == users_changed_of(users(before@), users(after@)),
{
    let ghost a = users(after@);
    let ghost b = users(before@);
    let ghost f = |u: UserV| match first_user(b, u.0) {
        Some(old) => if old != u { Some((old, u)) } else { None },
        None => None,
    };
    let mut r: Vec<(User, User)> = Vec::new();
    let mut i: usize = 0;
    assert(a.take(0).filter_map(f) =~= user_pairs(r@));
    while i < after.len()
        invariant
            i <= after@.len(),
            a == users(after@),
            b == users(before@),
            f == (|u: UserV| match first_user(b, u.0) {
                Some(old) => if old != u { Some((old, u)) } else { None },
                None => None,
            }),
            user_pairs(r@) == a.take(i as int).filter_map(f),
        decreases after.len() - i,
    {
        proof { lemma_filter_map_step(a, f, i as int); }
        assert(a[i as int] == after@[i as int]@);
        match find_user(before, &after[i].name) {
            Some(j) => {
                if !users_equal(&before[j], &after[i]) {
                    let pair = (before[j].duplicate(), after[i].duplicate());
                    let ghost pv = (pair.0@, pair.1@);
                    r.push(pair);
                    assert(user_pairs(r@) =~= a.take(i as int).filter_map(f).push(pv));
                }
            },
            None => {},
        }
        i = i + 1;
    }
    assert(a.take(a.len() as int) == a);
    r
}

/// Compares two snapshots. Units and services are compared only when
/// systemd answered both times, firewall rules only when firewalld did;
/// otherwise nothing is known and nothing is reported.
pub fn compare(before: &Snapshot, after: &Snapshot) -> (r: Diff)
    ensures
        r.systemd_known == (before.systemd && after.systemd),
        r.firewall_known == (before.firewalld && after.firewalld),
        strs(r.errors@) == merged(strs(before.errors@), strs(after.errors@)),
        r.systemd_known ==> {
            &&& strs(r.units_enabled@) == added(strs(before.enabled_units@), strs(after.enabled_units@))
            &&& strs(r.units_disabled@) == added(strs(after.enabled_units@), strs(before.enabled_units@))
            &&& strs(r.services_started@) == added(strs(before.running_services@), strs(after.running_services@))
            &&& strs(r.services_stopped@) == added(strs(after.running_services@), strs(before.running_services@))
        },
        !r.systemd_known ==> r.units_enabled@.len() == 0 && r.units_disabled@.len() == 0
            && r.services_started@.len() == 0 && r.services_stopped@.len() == 0,
        r.firewall_known ==> {
            &&& strs(r.firewall_services_added@) == added(strs(before.firewall_services@), strs(after.firewall_services@))
            &&& strs(r.firewall_services_removed@) == added(strs(after.firewall_services@), strs(before.firewall_services@))
            &&& strs(r.firewall_ports_added@) == added(strs(before.firewall_ports@), strs(after.firewall_ports@))
            &&& strs(r.firewall_ports_removed@) == added(strs(after.firewall_ports@), strs(before.firewall_ports@))
        },
        !r.firewall_known ==> r.firewall_services_added@.len() == 0 && r.firewall_services_removed@.len() == 0
            && r.firewall_ports_added@.len() == 0 && r.firewall_ports_removed@.len() == 0,
        users(r.users_added@) == users_added_of(users(before.users@), users(after.users@)),
        users(r.users_removed@) == users_added_of(users(after.users@), users(before.users@)),
        user_pairs(r.users_changed@) == users_changed_of(users(before.users@), users(after.users@)),
        groups(r.groups_added@) == groups_added_of(groups(before.groups@), groups(after.groups@)),
        groups(r.groups_removed@) == groups_added_of(groups(after.groups@), groups(before.groups@)),
{
    let systemd_known = before.systemd && after.systemd;
    let firewall_known = before.firewalld && after.firewalld;
    Diff {
        systemd_known,
        units_enabled: if systemd_known { added_strings(&before.enabled_units, &after.enabled_units) } else { Vec::new() },
        units_disabled: if systemd_known { added_strings(&after.enabled_units, &before.enabled_units) } else { Vec::new() },
        services_started: if systemd_known { added_strings(&before.running_services, &after.running_services) } else { Vec::new() },
        services_stopped: if systemd_known { added_strings(&after.running_services, &before.running_services) } else { Vec::new() },
        firewall_known,
        firewall_services_added: if firewall_known { added_strings(&before.firewall_services, &after.firewall_services) } else { Vec::new() },
        firewall_services_removed: if firewall_known { added_strings(&after.firewall_services, &before.firewall_services) } else { Vec::new() },
        firewall_ports_added: if firewall_known { added_strings(&before.firewall_ports, &after.firewall_ports) } else { Vec::new() },
        firewall_ports_removed: if firewall_known { added_strings(&after.firewall_ports, &before.firewall_ports) } else { Vec::new() },
        users_added: new_users(&before.users, &after.users),
        users_removed: new_users(&after.users, &before.users),
        users_changed: changed_users(&before.users, &after.users),
        groups_added: new_groups(&before.groups, &after.groups),
        groups_removed: new_groups(&after.groups, &before.groups),
        errors: merge_strings(&before.errors, &after.errors),
    }
}

// ----------------------------------------------------------------------------
// Report.

pub open spec fn user_added_line(u: UserV) -> Seq<char> {
    "user added   "@ + u.0 + " (uid "@ + decimal(u.1 as nat) + ", shell "@ + u.4 + seq![')', '\n']
}

pub open spec fn user_removed_line(u: UserV) -> Seq<char> {
    "user removed "@ + u.0 + seq!['\n']
}

pub open spec fn user_changed_line(p: (UserV, UserV)) -> Seq<char> {
    "user changed "@ + p.1.0 + ": uid "@ + decimal(p.0.1 as nat) + " -> "@ + decimal(p.1.1 as nat)
        + ", shell "@ + p.0.4 + " -> "@ + p.1.4 + seq!['\n']
}

pub open spec fn group_added_line(g: GroupV) -> Seq<char> {
    "group added  "@ + g.0 + " (gid "@ + decimal(g.1 as nat) + seq![')', '\n']
}

pub open spec fn group_removed_line(g: GroupV) -> Seq<char> {
    "group removed "@ + g.0 + seq!['\n']
}

/// The plain report of a state comparison.
pub open spec fn report(d: Diff) -> Seq<char> {
    labeled_lines("enabled      "@, strs(d.units_enabled@))
        + labeled_lines("disabled     "@, strs(d.units_disabled@))
        + labeled_lines("started      "@, strs(d.services_started@))
        + labeled_lines("stopped      "@, strs(d.services_stopped@))
        + labeled_lines("fw add       "@, strs(d.firewall_services_added@))
        + labeled_lines("fw remove    "@, strs(d.firewall_services_removed@))
        + labeled_lines("port add     "@, strs(d.firewall_ports_added@))
        + labeled_lines("port remove  "@, strs(d.firewall_ports_removed@))
        + concat(users(d.users_added@).map_values(|u: UserV| user_added_line(u)))
        + concat(users(d.users_removed@).map_values(|u: UserV| user_removed_line(u)))
        + concat(user_pairs(d.users_changed@).map_values(|p: (UserV, UserV)| user_changed_line(p)))
        + concat(groups(d.groups_added@).map_values(|g: GroupV| group_added_line(g)))
        + concat(groups(d.groups_removed@).map_values(|g: GroupV| group_removed_line(g)))
        + labeled_lines("warning      "@, strs(d.errors@))
}

fn push_user_lines(out: &mut String, list: &Vec<User>, added: bool)
    ensures
        added ==> final(out)@ == old(out)@ + concat(users(list@).map_values(|u: UserV| user_added_line(u))),
        !added ==> final(out)@ == old(out)@ + concat(users(list@).map_values(|u: UserV| user_removed_line(u))),
{
    let ghost a = users(list@);
    let ghost fa = |u: UserV| user_added_line(u);
    let ghost fr = |u: UserV| user_removed_line(u);
    let ghost start = out@;
    let mut i: usize = 0;
    assert(concat(a.take(0).map_values(fa)) =~= Seq::<char>::empty());
    assert(concat(a.take(0).map_values(fr)) =~= Seq::<char>::empty());
    assert(out@ =~= start + Seq::<char>::empty());
    while i < list.len()
        invariant
            i <= list@.len(),
            a == users(list@),
            fa == (|u: UserV| user_added_line(u)),
            fr == (|u: UserV| user_removed_line(u)),
            added ==> out@ == start + concat(a.take(i as int).map_values(fa)),
            !added ==> out@ == start + concat(a.take(i as int).map_values(fr)),
        decreases list.len() - i,
    {
        proof {
            lemma_map_values_step(a, fa, i as int);
            lemma_concat_push(a.take(i as int).map_values(fa), fa(a[i as int]));
            lemma_map_values_step(a, fr, i as int);
            lemma_concat_push(a.take(i as int).map_values(fr), fr(a[i as int]));
        }
        let u = &list[i];
        assert(a[i as int] == u@);
        if added {
            push_str(out, "user added   ");
            push_str(out, u.name.as_str());
            push_str(out, " (uid ");
            push_decimal(out, u.uid as u64);
            push_str(out, ", shell ");
            push_str(out, u.shell.as_str());
            push_char(out, ')');
            push_char(out, '\n');
            assert(out@ =~= start + concat(a.take(i + 1).map_values(fa)));
        } else {
            push_str(out, "user removed ");
            push_str(out, u.name.as_str());
            push_char(out, '\n');
            assert(out@ =~= start + concat(a.take(i + 1).map_values(fr)));
        }
        i = i + 1;
    }
    assert(a.take(a.len() as int) == a);
}

fn push_changed_lines(out: &mut String, list: &Vec<(User, User)>)
    ensures
        final(out)@ == old(out)@ + concat(user_pairs(list@).map_values(|p: (UserV, UserV)| user_changed_line(p))),
{
    let ghost a = user_pairs(list@);
    let ghost f = |p: (UserV, UserV)| user_changed_line(p);
    let ghost start = out@;
    let mut i: usize = 0;
    assert(concat(a.take(0).map_values(f)) =~= Seq::<char>::empty());
    assert(out@ =~= start + concat(a.take(0).map_values(f)));
    while i < list.len()
        invariant
            i <= list@.len(),
            a == user_pairs(list@),
            f == (|p: (UserV, UserV)| user_changed_line(p)),
            out@ == start + concat(a.take(i as int).map_values(f)),
        decreases list.len() - i,
    {
        proof {
            lemma_map_values_step(a, f, i as int);
            lemma_concat_push(a.take(i as int).map_values(f), f(a[i as int]));
        }
        let (b, n) = (&list[i].0, &list[i].1);
        assert(a[i as int] == (b@, n@));
        push_str(out, "user changed ");
        push_str(out, n.name.as_str());
        push_str(out, ": uid ");
        push_decimal(out, b.uid as u64);
        push_str(out, " -> ");
        push_decimal(out, n.uid as u64);
        push_str(out, ", shell ");
        push_str(out, b.shell.as_str());
        push_str(out, " -> ");
        push_str(out, n.shell.as_str());
        push_char(out, '\n');
        assert(out@ =~= start + concat(a.take(i + 1).map_values(f)));
        i = i + 1;
    }
    assert(a.take(a.len() as int) == a);
}

fn push_group_lines(out: &mut String, list: &Vec<Group>, added: bool)
    ensures
        added ==> final(out)@ == old(out)@ + concat(groups(list@).map_values(|g: GroupV| group_added_line(g))),
        !added ==> final(out)@ == old(out)@ + concat(groups(list@).map_values(|g: GroupV| group_removed_line(g))),
{
    let ghost a = groups(list@);
    let ghost fa = |g: GroupV| group_added_line(g);
    let ghost fr = |g: GroupV| group_removed_line(g);
    let ghost start = out@;
    let mut i: usize = 0;
    assert(concat(a.take(0).map_values(fa)) =~= Seq::<char>::empty());
    assert(concat(a.take(0).map_values(fr)) =~= Seq::<char>::empty());
    assert(out@ =~= start + Seq::<char>::empty());
    while i < list.len()
        invariant
            i <= list@.len(),
            a == groups(list@),
            fa == (|g: GroupV| group_added_line(g)),
            fr == (|g: GroupV| group_removed_line(g)),
            added ==> out@ == start + concat(a.take(i as int).map_values(fa)),
            !added ==> out@ == start + concat(a.take(i as int).map_values(fr)),
        decreases list.len() - i,
    {
        proof {
            lemma_map_values_step(a, fa, i as int);
            lemma_concat_push(a.take(i as int).map_values(fa), fa(a[i as int]));
            lemma_map_values_step(a, fr, i as int);
            lemma_concat_push(a.take(i as int).map_values(fr), fr(a[i as int]));
        }
        let g = &list[i];
        assert(a[i as int] == g@);
        if added {
            push_str(out, "group added  ");
            push_str(out, g.name.as_str());
            push_str(out, " (gid ");
            push_decimal(out, g.gid as u64);
            push_char(out, ')');
            push_char(out, '\n');
            assert(out@ =~= start + concat(a.take(i + 1).map_values(fa)));
        } else {
            push_str(out, "group removed ");
            push_str(out, g.name.as_str());
            push_char(out, '\n');
            assert(out@ =~= start + concat(a.take(i + 1).map_values(fr)));
        }
        i = i + 1;
    }
    assert(a.take(a.len() as int) == a);
}

/// A plain report for `exarare diff`, in English like the rest of the CLI.
pub fn render(diff: &Diff) -> (r: String)
    ensures
        r@ == report(*diff),
{
    let mut out = String::new();
    push_labeled(&mut out, "enabled      ", &diff.units_enabled);
    push_labeled(&mut out, "disabled     ", &diff.units_disabled);
    push_labeled(&mut out, "started      ", &diff.services_started);
    push_labeled(&mut out, "stopped      ", &diff.services_stopped);
    push_labeled(&mut out, "fw add       ", &diff.firewall_services_added);
    push_labeled(&mut out, "fw remove    ", &diff.firewall_services_removed);
    push_labeled(&mut out, "port add     ", &diff.firewall_ports_added);
    push_labeled(&mut out, "port remove  ", &diff.firewall_ports_removed);
    push_user_lines(&mut out, &diff.users_added, true);
    push_user_lines(&mut out, &diff.users_removed, false);
    push_changed_lines(&mut out, &diff.users_changed);
    push_group_lines(&mut out, &diff.groups_added, true);
    push_group_lines(&mut out, &diff.groups_removed, false);
    push_labeled(&mut out, "warning      ", &diff.errors);
    assert(out@ =~= report(*diff));
    out
}

/// A user found anywhere in the list makes `first_user` find one.
proof fn lemma_first_user_some(list: Seq<UserV>, i: int)
    requires
        0 <= i < list.len(),
    ensures
        first_user(list, list[i].0).is_some(),
    decreases list.len(),
{
    if i < list.len() - 1 {
        assert(list.drop_last()[i] == list[i]);
        lemma_first_user_some(list.drop_last(), i);
    }
}

/// Each user name occurs once.
pub open spec fn unique_user_names(s: Seq<UserV>) -> bool {
    forall|i: int, j: int| 0 <= i < j < s.len() ==> (#[trigger] s[i]).0 != (#[trigger] s[j]).0
}

/// Comparing the state of a host with itself reports no change: no unit,
/// service, firewall service or port appears or disappears, and no user or
/// group is added or removed; no user is changed either, when each user name
/// occurs once.
pub proof fn law_same_state_no_change(names: Seq<Seq<char>>, us: Seq<UserV>, gs: Seq<GroupV>)
    ensures
        added(names, names).len() == 0,
        users_added_of(us, us).len() == 0,
        groups_added_of(gs, gs).len() == 0,
        unique_user_names(us) ==> users_changed_of(us, us).len() == 0,
{
    let fa = |x: Seq<char>| if names.contains(x) { None::<Seq<char>> } else { Some(x) };
    assert forall|i: int| 0 <= i < names.len() implies (#[trigger] fa(names[i])).is_none() by {
        assert(names.contains(names[i]));
    }
    lemma_filter_map_none(names, fa);

    let fu = |u: UserV| if first_user(us, u.0).is_none() { Some(u) } else { None };
    assert forall|i: int| 0 <= i < us.len() implies (#[trigger] fu(us[i])).is_none() by {
        lemma_first_user_some(us, i);
    }
    lemma_filter_map_none(us, fu);

    let fg = |g: GroupV| if has_group(gs, g.0) { None } else { Some(g) };
    assert forall|i: int| 0 <= i < gs.len() implies (#[trigger] fg(gs[i])).is_none() by {
        assert(gs[i].0 == gs[i].0);
        assert(has_group(gs, gs[i].0));
    }
    lemma_filter_map_none(gs, fg);

    if unique_user_names(us) {
        let fc = |u: UserV| match first_user(us, u.0) {
            Some(old) => if old != u { Some((old, u)) } else { None },
            None => None,
        };
        assert forall|i: int| 0 <= i < us.len() implies (#[trigger] fc(us[i])).is_none() by {
            assert forall|m: int| 0 <= m < i implies (#[trigger] us[m]).0 != us[i].0 by {
                assert(us[m].0 != us[i].0);
            }
            lemma_first_user_found(us, us[i].0, i, us.len() as int);
            assert(us.take(us.len() as int) == us);
        }
        lemma_filter_map_none(us, fc);
    }
}

/// Every well-formed line of `/etc/passwd` gives a user whose name, uid,
/// gid, home and shell are its first, third, fourth, sixth and seventh
/// `:`-separated fields; and every user read comes from such a line. The
/// fifth field, the comment, is never taken for the home.
pub proof fn law_passwd_fields(text: Seq<char>)
    ensures
        forall|l: Seq<char>|
            #![trigger lines(text).contains(l)]
            lines(text).contains(l) && !starts_with(l, seq!['#']) && split(l, ':').len() >= 7
                && parse_u32(split(l, ':')[2]) is Some && parse_u32(split(l, ':')[3]) is Some
                ==> passwd_users(text).contains((
                split(l, ':')[0],
                parse_u32(split(l, ':')[2])->Some_0,
                parse_u32(split(l, ':')[3])->Some_0,
                split(l, ':')[5],
                split(l, ':')[6],
            )),
        forall|u: UserV|
            #![trigger passwd_users(text).contains(u)]
            passwd_users(text).contains(u) ==> exists|l: Seq<char>|
                #![trigger lines(text).contains(l)]
                lines(text).contains(l) && !starts_with(l, seq!['#']) && split(l, ':').len() >= 7
                    && u.0 == split(l, ':')[0] && parse_u32(split(l, ':')[2]) == Some(u.1)
                    && parse_u32(split(l, ':')[3]) == Some(u.2) && u.3 == split(l, ':')[5]
                    && u.4 == split(l, ':')[6],
{
    let ls = lines(text);
    let f = |l: Seq<char>| passwd_line(l);
    assert forall|l: Seq<char>|
        #![trigger lines(text).contains(l)]
        lines(text).contains(l) && !starts_with(l, seq!['#']) && split(l, ':').len() >= 7
            && parse_u32(split(l, ':')[2]) is Some && parse_u32(split(l, ':')[3]) is Some
            implies passwd_users(text).contains((
            split(l, ':')[0],
            parse_u32(split(l, ':')[2])->Some_0,
            parse_u32(split(l, ':')[3])->Some_0,
            split(l, ':')[5],
            split(l, ':')[6],
        )) by {
        let fs = split(l, ':');
        let u: UserV = (fs[0], parse_u32(fs[2])->Some_0, parse_u32(fs[3])->Some_0, fs[5], fs[6]);
        let i = choose|i: int| 0 <= i < ls.len() && ls[i] == l;
        assert(f(ls[i]) == Some(u));
        lemma_filter_map_contains(ls, f, u);
        lemma_stable_sort_contains(ls.filter_map(f), user_after(), u);
    }
    assert forall|u: UserV|
        #![trigger passwd_users(text).contains(u)]
        passwd_users(text).contains(u) implies exists|l: Seq<char>|
            #![trigger lines(text).contains(l)]
            lines(text).contains(l) && !starts_with(l, seq!['#']) && split(l, ':').len() >= 7
                && u.0 == split(l, ':')[0] && parse_u32(split(l, ':')[2]) == Some(u.1)
                && parse_u32(split(l, ':')[3]) == Some(u.2) && u.3 == split(l, ':')[5]
                && u.4 == split(l, ':')[6] by {
        lemma_stable_sort_contains(ls.filter_map(f), user_after(), u);
        lemma_filter_map_contains(ls, f, u);
        let i = choose|i: int| 0 <= i < ls.len() && #[trigger] f(ls[i]) == Some(u);
        assert(ls.contains(ls[i]));
    }
}

/// Every well-formed line of `/etc/group` gives a group whose name and gid
/// are its first and third `:`-separated fields and whose members are read
/// from its fourth; and every group read comes from such a line.
pub proof fn law_group_fields(text: Seq<char>)
    ensures
        forall|l: Seq<char>|
            #![trigger lines(text).contains(l)]
            lines(text).contains(l) && !starts_with(l, seq!['#']) && split(l, ':').len() >= 4
                && parse_u32(split(l, ':')[2]) is Some
                ==> group_entries(text).contains((
                split(l, ':')[0],
                parse_u32(split(l, ':')[2])->Some_0,
                member_list(split(l, ':')[3]),
            )),
        forall|g: GroupV|
            #![trigger group_entries(text).contains(g)]
            group_entries(text).contains(g) ==> exists|l: Seq<char>|
                #![trigger lines(text).contains(l)]
                lines(text).contains(l) && !starts_with(l, seq!['#']) && split(l, ':').len() >= 4
                    && g.0 == split(l, ':')[0] && parse_u32(split(l, ':')[2]) == Some(g.1)
                    && g.2 == member_list(split(l, ':')[3]),
{
    let ls = lines(text);
    let f = |l: Seq<char>| group_line(l);
    assert forall|l: Seq<char>|
        #![trigger lines(text).contains(l)]
        lines(text).contains(l) && !starts_with(l, seq!['#']) && split(l, ':').len() >= 4
            && parse_u32(split(l, ':')[2]) is Some
            implies group_entries(text).contains((
            split(l, ':')[0],
            parse_u32(split(l, ':')[2])->Some_0,
            member_list(split(l, ':')[3]),
        )) by {
        let fs = split(l, ':');
        let g: GroupV = (fs[0], parse_u32(fs[2])->Some_0, member_list(fs[3]));
        let i = choose|i: int| 0 <= i < ls.len() && ls[i] == l;
        assert(f(ls[i]) == Some(g));
        lemma_filter_map_contains(ls, f, g);
        lemma_stable_sort_contains(ls.filter_map(f), group_after(), g);
    }
    assert forall|g: GroupV|
        #![trigger group_entries(text).contains(g)]
        group_entries(text).contains(g) implies exists|l: Seq<char>|
            #![trigger lines(text).contains(l)]
            lines(text).contains(l) && !starts_with(l, seq!['#']) && split(l, ':').len() >= 4
                && g.0 == split(l, ':')[0] && parse_u32(split(l, ':')[2]) == Some(g.1)
                && g.2 == member_list(split(l, ':')[3]) by {
        lemma_stable_sort_contains(ls.filter_map(f), group_after(), g);
        lemma_filter_map_contains(ls, f, g);
        let i = choose|i: int| 0 <= i < ls.len() && #[trigger] f(ls[i]) == Some(g);
        assert(ls.contains(ls[i]));
    }
}

} // verus!
