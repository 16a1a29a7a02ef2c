//! Which rows the tables show, and in which order.

use std::collections::HashMap;

use vstd::prelude::*;
use vstd::string::*;

use crate::model::{Container, Pid, Process, Socket};
use crate::model::{ContainerView, ProcessView, SocketView};
use crate::num::{dec_i32, dec_u64, parse_i32};
use crate::order::{field_of_number, field_of_text, key_of_one, sort};
use crate::text::{
    chars_of, cut_end, lines_of, lowercase, str_holds, string_of, text, words_of, Class,
};
use crate::{num, order, render, text};
use crate::tui::panes;

verus! {

broadcast use vstd::std_specs::hash::group_hash_axioms;

// ---------- searching ----------

/// Whether one of the fields holds the needle.
pub open spec fn any_field(fields: Seq<Seq<char>>, needle: Seq<char>) -> bool {
    exists|i: int| 0 <= i < fields.len() && text::contains(#[trigger] fields[i], needle)
}

/// Whether one of the fields holds the needle.
pub fn any_holds(fields: &Vec<String>, needle: &str) -> (r: bool)
    ensures
        r == any_field(text::texts(fields@), needle@),
{
    let ghost all = text::texts(fields@);
    let mut i: usize = 0;
    while i < fields.len()
        invariant
            all == text::texts(fields@),
            i <= fields@.len(),
            forall|j: int| 0 <= j < i ==> !text::contains(#[trigger] all[j], needle@),
        decreases fields@.len() - i,
    {
        assert(all[i as int] == fields@[i as int]@);
        if str_holds(fields[i].as_str(), needle) {
            return true;
        }
        i += 1;
    }
    false
}

/// The positions below `n` whose fields hold the needle; all of them for an
/// empty one.
pub open spec fn matching(rows: Seq<Seq<Seq<char>>>, needle: Seq<char>, n: int) -> Seq<usize>
    decreases n,
{
    if n <= 0 {
        seq![]
    } else if needle.len() == 0 || any_field(rows[n - 1], needle) {
        matching(rows, needle, n - 1).push((n - 1) as usize)
    } else {
        matching(rows, needle, n - 1)
    }
}

/// A filter picks positions in ascending order, exactly those that match.
pub proof fn matching_is_exact(rows: Seq<Seq<Seq<char>>>, needle: Seq<char>, n: int)
    requires
        0 <= n <= rows.len(),
        rows.len() <= usize::MAX,
    ensures
        forall|i: int, j: int|
            0 <= i < j < matching(rows, needle, n).len() ==> #[trigger] matching(rows, needle, n)[i]
                < #[trigger] matching(rows, needle, n)[j],
        forall|x: usize| #[trigger]
            matching(rows, needle, n).contains(x) <==> x < n && (needle.len() == 0 || any_field(
                rows[x as int],
                needle,
            )),
    decreases n,
{
    if n > 0 {
        matching_is_exact(rows, needle, n - 1);
        let was = matching(rows, needle, n - 1);
        let now = matching(rows, needle, n);
        assert forall|i: int| 0 <= i < was.len() implies #[trigger] was[i] < n - 1 by {
            assert(was.contains(was[i]));
        }
        assert forall|x: usize| #[trigger] now.contains(x) <==> x < n && (needle.len() == 0
            || any_field(rows[x as int], needle)) by {
            if was.contains(x) {
                let k = choose|k: int| 0 <= k < was.len() && was[k] == x;
                assert(now[k] == x);
            }
            if now.len() > was.len() {
                assert(now[was.len() as int] == (n - 1) as usize);
                if now.contains(x) {
                    let k = choose|k: int| 0 <= k < now.len() && now[k] == x;
                    if k < was.len() {
                        assert(was[k] == x);
                    }
                }
            }
        }
    }
}

// ---------- sockets ----------

/// The lower-case names of processes by pid; of several with one pid the last.
pub open spec fn lower_names(procs: Seq<ProcessView>, n: int) -> Map<Pid, Seq<char>>
    decreases n,
{
    if n <= 0 {
        Map::empty()
    } else {
        lower_names(procs, n - 1).insert(
            procs[n - 1].pid,
            text::unicode_lower(procs[n - 1].name),
        )
    }
}

/// The lower-case names of processes by pid.
pub fn lower_names_of(procs: &Vec<Process>) -> (r: HashMap<Pid, String>)
    ensures
        panes::names_view(r@) == lower_names(text::views(procs@), procs@.len() as int),
{
    let ghost all = text::views(procs@);
    let mut m: HashMap<Pid, String> = HashMap::new();
    let mut i: usize = 0;
    assert(panes::names_view(m@) =~= Map::<Pid, Seq<char>>::empty());
    while i < procs.len()
        invariant
            all == text::views(procs@),
            i <= procs@.len(),
            panes::names_view(m@) == lower_names(all, i as int),
        decreases procs@.len() - i,
    {
        assert(all[i as int] == procs@[i as int]@);
        let ghost was = m@;
        let name = lowercase(procs[i].name.as_str());
        let ghost nv = name@;
        let pid: Pid = procs[i].pid;
        m.insert(pid, name);
        assert(panes::names_view(m@) =~= panes::names_view(was).insert(pid, nv));
        i += 1;
    }
    m
}

/// What a socket is searched by: port, pid, process name, address, protocol
/// and state.
pub open spec fn socket_fields(s: SocketView, names: Map<Pid, Seq<char>>) -> Seq<Seq<char>> {
    let owner: Pid = match s.pid {
        Some(p) => p,
        None => (-1) as Pid,
    };
    seq![
        num::dec(s.local_port as int),
        match s.pid {
            Some(p) => num::dec(p as int),
            None => ""@,
        },
        if names.contains_key(owner) {
            names[owner]
        } else {
            ""@
        },
        text::unicode_lower(s.local_addr),
        text::unicode_lower(s.proto),
        text::unicode_lower(s.state),
    ]
}

/// The sockets that match a needle.
pub open spec fn matching_sockets(
    sockets: Seq<SocketView>,
    needle: Seq<char>,
    names: Map<Pid, Seq<char>>,
) -> Seq<usize> {
    matching(
        Seq::new(sockets.len(), |i: int| socket_fields(sockets[i], names)),
        needle,
        sockets.len() as int,
    )
}

fn socket_fields_of(s: &Socket, names: &HashMap<Pid, String>) -> (v: Vec<String>)
    ensures
        text::texts(v@) == socket_fields(s@, panes::names_view(names@)),
{
    let owner: Pid = match s.pid {
        Some(p) => p,
        None => -1,
    };
    let mut v: Vec<String> = Vec::new();
    v.push(dec_u64(s.local_port as u64));
    v.push(
        match s.pid {
            Some(p) => dec_i32(p),
            None => text(""),
        },
    );
    v.push(
        match names.get(&owner) {
            Some(n) => n.clone(),
            None => text(""),
        },
    );
    v.push(lowercase(s.local_addr.as_str()));
    v.push(lowercase(s.proto.as_str()));
    v.push(lowercase(s.state.as_str()));
    assert(text::texts(v@) =~= socket_fields(s@, panes::names_view(names@)));
    v
}

/// Filter sockets for the Ports tab: substring match over port, pid,
/// process name, address, proto and state. Needle and names are lower-case.
pub fn filter_sockets(sockets: &Vec<Socket>, needle: &str, names: &HashMap<Pid, String>) -> (r: Vec<
    usize,
>)
    ensures
        r@ == matching_sockets(text::views(sockets@), needle@, panes::names_view(names@)),
{
    let ghost all = text::views(sockets@);
    let ghost nv = panes::names_view(names@);
    let ghost rows = Seq::new(all.len(), |i: int| socket_fields(all[i], nv));
    let mut out: Vec<usize> = Vec::new();
    let mut i: usize = 0;
    let every = needle.is_empty();
    assert(out@ =~= seq![]);
    while i < sockets.len()
        invariant
            all == text::views(sockets@),
            nv == panes::names_view(names@),
            rows == Seq::new(all.len(), |i: int| socket_fields(all[i], nv)),
            every == (needle@.len() == 0),
            i <= sockets@.len(),
            out@ == matching(rows, needle@, i as int),
        decreases sockets@.len() - i,
    {
        assert(all[i as int] == sockets@[i as int]@);
        if every || any_holds(&socket_fields_of(&sockets[i], names), needle) {
            out.push(i);
        }
        i += 1;
    }
    out
}

// ---------- containers ----------

/// What a container is searched by: name, image, id, runtime and state.
pub open spec fn container_fields(c: ContainerView) -> Seq<Seq<char>> {
    seq![
        text::unicode_lower(c.name),
        text::unicode_lower(c.image),
        text::unicode_lower(c.id),
        text::unicode_lower(c.runtime),
        text::unicode_lower(c.state),
    ]
}

/// The containers that match a needle.
pub open spec fn matching_containers(cs: Seq<ContainerView>, needle: Seq<char>) -> Seq<usize> {
    matching(Seq::new(cs.len(), |i: int| container_fields(cs[i])), needle, cs.len() as int)
}

fn container_fields_of(c: &Container) -> (v: Vec<String>)
    ensures
        text::texts(v@) == container_fields(c@),
{
    let mut v: Vec<String> = Vec::new();
    v.push(lowercase(c.name.as_str()));
    v.push(lowercase(c.image.as_str()));
    v.push(lowercase(c.id.as_str()));
    v.push(lowercase(c.runtime.as_str()));
    v.push(lowercase(c.state.as_str()));
    assert(text::texts(v@) =~= container_fields(c@));
    v
}

/// Filter containers: substring match over name, image, id, runtime, state.
/// The needle is lower-case.
pub fn filter_containers(containers: &Vec<Container>, needle: &str) -> (r: Vec<usize>)
    ensures
        r@ == matching_containers(text::views(containers@), needle@),
{
    let ghost all = text::views(containers@);
    let ghost rows = Seq::new(all.len(), |i: int| container_fields(all[i]));
    let mut out: Vec<usize> = Vec::new();
    let mut i: usize = 0;
    let every = needle.is_empty();
    assert(out@ =~= seq![]);
    while i < containers.len()
        invariant
            all == text::views(containers@),
            rows == Seq::new(all.len(), |i: int| container_fields(all[i])),
            every == (needle@.len() == 0),
            i <= containers@.len(),
            out@ == matching(rows, needle@, i as int),
        decreases containers@.len() - i,
    {
        assert(all[i as int] == containers@[i as int]@);
        if every || any_holds(&container_fields_of(&containers[i]), needle) {
            out.push(i);
        }
        i += 1;
    }
    out
}

// ---------- processes ----------

/// What the process table can be sorted by.
#[derive(Debug, Clone, Copy, PartialEq, Eq, Structural)]
pub enum SortKey {
    Pid,
    Name,
    User,
    Cpu,
    Mem,
    Started,
}

/// What a process is searched by: name, user and pid.
pub open spec fn process_fields(p: ProcessView) -> Seq<Seq<char>> {
    seq![
        text::unicode_lower(p.name),
        text::unicode_lower(render::or(p.user, ""@)),
        num::dec(p.pid as int),
    ]
}

/// The processes that match a needle.
pub open spec fn matching_processes(procs: Seq<ProcessView>, needle: Seq<char>) -> Seq<usize> {
    matching(
        Seq::new(procs.len(), |i: int| process_fields(procs[i])),
        needle,
        procs.len() as int,
    )
}

/// A natural number as a field, high part first.
pub open spec fn size_field(n: u64) -> Seq<i64> {
    seq![(n / 0x1_0000_0000) as i64, (n % 0x1_0000_0000) as i64]
}

/// The field that a process is sorted by. A process without a user comes
/// behind the others, one without a start time is the latest, one without
/// memory the smallest.
pub open spec fn sort_field(p: ProcessView, rank: i64, by: SortKey) -> Seq<i64> {
    match by {
        SortKey::Pid => seq![p.pid as i64],
        SortKey::Name => order::text_field(text::unicode_lower(p.name)),
        SortKey::User => order::text_field(render::or(p.user, "~"@)),
        SortKey::Cpu => seq![rank],
        SortKey::Mem => size_field(
            match p.mem_kb {
                Some(m) => m,
                None => 0,
            },
        ),
        SortKey::Started => seq![
            match p.started {
                Some(t) => t,
                None => i64::MAX,
            },
        ],
    }
}

/// The rank of the `i`th process by cpu; -1 without a reading.
pub open spec fn rank_at(ranks: Seq<i64>, i: int) -> i64 {
    if 0 <= i < ranks.len() {
        ranks[i]
    } else {
        (-1) as i64
    }
}

/// The sort keys of processes.
pub open spec fn process_keys(
    procs: Seq<ProcessView>,
    ranks: Seq<i64>,
    by: SortKey,
) -> Seq<order::Key> {
    Seq::new(procs.len(), |i: int| seq![sort_field(procs[i], rank_at(ranks, i), by)])
}

/// The processes that match a needle, in the order asked for.
pub open spec fn process_view(
    procs: Seq<ProcessView>,
    ranks: Seq<i64>,
    needle: Seq<char>,
    by: SortKey,
    desc: bool,
) -> Seq<usize> {
    order::sorted(matching_processes(procs, needle), process_keys(procs, ranks, by), desc)
}

fn process_fields_of(p: &Process) -> (v: Vec<String>)
    ensures
        text::texts(v@) == process_fields(p@),
{
    let mut v: Vec<String> = Vec::new();
    v.push(lowercase(p.name.as_str()));
    v.push(
        match &p.user {
            Some(u) => lowercase(u.as_str()),
            None => lowercase(""),
        },
    );
    v.push(dec_i32(p.pid));
    assert(text::texts(v@) =~= process_fields(p@));
    v
}

fn filter_processes(procs: &Vec<Process>, needle: &str) -> (r: Vec<usize>)
    ensures
        r@ == matching_processes(text::views(procs@), needle@),
        forall|i: int| 0 <= i < r@.len() ==> #[trigger] r@[i] < procs@.len(),
{
    let ghost all = text::views(procs@);
    let ghost rows = Seq::new(all.len(), |i: int| process_fields(all[i]));
    let mut out: Vec<usize> = Vec::new();
    let mut i: usize = 0;
    let every = needle.is_empty();
    assert(out@ =~= seq![]);
    while i < procs.len()
        invariant
            all == text::views(procs@),
            rows == Seq::new(all.len(), |i: int| process_fields(all[i])),
            every == (needle@.len() == 0),
            i <= procs@.len(),
            out@ == matching(rows, needle@, i as int),
            forall|j: int| 0 <= j < out@.len() ==> #[trigger] out@[j] < i,
        decreases procs@.len() - i,
    {
        assert(all[i as int] == procs@[i as int]@);
        if every || any_holds(&process_fields_of(&procs[i]), needle) {
            out.push(i);
        }
        i += 1;
    }
    out
}

fn sort_field_of(p: &Process, rank: i64, by: SortKey) -> (r: Vec<i64>)
    ensures
        r@ == sort_field(p@, rank, by),
{
    match by {
        SortKey::Pid => field_of_number(p.pid as i64),
        SortKey::Name => field_of_text(lowercase(p.name.as_str()).as_str()),
        SortKey::User => match &p.user {
            Some(u) => field_of_text(u.as_str()),
            None => field_of_text("~"),
        },
        SortKey::Cpu => field_of_number(rank),
        SortKey::Mem => {
            let m: u64 = match p.mem_kb {
                Some(m) => m,
                None => 0,
            };
            let mut v: Vec<i64> = Vec::new();
            v.push((m / 0x1_0000_0000) as i64);
            v.push((m % 0x1_0000_0000) as i64);
            assert(v@ =~= size_field(m));
            v
        },
        SortKey::Started => field_of_number(
            match p.started {
                Some(t) => t,
                None => i64::MAX,
            },
        ),
    }
}

/// Apply search filter + sort. The needle is lower-case; `ranks` order the
/// processes by cpu.
pub fn arrange_processes(
    procs: &Vec<Process>,
    ranks: &Vec<i64>,
    needle: &str,
    by: SortKey,
    desc: bool,
) -> (r: Vec<usize>)
    ensures
        r@ == process_view(text::views(procs@), ranks@, needle@, by, desc),
        forall|i: int| 0 <= i < r@.len() ==> #[trigger] r@[i] < procs@.len(),
{
    broadcast use crate::order::keys_view_push;

    let ghost all = text::views(procs@);
    let ghost want = process_keys(all, ranks@, by);
    let idx = filter_processes(procs, needle);
    let mut keys: Vec<Vec<Vec<i64>>> = Vec::new();
    let mut i: usize = 0;
    assert(order::keys_view(keys@) =~= want.take(0));
    while i < procs.len()
        invariant
            all == text::views(procs@),
            want == process_keys(all, ranks@, by),
            i <= procs@.len(),
            keys@.len() == i,
            order::keys_view(keys@) == want.take(i as int),
        decreases procs@.len() - i,
    {
        assert(all[i as int] == procs@[i as int]@);
        let rank: i64 = if i < ranks.len() {
            ranks[i]
        } else {
            -1
        };
        keys.push(key_of_one(sort_field_of(&procs[i], rank, by)));
        assert(want.take(i + 1) =~= want.take(i as int).push(want[i as int]));
        i += 1;
    }
    assert(want.take(i as int) =~= want);
    sort(&idx, &keys, desc)
}

/// The rows of the process table are exactly the processes that match, each
/// once, in the order of the sort key.
pub proof fn rows_are_sorted_matches(
    procs: Seq<ProcessView>,
    ranks: Seq<i64>,
    needle: Seq<char>,
    by: SortKey,
    desc: bool,
)
    requires
        procs.len() <= usize::MAX,
    ensures
        ({
            let v = process_view(procs, ranks, needle, by, desc);
            let keys = process_keys(procs, ranks, by);
            &&& forall|x: usize| #[trigger]
                v.contains(x) <==> x < procs.len() && (needle.len() == 0 || any_field(
                    process_fields(procs[x as int]),
                    needle,
                ))
            &&& forall|i: int, j: int|
                0 <= i < j < v.len() ==> order::in_order(#[trigger] v[i], #[trigger] v[j], keys, desc)
        }),
{
    let rows = Seq::new(procs.len(), |i: int| process_fields(procs[i]));
    let m = matching_processes(procs, needle);
    matching_is_exact(rows, needle, procs.len() as int);
    order::sorting_is_stable(m, process_keys(procs, ranks, by), desc);
    let v = process_view(procs, ranks, needle, by, desc);
    assert forall|x: usize| #[trigger] v.contains(x) <==> x < procs.len() && (needle.len() == 0
        || any_field(process_fields(procs[x as int]), needle)) by {
        assert(v.contains(x) <==> m.contains(x));
        if x < procs.len() {
            assert(rows[x as int] == process_fields(procs[x as int]));
        }
    }
}

// ---------- locks ----------

/// A file lock.
#[derive(Debug)]
pub struct LockEntry {
    pub id: String,
    pub kind: String,
    pub mode: String,
    pub pid: Option<Pid>,
    pub owner: String,
}

/// What a [`LockEntry`] shows.
#[verifier::ext_equal]
pub struct LockView {
    pub id: Seq<char>,
    pub kind: Seq<char>,
    pub mode: Seq<char>,
    pub pid: Option<Pid>,
    pub owner: Seq<char>,
}

impl View for LockEntry {
    type V = LockView;

    open spec fn view(&self) -> LockView {
        LockView {
            id: self.id@,
            kind: self.kind@,
            mode: self.mode@,
            pid: self.pid,
            owner: self.owner@,
        }
    }
}

/// The lock on a line of `/proc/locks`.
pub open spec fn lock_row(f: Seq<Seq<char>>) -> Option<LockView> {
    if f.len() < 5 {
        None
    } else {
        Some(
            LockView {
                id: text::trim_end(f[0], Class::Is(':')),
                kind: f[1],
                mode: f[3],
                pid: match num::parse_signed(f[4], i32::MIN as int, i32::MAX as int) {
                    Some(p) => Some(p as Pid),
                    None => None,
                },
                owner: if f.len() > 5 {
                    f[5]
                } else {
                    ""@
                },
            },
        )
    }
}

/// The locks on the first `n` lines.
pub open spec fn lock_rows(ls: Seq<Seq<char>>, n: int) -> Seq<LockView>
    decreases n,
{
    if n <= 0 {
        seq![]
    } else {
        match lock_row(text::words(ls[n - 1])) {
            Some(l) => lock_rows(ls, n - 1).push(l),
            None => lock_rows(ls, n - 1),
        }
    }
}

fn lock_row_of(line: &[char]) -> (r: Option<LockEntry>)
    ensures
        (match r {
            Some(l) => Some(l@),
            None => None,
        }) == lock_row(text::words(line@)),
{
    let f = words_of(line);
    let ghost w = text::words(line@);
    assert(w.len() == f@.len());
    if f.len() < 5 {
        return None;
    }
    assert(w[0] == f@[0]@);
    assert(w[1] == f@[1]@);
    assert(w[3] == f@[3]@);
    assert(w[4] == f@[4]@);
    let owner: String = if f.len() > 5 {
        assert(w[5] == f@[5]@);
        string_of(f[5])
    } else {
        text("")
    };
    Some(
        LockEntry {
            id: string_of(cut_end(f[0], Class::Is(':'))),
            kind: string_of(f[1]),
            mode: string_of(f[3]),
            pid: parse_i32(f[4]),
            owner,
        },
    )
}

/// /proc/locks for the Locks tab.
pub fn parse_locks(locks: &str) -> (r: Vec<LockEntry>)
    ensures
        text::views(r@) == lock_rows(text::lines(locks@), text::lines(locks@).len() as int),
{
    broadcast use crate::text::group_views;

    let c = chars_of(locks);
    let ls = lines_of(c.as_slice());
    let ghost all = text::lines(locks@);
    assert(all.len() == ls@.len());
    let mut v: Vec<LockEntry> = Vec::new();
    let mut i: usize = 0;
    while i < ls.len()
        invariant
            text::pieces(ls@) == all,
            all.len() == ls@.len(),
            i <= ls@.len(),
            text::views(v@) == lock_rows(all, i as int),
        decreases ls@.len() - i,
    {
        let line = ls[i];
        assert(line@ == all[i as int]);
        if let Some(l) = lock_row_of(line) {
            v.push(l);
        }
        i += 1;
    }
    v
}

/// A process is shown if its name, its user or its pid holds what is searched
/// for, in lower case.
pub proof fn processes_are_searched(procs: Seq<ProcessView>, needle: Seq<char>, x: usize)
    requires
        procs.len() <= usize::MAX,
    ensures
        matching_processes(procs, needle).contains(x) <==> x < procs.len() && (needle.len() == 0 || ({
            let p = procs[x as int];
            ||| text::contains(text::unicode_lower(p.name), needle)
            ||| text::contains(
                text::unicode_lower(
                    match p.user {
                        Some(u) => u,
                        None => ""@,
                    },
                ),
                needle,
            )
            ||| text::contains(num::dec(p.pid as int), needle)
        })),
{
    let rows = Seq::new(procs.len(), |i: int| process_fields(procs[i]));
    matching_is_exact(rows, needle, procs.len() as int);
    if x < procs.len() {
        let f = process_fields(procs[x as int]);
        assert(rows[x as int] == f);
        assert(f[0] == f[0] && f[1] == f[1] && f[2] == f[2]);
    }
}

/// A socket is shown if its port, its pid, the name of its process, its
/// address, its protocol or its state holds what is searched for.
pub proof fn sockets_are_searched(
    sockets: Seq<SocketView>,
    needle: Seq<char>,
    names: Map<Pid, Seq<char>>,
    x: usize,
)
    requires
        sockets.len() <= usize::MAX,
        needle.len() > 0,
        !names.contains_key((-1) as Pid),
    ensures
        matching_sockets(sockets, needle, names).contains(x) <==> x < sockets.len() && ({
            let s = sockets[x as int];
            ||| text::contains(num::dec(s.local_port as int), needle)
            ||| s.pid is Some && text::contains(num::dec(s.pid->0 as int), needle)
            ||| s.pid is Some && names.contains_key(s.pid->0) && text::contains(
                names[s.pid->0],
                needle,
            )
            ||| text::contains(text::unicode_lower(s.local_addr), needle)
            ||| text::contains(text::unicode_lower(s.proto), needle)
            ||| text::contains(text::unicode_lower(s.state), needle)
        }),
        matching_sockets(sockets, seq![], names).contains(x) <==> x < sockets.len(),
{
    let rows = Seq::new(sockets.len(), |i: int| socket_fields(sockets[i], names));
    matching_is_exact(rows, needle, sockets.len() as int);
    matching_is_exact(rows, seq![], sockets.len() as int);
    reveal_strlit("");
    assert(!text::contains(""@, needle)) by {
        if text::contains(""@, needle) {
            text::holding_is_standing_between(""@, needle);
            let (a, b) = choose|a: Seq<char>, b: Seq<char>| ""@ == #[trigger] (a + needle + b);
            assert((a + needle + b).len() > 0);
        }
    }
    if x < sockets.len() {
        let f = socket_fields(sockets[x as int], names);
        assert(rows[x as int] == f);
        assert(f[0] == f[0] && f[1] == f[1] && f[2] == f[2] && f[3] == f[3] && f[4] == f[4] && f[5]
            == f[5]);
    }
}

/// A container is shown if its name, image, id, runtime or state holds what is
/// searched for.
pub proof fn containers_are_searched(cs: Seq<ContainerView>, needle: Seq<char>, x: usize)
    requires
        cs.len() <= usize::MAX,
    ensures
        matching_containers(cs, needle).contains(x) <==> x < cs.len() && (needle.len() == 0 || ({
            let c = cs[x as int];
            ||| text::contains(text::unicode_lower(c.name), needle)
            ||| text::contains(text::unicode_lower(c.image), needle)
            ||| text::contains(text::unicode_lower(c.id), needle)
            ||| text::contains(text::unicode_lower(c.runtime), needle)
            ||| text::contains(text::unicode_lower(c.state), needle)
        })),
{
    let rows = Seq::new(cs.len(), |i: int| container_fields(cs[i]));
    matching_is_exact(rows, needle, cs.len() as int);
    if x < cs.len() {
        let f = container_fields(cs[x as int]);
        assert(rows[x as int] == f);
        assert(f[0] == f[0] && f[1] == f[1] && f[2] == f[2] && f[3] == f[3] && f[4] == f[4]);
    }
}

/// A process is searched by its own name, in lower case.
pub proof fn names_are_those_of_the_processes(procs: Seq<ProcessView>, n: int, k: int)
    requires
        0 <= k < n <= procs.len(),
        forall|i: int| k < i < n ==> (#[trigger] procs[i]).pid != procs[k].pid,
    ensures
        lower_names(procs, n).contains_key(procs[k].pid),
        lower_names(procs, n)[procs[k].pid] == text::unicode_lower(procs[k].name),
    decreases n,
{
    if k < n - 1 {
        assert(procs[n - 1].pid != procs[k].pid);
        names_are_those_of_the_processes(procs, n - 1, k);
    }
}

/// Whether two numbers stand in the order asked for.
pub open spec fn in_direction(a: int, b: int, desc: bool) -> bool {
    if desc {
        a >= b
    } else {
        a <= b
    }
}

/// The rows follow the column that they are sorted by, up or down: numbers by
/// size, texts by their characters. No memory counts as none, no start time as
/// the latest, no user behind the others.
pub proof fn rows_follow_the_column(
    procs: Seq<ProcessView>,
    ranks: Seq<i64>,
    needle: Seq<char>,
    by: SortKey,
    desc: bool,
    i: int,
    j: int,
)
    requires
        procs.len() <= usize::MAX,
        ranks.len() == procs.len(),
        0 <= i < j < process_view(procs, ranks, needle, by, desc).len(),
    ensures
        ({
            let v = process_view(procs, ranks, needle, by, desc);
            let (a, b) = (procs[v[i] as int], procs[v[j] as int]);
            match by {
                SortKey::Pid => in_direction(a.pid as int, b.pid as int, desc),
                SortKey::Cpu => in_direction(
                    ranks[v[i] as int] as int,
                    ranks[v[j] as int] as int,
                    desc,
                ),
                SortKey::Mem => in_direction(
                    if a.mem_kb is Some {
                        a.mem_kb->0 as int
                    } else {
                        0
                    },
                    if b.mem_kb is Some {
                        b.mem_kb->0 as int
                    } else {
                        0
                    },
                    desc,
                ),
                SortKey::Started => in_direction(
                    if a.started is Some {
                        a.started->0 as int
                    } else {
                        i64::MAX as int
                    },
                    if b.started is Some {
                        b.started->0 as int
                    } else {
                        i64::MAX as int
                    },
                    desc,
                ),
                SortKey::Name => in_direction(
                    order::field_order(
                        order::text_field(text::unicode_lower(a.name)),
                        order::text_field(text::unicode_lower(b.name)),
                        0,
                    ),
                    0,
                    desc,
                ),
                SortKey::User => in_direction(
                    order::field_order(
                        order::text_field(
                            if a.user is Some {
                                a.user->0
                            } else {
                                "~"@
                            },
                        ),
                        order::text_field(
                            if b.user is Some {
                                b.user->0
                            } else {
                                "~"@
                            },
                        ),
                        0,
                    ),
                    0,
                    desc,
                ),
            }
        }),
{
    rows_are_sorted_matches(procs, ranks, needle, by, desc);
    let v = process_view(procs, ranks, needle, by, desc);
    let keys = process_keys(procs, ranks, by);
    assert(v.contains(v[i]) && v.contains(v[j]));
    assert(order::in_order(v[i], v[j], keys, desc));
    let (x, y) = (v[i] as int, v[j] as int);
    let f = sort_field(procs[x], rank_at(ranks, x), by);
    let g = sort_field(procs[y], rank_at(ranks, y), by);
    let none = Seq::<Seq<i64>>::empty();
    assert(keys[x] =~= none + (seq![f] + none));
    assert(keys[y] =~= none + (seq![g] + none));
    order::first_field_decides(none, f, none, g, none);
    assert(in_direction(order::field_order(f, g, 0), 0, desc)) by {
        if order::field_order(f, g, 0) == 0 {
        } else {
            assert(order::key_order(keys[x], keys[y], 0) == order::field_order(f, g, 0));
        }
    }
    if by == SortKey::Mem {
        let m = if procs[x].mem_kb is Some {
            procs[x].mem_kb->0
        } else {
            0
        };
        let n = if procs[y].mem_kb is Some {
            procs[y].mem_kb->0
        } else {
            0
        };
        assert(f == size_field(m) && g == size_field(n));
        sizes_compare(m, n);
    } else if by == SortKey::Pid || by == SortKey::Cpu || by == SortKey::Started {
        let e = Seq::<i64>::empty();
        assert(f.len() == 1 && g.len() == 1);
        assert(f =~= e + (seq![f[0]] + e));
        assert(g =~= e + (seq![g[0]] + e));
        order::first_difference_decides(e, f[0], e, g[0], e);
    }
}

proof fn sizes_compare(m: u64, n: u64)
    ensures
        m < n ==> order::field_order(size_field(m), size_field(n), 0) < 0,
        m > n ==> order::field_order(size_field(m), size_field(n), 0) > 0,
{
    let e = Seq::<i64>::empty();
    let (a, b) = ((m / 0x1_0000_0000) as i64, (n / 0x1_0000_0000) as i64);
    let (c, d) = ((m % 0x1_0000_0000) as i64, (n % 0x1_0000_0000) as i64);
    assert(size_field(m) =~= e + (seq![a] + seq![c]));
    assert(size_field(n) =~= e + (seq![b] + seq![d]));
    order::first_difference_decides(e, a, seq![c], b, seq![d]);
    if a == b {
        assert(size_field(m) =~= seq![a] + (seq![c] + e));
        assert(size_field(n) =~= seq![a] + (seq![d] + e));
        order::first_difference_decides(seq![a], c, e, d, e);
    }
}

/// A lock has its number, its kind, its mode and the pid that holds it in the
/// columns of its line, and its owner in the last; a line with fewer columns is
/// none.
pub proof fn lock_line_is_read(f: Seq<Seq<char>>, id: Seq<char>, pid: Pid)
    requires
        id.len() > 0 && id.last() != ':',
    ensures
        f.len() < 5 ==> lock_row(f) is None,
        f.len() >= 5 && f[0] == id + seq![':'] && f[4] == num::dec(pid as int) ==> (lock_row(
            f,
        ) matches Some(l) && l.id == id && l.kind == f[1] && l.mode == f[3] && l.pid == Some(pid)
            && l.owner == (if f.len() > 5 {
            f[5]
        } else {
            ""@
        })),
{
    num::printed_number_reads_back(pid as int, i32::MIN as int, i32::MAX as int);
    let t = id + seq![':'];
    text::end_out_is_last(t, Class::Is(':'), t.len() as int);
    let e = text::end_out(t, Class::Is(':'), t.len() as int);
    if e == t.len() {
        assert(t[e - 1] == ':');
    }
    if e < id.len() {
        assert(t[id.len() - 1] == id.last());
    }
    assert(t.subrange(0, id.len() as int) =~= id);
}

proof fn lock_rows_prefix(ls: Seq<Seq<char>>, line: Seq<char>, n: int)
    requires
        n <= ls.len(),
    ensures
        lock_rows(ls.push(line), n) == lock_rows(ls, n),
    decreases n,
{
    if n > 0 {
        lock_rows_prefix(ls, line, n - 1);
    }
}

/// Every line adds its lock, in the order of the lines.
pub proof fn lines_tell_the_locks(ls: Seq<Seq<char>>, line: Seq<char>)
    ensures
        lock_rows(ls, 0) == Seq::<LockView>::empty(),
        lock_row(text::words(line)) is Some ==> lock_rows(ls.push(line), ls.len() as int + 1)
            == lock_rows(ls, ls.len() as int).push(lock_row(text::words(line))->0),
        lock_row(text::words(line)) is None ==> lock_rows(ls.push(line), ls.len() as int + 1)
            == lock_rows(ls, ls.len() as int),
{
    lock_rows_prefix(ls, line, ls.len() as int);
}

} // verus!
