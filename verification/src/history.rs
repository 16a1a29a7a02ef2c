//! Sampling history across refreshes: instantaneous CPU percent (delta of
//! cumulative CPU time), sparklines, and crash-loop detection (same process
//! identity reappearing under a new pid).
//!
//! Points in time are nanoseconds on a clock that never goes back.

use std::collections::HashMap;

use vstd::prelude::*;
use vstd::string::*;

use crate::model::{Pid, Process, ProcessView};
use crate::text::{opt_copy, same_opt};
use crate::{model, text};

verus! {

broadcast use vstd::std_specs::hash::group_hash_axioms;

/// How many samples a sparkline shows.
pub const SAMPLES: usize = 8;

/// How long a restart counts as recent: 5 minutes.
pub const RESTART_WINDOW: u64 = 300_000_000_000;

/// How long a vanished identity is remembered: 10 minutes.
pub const PRUNE_AFTER: u64 = 600_000_000_000;

/// How many full cores a rate shows at most.
pub const MAX_CORES: u64 = 4;

// ---------- rates ----------

/// CPU time over wall time, both in milliseconds, and no more than
/// [`MAX_CORES`] cores full.
#[derive(Debug, Clone, Copy, PartialEq, Eq, Structural)]
pub struct Rate {
    pub cpu_ms: u64,
    pub wall_ms: u64,
}

impl Rate {
    /// The eighth of a full core that a rate reaches, 7 at most.
    pub open spec fn eighth(self) -> int {
        if self.wall_ms == 0 {
            0
        } else if (8 * self.cpu_ms) / (self.wall_ms as int) > 7 {
            7
        } else {
            (8 * self.cpu_ms) / (self.wall_ms as int)
        }
    }

    fn level(self) -> (r: u8)
        ensures
            r == self.eighth(),
            r <= 7,
    {
        if self.wall_ms == 0 {
            return 0;
        }
        let q: u128 = (8 * self.cpu_ms as u128) / (self.wall_ms as u128);
        if q > 7 {
            7
        } else {
            q as u8
        }
    }
}

/// The rate of this much CPU time in this much wall time, as far as it is
/// shown.
pub open spec fn capped(cpu_ms: int, wall_ms: int) -> Rate {
    Rate {
        cpu_ms: if cpu_ms > MAX_CORES * wall_ms {
            (MAX_CORES * wall_ms) as u64
        } else {
            cpu_ms as u64
        },
        wall_ms: wall_ms as u64,
    }
}

/// The bar for an eighth.
pub open spec fn bar(eighth: int) -> char {
    if eighth <= 0 {
        '▁'
    } else if eighth == 1 {
        '▂'
    } else if eighth == 2 {
        '▃'
    } else if eighth == 3 {
        '▄'
    } else if eighth == 4 {
        '▅'
    } else if eighth == 5 {
        '▆'
    } else if eighth == 6 {
        '▇'
    } else {
        '█'
    }
}

fn bar_of(eighth: u8) -> (r: char)
    ensures
        r == bar(eighth as int),
{
    if eighth == 0 {
        '▁'
    } else if eighth == 1 {
        '▂'
    } else if eighth == 2 {
        '▃'
    } else if eighth == 3 {
        '▄'
    } else if eighth == 4 {
        '▅'
    } else if eighth == 5 {
        '▆'
    } else if eighth == 6 {
        '▇'
    } else {
        '█'
    }
}

/// The sparkline of some samples.
pub open spec fn spark_text(s: Seq<Rate>) -> Seq<char> {
    Seq::new(s.len(), |i: int| bar(s[i].eighth()))
}

fn spark_of(s: &Vec<Rate>) -> (r: String)
    ensures
        r@ == spark_text(s@),
{
    let mut out = String::new();
    let mut i: usize = 0;
    assert(out@ =~= spark_text(s@).take(0));
    while i < s.len()
        invariant
            i <= s@.len(),
            out@ == spark_text(s@).take(i as int),
        decreases s@.len() - i,
    {
        out.push(bar_of(s[i].level()));
        assert(spark_text(s@).take(i + 1) =~= spark_text(s@).take(i as int).push(
            spark_text(s@)[i as int],
        ));
        i += 1;
    }
    assert(spark_text(s@).take(i as int) =~= spark_text(s@));
    out
}

/// The last samples after one more.
pub open spec fn with_sample(s: Seq<Rate>, v: Rate) -> Seq<Rate> {
    let all = s.push(v);
    if all.len() > SAMPLES {
        all.subrange(all.len() - SAMPLES, all.len() as int)
    } else {
        all
    }
}

fn add_sample(s: &mut Vec<Rate>, v: Rate)
    ensures
        final(s)@ == with_sample(old(s)@, v),
{
    s.push(v);
    let ghost all = s@;
    assert(all.subrange(0, all.len() as int) =~= all);
    while s.len() > SAMPLES
        invariant
            all == old(s)@.push(v),
            s@.len() <= all.len(),
            all.len() >= SAMPLES ==> s@.len() >= SAMPLES,
            all.len() < SAMPLES ==> s@.len() == all.len(),
            s@ == all.subrange(all.len() - s@.len(), all.len() as int),
        decreases s@.len(),
    {
        s.remove(0);
        assert(s@ =~= all.subrange(all.len() - s@.len(), all.len() as int));
    }
}

// ---------- identities ----------

/// What stays the same when a program is started again.
#[derive(Debug)]
pub struct Identity {
    pub name: String,
    pub exe: Option<String>,
    pub user: Option<String>,
}

/// What an [`Identity`] shows.
#[verifier::ext_equal]
pub struct IdentityView {
    pub name: Seq<char>,
    pub exe: Option<Seq<char>>,
    pub user: Option<Seq<char>>,
}

impl View for Identity {
    type V = IdentityView;

    open spec fn view(&self) -> IdentityView {
        IdentityView { name: self.name@, exe: text::opt(self.exe), user: text::opt(self.user) }
    }
}

/// The identity of a process.
pub open spec fn identity_view(p: ProcessView) -> IdentityView {
    IdentityView { name: p.name, exe: p.exe, user: p.user }
}

fn identity(p: &Process) -> (r: Identity)
    ensures
        r@ == identity_view(p@),
{
    Identity { name: p.name.clone(), exe: opt_copy(&p.exe), user: opt_copy(&p.user) }
}

fn same_identity(a: &Identity, b: &Identity) -> (r: bool)
    ensures
        r == (a@ == b@),
{
    a.name.eq(&b.name) && same_opt(&a.exe, &b.exe) && same_opt(&a.user, &b.user)
}

fn has_identity(p: &Process, id: &Identity) -> (r: bool)
    ensures
        r == (identity_view(p@) == id@),
{
    p.name.eq(&id.name) && same_opt(&p.exe, &id.exe) && same_opt(&p.user, &id.user)
}

/// The pids under which an identity runs among the first `n` processes; kernel
/// threads are not followed.
pub open spec fn pids_of(procs: Seq<ProcessView>, id: IdentityView, n: int) -> Seq<Pid>
    decreases n,
{
    if n <= 0 {
        seq![]
    } else if !procs[n - 1].kernel_thread && identity_view(procs[n - 1]) == id {
        pids_of(procs, id, n - 1).push(procs[n - 1].pid)
    } else {
        pids_of(procs, id, n - 1)
    }
}

/// The pids of an identity in a snapshot, and how many of them stand before
/// position `at`.
fn group_of(procs: &[Process], id: &Identity, at: usize) -> (r: (Vec<Pid>, usize))
    requires
        at <= procs@.len(),
    ensures
        r.0@ == pids_of(text::views(procs@), id@, procs@.len() as int),
        r.1 == pids_of(text::views(procs@), id@, at as int).len(),
{
    let ghost all = text::views(procs@);
    let mut pids: Vec<Pid> = Vec::new();
    let mut before: usize = 0;
    let mut i: usize = 0;
    assert(pids@ =~= seq![]);
    while i < procs.len()
        invariant
            all == text::views(procs@),
            i <= procs@.len(),
            at <= procs@.len(),
            pids@ == pids_of(all, id@, i as int),
            before == if i <= at {
                pids_of(all, id@, i as int).len()
            } else {
                pids_of(all, id@, at as int).len()
            },
        decreases procs@.len() - i,
    {
        assert(all[i as int] == procs@[i as int]@);
        if !procs[i].kernel_thread && has_identity(&procs[i], id) {
            pids.push(procs[i].pid);
        }
        i += 1;
        if i <= at {
            before = pids.len();
        }
    }
    (pids, before)
}

/// What is known of the restarts of one identity.
#[derive(Debug)]
struct Restarts {
    identity: Identity,
    /// Where it ran when it was last seen.
    pids: Vec<Pid>,
    total: u32,
    events: Vec<u64>,
    last_seen: u64,
}

/// What is known of the restarts of one identity.
#[verifier::ext_equal]
pub struct RestartsView {
    pub identity: IdentityView,
    /// Where it ran when it was last seen.
    pub pids: Seq<Pid>,
    pub total: u32,
    pub events: Seq<u64>,
    pub last_seen: u64,
}

impl View for Restarts {
    type V = RestartsView;

    closed spec fn view(&self) -> RestartsView {
        RestartsView {
            identity: self.identity@,
            pids: self.pids@,
            total: self.total,
            events: self.events@,
            last_seen: self.last_seen,
        }
    }
}

/// Where an identity stands among `rs` from `i` on, or their number.
pub open spec fn place_of(rs: Seq<RestartsView>, id: IdentityView, i: int) -> int
    decreases rs.len() - i,
{
    if i >= rs.len() {
        rs.len() as int
    } else if rs[i].identity == id {
        i
    } else {
        place_of(rs, id, i + 1)
    }
}

/// Whether some pid of `a` is none of `b`.
pub open spec fn differs(a: Seq<Pid>, b: Seq<Pid>) -> bool {
    exists|i: int| 0 <= i < a.len() && !b.contains(#[trigger] a[i])
}

/// An identity that is seen again, under `pids`: it was restarted if one of
/// the pids it was last seen under is gone and one that it has now is new.
pub open spec fn seen_again(r: RestartsView, pids: Seq<Pid>, now: u64) -> RestartsView {
    let restarted = differs(r.pids, pids) && differs(pids, r.pids);
    RestartsView {
        identity: r.identity,
        pids,
        total: if restarted && r.total < u32::MAX {
            (r.total + 1) as u32
        } else {
            r.total
        },
        events: if restarted {
            r.events.push(now)
        } else {
            r.events
        },
        last_seen: now,
    }
}

/// An identity that is seen for the first time.
pub open spec fn first_seen(id: IdentityView, pids: Seq<Pid>, now: u64) -> RestartsView {
    RestartsView { identity: id, pids, total: 0, events: seq![], last_seen: now }
}

/// What is known of restarts after an identity is seen under `pids`.
pub open spec fn with_sighting(
    rs: Seq<RestartsView>,
    id: IdentityView,
    pids: Seq<Pid>,
    now: u64,
) -> Seq<RestartsView> {
    let i = place_of(rs, id, 0);
    if i < rs.len() {
        rs.update(i, seen_again(rs[i], pids, now))
    } else {
        rs.push(first_seen(id, pids, now))
    }
}

/// What is known of the restarts of an identity.
pub open spec fn entry(rs: Seq<RestartsView>, id: IdentityView) -> Option<RestartsView> {
    let i = place_of(rs, id, 0);
    if i < rs.len() {
        Some(rs[i])
    } else {
        None
    }
}

// ---------- the history ----------

/// What has been sampled so far.
pub struct History {
    /// pid to (cpu ms at the last sample, sampled at)
    cpu_prev: HashMap<Pid, (u64, u64)>,
    /// pid to instantaneous rate (valid for pids in the last update)
    pub cpu_now: HashMap<Pid, Rate>,
    /// pid to the last instantaneous rates as a sparkline
    pub sparks: HashMap<Pid, String>,
    samples: HashMap<Pid, Vec<Rate>>,
    identity_of: HashMap<Pid, Identity>,
    restarts: Vec<Restarts>,
}

/// What a [`History`] shows.
#[verifier::ext_equal]
pub struct HistoryView {
    pub cpu_prev: Map<Pid, (u64, u64)>,
    pub cpu_now: Map<Pid, Rate>,
    pub sparks: Map<Pid, Seq<char>>,
    pub samples: Map<Pid, Seq<Rate>>,
    pub identity_of: Map<Pid, IdentityView>,
    pub restarts: Seq<RestartsView>,
}

impl View for History {
    type V = HistoryView;

    closed spec fn view(&self) -> HistoryView {
        HistoryView {
            cpu_prev: self.cpu_prev@,
            cpu_now: self.cpu_now@,
            sparks: self.sparks@.map_values(|s: String| s@),
            samples: self.samples@.map_values(|s: Vec<Rate>| s@),
            identity_of: self.identity_of@.map_values(|i: Identity| i@),
            restarts: text::views(self.restarts@),
        }
    }
}

impl HistoryView {
    /// Nothing has been sampled.
    pub open spec fn empty() -> HistoryView {
        HistoryView {
            cpu_prev: Map::empty(),
            cpu_now: Map::empty(),
            sparks: Map::empty(),
            samples: Map::empty(),
            identity_of: Map::empty(),
            restarts: seq![],
        }
    }

    /// The rate of a process that used `ms` of CPU time up to `now`, when
    /// there is an earlier sample with no more; a sample less than 50 ms after
    /// it keeps the last rate.
    pub open spec fn rate(self, pid: Pid, ms: u64, now: u64) -> Option<Rate> {
        if self.cpu_prev.contains_key(pid) && ms >= self.cpu_prev[pid].0 {
            let wall = wall_ms(self.cpu_prev[pid].1, now);
            if wall >= 50 {
                Some(capped(ms - self.cpu_prev[pid].0, wall))
            } else if self.cpu_now.contains_key(pid) {
                Some(self.cpu_now[pid])
            } else {
                Some(Rate { cpu_ms: 0, wall_ms: 1 })
            }
        } else {
            None
        }
    }

    /// After a rate was measured.
    pub open spec fn with_rate(self, pid: Pid, rate: Option<Rate>) -> HistoryView {
        match rate {
            Some(r) => {
                let was = if self.samples.contains_key(pid) {
                    self.samples[pid]
                } else {
                    seq![]
                };
                HistoryView {
                    cpu_now: self.cpu_now.insert(pid, r),
                    samples: self.samples.insert(pid, with_sample(was, r)),
                    sparks: self.sparks.insert(pid, spark_text(with_sample(was, r))),
                    ..self
                }
            },
            None => self,
        }
    }

    /// After the CPU time of a process was sampled.
    pub open spec fn with_cpu(self, pid: Pid, cpu_ms: Option<u64>, now: u64) -> HistoryView {
        match cpu_ms {
            Some(ms) => {
                let h = self.with_rate(pid, self.rate(pid, ms, now));
                HistoryView { cpu_prev: h.cpu_prev.insert(pid, (ms, now)), ..h }
            },
            None => self,
        }
    }

    /// After the identities of the first `n` processes of a snapshot were
    /// looked at, each of them once.
    pub open spec fn with_sightings(self, procs: Seq<ProcessView>, now: u64, n: int) -> HistoryView
        decreases n,
    {
        if n <= 0 {
            self
        } else {
            let h = self.with_sightings(procs, now, n - 1);
            let id = identity_view(procs[n - 1]);
            if procs[n - 1].kernel_thread || pids_of(procs, id, n - 1).len() > 0 {
                h
            } else {
                HistoryView {
                    restarts: with_sighting(
                        h.restarts,
                        id,
                        pids_of(procs, id, procs.len() as int),
                        now,
                    ),
                    ..h
                }
            }
        }
    }

    /// After one process of a snapshot; kernel threads are not followed.
    pub open spec fn with_process(self, p: ProcessView, now: u64) -> HistoryView {
        if p.kernel_thread {
            self
        } else {
            HistoryView {
                identity_of: self.identity_of.insert(p.pid, identity_view(p)),
                ..self
            }.with_cpu(p.pid, p.cpu_time_ms, now)
        }
    }

    /// After the first `n` processes of a snapshot.
    pub open spec fn with_processes(self, procs: Seq<ProcessView>, now: u64, n: int) -> HistoryView
        decreases n,
    {
        if n <= 0 {
            self
        } else {
            self.with_processes(procs, now, n - 1).with_process(procs[n - 1], now)
        }
    }

    /// Without what belongs to processes that vanished and to identities not
    /// seen for a while.
    pub open spec fn pruned(self, procs: Seq<ProcessView>, now: u64) -> HistoryView {
        HistoryView {
            cpu_prev: kept(self.cpu_prev, procs),
            cpu_now: kept(self.cpu_now, procs),
            sparks: kept(self.sparks, procs),
            samples: kept(self.samples, procs),
            identity_of: kept(self.identity_of, procs),
            restarts: fresh(self.restarts, now, self.restarts.len() as int),
        }
    }

    /// After one snapshot.
    pub open spec fn updated(self, procs: Seq<ProcessView>, now: u64) -> HistoryView {
        let n = procs.len() as int;
        self.with_sightings(procs, now, n).with_processes(procs, now, n).pruned(procs, now)
    }

    /// The sparkline of a process.
    pub open spec fn spark_of(self, pid: Pid) -> Option<Seq<char>> {
        if self.sparks.contains_key(pid) {
            Some(self.sparks[pid])
        } else {
            None
        }
    }

    /// How often the program of a process was restarted.
    pub open spec fn total_of(self, pid: Pid) -> u32 {
        match self.restarts_of(pid) {
            Some(x) => x.total,
            None => 0,
        }
    }

    /// What is known of the restarts of the program that runs as `pid`.
    pub open spec fn restarts_of(self, pid: Pid) -> Option<RestartsView> {
        if self.identity_of.contains_key(pid) {
            entry(self.restarts, self.identity_of[pid])
        } else {
            None
        }
    }
}

/// The time since `at`, nothing for a time to come.
pub open spec fn time_since(at: u64, now: u64) -> int {
    if now >= at {
        now - at
    } else {
        0
    }
}

/// The whole milliseconds since `at`.
pub open spec fn wall_ms(at: u64, now: u64) -> int {
    time_since(at, now) / 1_000_000
}

/// Whether some process has this pid.
pub open spec fn is_listed(procs: Seq<ProcessView>, pid: Pid) -> bool {
    exists|i: int| 0 <= i < procs.len() && (#[trigger] procs[i]).pid == pid
}

/// The entries for processes that are listed.
pub open spec fn kept<V>(m: Map<Pid, V>, procs: Seq<ProcessView>) -> Map<Pid, V> {
    Map::new(|k: Pid| m.contains_key(k) && is_listed(procs, k), |k: Pid| m[k])
}

/// The recent ones of the first `n` events.
pub open spec fn recent(events: Seq<u64>, now: u64, n: int) -> Seq<u64>
    decreases n,
{
    if n <= 0 {
        seq![]
    } else if time_since(events[n - 1], now) < RESTART_WINDOW {
        recent(events, now, n - 1).push(events[n - 1])
    } else {
        recent(events, now, n - 1)
    }
}

/// Those of the first `n` identities that were seen of late, with their recent
/// restarts.
pub open spec fn fresh(rs: Seq<RestartsView>, now: u64, n: int) -> Seq<RestartsView>
    decreases n,
{
    if n <= 0 {
        seq![]
    } else if time_since(rs[n - 1].last_seen, now) < PRUNE_AFTER {
        fresh(rs, now, n - 1).push(
            RestartsView {
                events: recent(rs[n - 1].events, now, rs[n - 1].events.len() as int),
                ..rs[n - 1]
            },
        )
    } else {
        fresh(rs, now, n - 1)
    }
}

/// See the spec function `time_since`.
pub fn time_passed(at: u64, now: u64) -> (r: u64)
    ensures
        r == time_since(at, now),
{
    if now >= at {
        now - at
    } else {
        0
    }
}

fn keep<V>(m: &mut HashMap<Pid, V>, procs: &[Process])
    ensures
        final(m)@ == kept(old(m)@, text::views(procs@)),
{
    let ghost was = m@;
    let ghost all = text::views(procs@);
    let mut out: HashMap<Pid, V> = HashMap::new();
    let mut i: usize = 0;
    while i < procs.len()
        invariant
            all == text::views(procs@),
            i <= procs@.len(),
            forall|k: Pid| #[trigger]
                out@.contains_key(k) <==> was.contains_key(k) && is_listed(all.take(i as int), k),
            forall|k: Pid| #[trigger]
                m@.contains_key(k) <==> was.contains_key(k) && !is_listed(all.take(i as int), k),
            forall|k: Pid| #[trigger] out@.contains_key(k) ==> out@[k] == was[k],
            forall|k: Pid| #[trigger] m@.contains_key(k) ==> m@[k] == was[k],
        decreases procs@.len() - i,
    {
        let pid: Pid = procs[i].pid;
        proof {
            assert(all[i as int] == procs@[i as int]@);
            let a = all.take(i as int);
            let b = all.take(i + 1);
            assert forall|k: Pid| is_listed(b, k) <==> is_listed(a, k) || k == pid by {
                if is_listed(a, k) {
                    let j = choose|j: int| 0 <= j < a.len() && (#[trigger] a[j]).pid == k;
                    assert(b[j].pid == k);
                }
                if k == pid {
                    assert(b[i as int].pid == k);
                }
                if is_listed(b, k) {
                    let j = choose|j: int| 0 <= j < b.len() && (#[trigger] b[j]).pid == k;
                    if j < i {
                        assert(a[j].pid == k);
                    }
                }
            }
        }
        match m.remove(&pid) {
            Some(v) => {
                out.insert(pid, v);
            },
            None => {},
        }
        i += 1;
    }
    assert(all.take(i as int) =~= all);
    assert(out@ =~= kept(was, all));
    *m = out;
}

fn recent_of(events: &Vec<u64>, now: u64) -> (r: Vec<u64>)
    ensures
        r@ == recent(events@, now, events@.len() as int),
{
    let mut out: Vec<u64> = Vec::new();
    let mut i: usize = 0;
    assert(out@ =~= seq![]);
    while i < events.len()
        invariant
            i <= events@.len(),
            out@ == recent(events@, now, i as int),
        decreases events@.len() - i,
    {
        if time_passed(events[i], now) < RESTART_WINDOW {
            out.push(events[i]);
        }
        i += 1;
    }
    out
}

fn copy_pids(v: &Vec<Pid>) -> (r: Vec<Pid>)
    ensures
        r@ == v@,
{
    let mut out: Vec<Pid> = Vec::new();
    let mut i: usize = 0;
    while i < v.len()
        invariant
            i <= v@.len(),
            out@ == v@.take(i as int),
        decreases v@.len() - i,
    {
        out.push(v[i]);
        assert(v@.take(i + 1) =~= v@.take(i as int).push(v@[i as int]));
        i += 1;
    }
    assert(v@.take(i as int) =~= v@);
    out
}

fn has_pid(v: &Vec<Pid>, pid: Pid) -> (r: bool)
    ensures
        r == v@.contains(pid),
{
    let mut i: usize = 0;
    while i < v.len()
        invariant
            i <= v@.len(),
            forall|j: int| 0 <= j < i ==> v@[j] != pid,
        decreases v@.len() - i,
    {
        if v[i] == pid {
            return true;
        }
        i += 1;
    }
    false
}

/// See the spec function `differs`.
fn is_different(a: &Vec<Pid>, b: &Vec<Pid>) -> (r: bool)
    ensures
        r == differs(a@, b@),
{
    let mut i: usize = 0;
    while i < a.len()
        invariant
            i <= a@.len(),
            forall|j: int| 0 <= j < i ==> b@.contains(#[trigger] a@[j]),
        decreases a@.len() - i,
    {
        if !has_pid(b, a[i]) {
            assert(!b@.contains(a@[i as int]));
            return true;
        }
        i += 1;
    }
    false
}

fn fresh_of(rs: Vec<Restarts>, now: u64) -> (r: Vec<Restarts>)
    ensures
        text::views(r@) == fresh(text::views(rs@), now, rs@.len() as int),
{
    broadcast use crate::text::group_views;

    let ghost all = text::views(rs@);
    let mut out: Vec<Restarts> = Vec::new();
    let mut i: usize = 0;
    while i < rs.len()
        invariant
            all == text::views(rs@),
            i <= rs@.len(),
            text::views(out@) == fresh(all, now, i as int),
        decreases rs@.len() - i,
    {
        let r = &rs[i];
        assert(all[i as int] == r@);
        if time_passed(r.last_seen, now) < PRUNE_AFTER {
            out.push(
                Restarts {
                    identity: Identity {
                        name: r.identity.name.clone(),
                        exe: opt_copy(&r.identity.exe),
                        user: opt_copy(&r.identity.user),
                    },
                    pids: copy_pids(&r.pids),
                    total: r.total,
                    events: recent_of(&r.events, now),
                    last_seen: r.last_seen,
                },
            );
        }
        i += 1;
    }
    out
}

/// A CPU reading for display.
#[derive(Debug, Clone, Copy, PartialEq, Eq, Structural)]
pub enum Reading {
    /// Measured between the last two samples.
    Now(Rate),
    /// The lifetime average, as the bit pattern of a double.
    Average(u64),
}

impl History {
    /// An empty history.
    pub fn new() -> (r: History)
        ensures
            r@ == HistoryView::empty(),
    {
        let r = History {
            cpu_prev: HashMap::new(),
            cpu_now: HashMap::new(),
            sparks: HashMap::new(),
            samples: HashMap::new(),
            identity_of: HashMap::new(),
            restarts: Vec::new(),
        };
        assert(r@ =~= HistoryView::empty());
        r
    }

    fn push_sample(&mut self, pid: Pid, v: Rate)
        ensures
            final(self)@ == old(self)@.with_rate(pid, Some(v)),
    {
        let ghost was = self@;
        self.cpu_now.insert(pid, v);
        let mut s: Vec<Rate> = match self.samples.remove(&pid) {
            Some(s) => s,
            None => Vec::new(),
        };
        assert(s@ =~= if was.samples.contains_key(pid) {
            was.samples[pid]
        } else {
            seq![]
        });
        add_sample(&mut s, v);
        self.sparks.insert(pid, spark_of(&s));
        self.samples.insert(pid, s);
        assert(self@ =~= was.with_rate(pid, Some(v)));
    }

    fn note_cpu(&mut self, pid: Pid, ms: u64, now: u64)
        ensures
            final(self)@ == old(self)@.with_cpu(pid, Some(ms), now),
    {
        let ghost was = self@;
        let rate: Option<Rate> = match self.cpu_prev.get(&pid) {
            Some(prev) => if ms >= prev.0 {
                let wall: u64 = time_passed(prev.1, now) / 1_000_000;
                if wall >= 50 {
                    let most: u64 = MAX_CORES * wall;
                    let used: u64 = ms - prev.0;
                    Some(
                        Rate {
                            cpu_ms: if used > most {
                                most
                            } else {
                                used
                            },
                            wall_ms: wall,
                        },
                    )
                } else {
                    // sample too close to the previous one: keep the last
                    match self.cpu_now.get(&pid) {
                        Some(r) => Some(*r),
                        None => Some(Rate { cpu_ms: 0, wall_ms: 1 }),
                    }
                }
            } else {
                None
            },
            None => None,
        };
        assert(rate == was.rate(pid, ms, now));
        if let Some(r) = rate {
            self.push_sample(pid, r);
        }
        let ghost mid = self@;
        self.cpu_prev.insert(pid, (ms, now));
        assert(self@ =~= (HistoryView { cpu_prev: mid.cpu_prev.insert(pid, (ms, now)), ..mid }));
    }

    fn place(&self, id: &Identity) -> (r: usize)
        ensures
            r == place_of(self@.restarts, id@, 0),
            r <= self.restarts@.len(),
            self@.restarts.len() == self.restarts@.len(),
    {
        let ghost rs = self@.restarts;
        let mut i: usize = 0;
        while i < self.restarts.len()
            invariant
                rs == text::views(self.restarts@),
                i <= self.restarts@.len(),
                place_of(rs, id@, 0) == place_of(rs, id@, i as int),
            decreases self.restarts@.len() - i,
        {
            assert(rs[i as int] == self.restarts@[i as int]@);
            if same_identity(&self.restarts[i].identity, id) {
                return i;
            }
            i += 1;
        }
        i
    }

    fn note_sighting(&mut self, id: Identity, pids: Vec<Pid>, now: u64)
        ensures
            final(self)@ == (HistoryView {
                restarts: with_sighting(old(self)@.restarts, id@, pids@, now),
                ..old(self)@
            }),
    {
        broadcast use crate::text::group_views;

        let ghost was = self@;
        let ghost under = pids@;
        let i = self.place(&id);
        if i < self.restarts.len() {
            let ghost rv = self.restarts@[i as int]@;
            assert(was.restarts[i as int] == rv);
            let last = &self.restarts[i].pids;
            let restarted = is_different(last, &pids) && is_different(&pids, last);
            let old_total: u32 = self.restarts[i].total;
            let total: u32 = if restarted && old_total < u32::MAX {
                old_total + 1
            } else {
                old_total
            };
            let mut r = self.restarts.remove(i);
            assert(r@ == rv);
            if restarted {
                r.events.push(now);
            }
            r.pids = pids;
            r.total = total;
            r.last_seen = now;
            assert(r@ == seen_again(rv, under, now));
            self.restarts.insert(i, r);
            assert(text::views(self.restarts@) =~= was.restarts.update(
                i as int,
                seen_again(rv, under, now),
            ));
        } else {
            self.restarts.push(
                Restarts { identity: id, pids, total: 0, events: Vec::new(), last_seen: now },
            );
            assert(text::views(self.restarts@) =~= with_sighting(was.restarts, id@, under, now));
        }
        assert(self@ =~= (HistoryView {
            restarts: with_sighting(was.restarts, id@, under, now),
            ..was
        }));
    }

    fn note_sightings(&mut self, procs: &[Process], now: u64)
        ensures
            final(self)@ == old(self)@.with_sightings(
                text::views(procs@),
                now,
                procs@.len() as int,
            ),
    {
        let ghost was = self@;
        let ghost all = text::views(procs@);
        let mut i: usize = 0;
        while i < procs.len()
            invariant
                all == text::views(procs@),
                i <= procs@.len(),
                self@ == was.with_sightings(all, now, i as int),
                self@.identity_of == was.identity_of,
            decreases procs@.len() - i,
        {
            assert(all[i as int] == procs@[i as int]@);
            if !procs[i].kernel_thread {
                let id = identity(&procs[i]);
                let (pids, before) = group_of(procs, &id, i);
                if before == 0 {
                    self.note_sighting(id, pids, now);
                }
            }
            i += 1;
        }
    }

    fn note_process(&mut self, p: &Process, now: u64)
        ensures
            final(self)@ == old(self)@.with_process(p@, now),
    {
        if p.kernel_thread {
            return;
        }
        let ghost was = self@;
        self.identity_of.insert(p.pid, identity(p));
        assert(self@ =~= (HistoryView {
            identity_of: was.identity_of.insert(p.pid, identity_view(p@)),
            ..was
        }));
        if let Some(ms) = p.cpu_time_ms {
            self.note_cpu(p.pid, ms, now);
        }
    }

    /// Feed one refresh snapshot. Call before rebuilding views so tables
    /// can read `cpu_now` / `sparks`.
    pub fn update(&mut self, procs: &[Process], now: u64)
        ensures
            final(self)@ == old(self)@.updated(text::views(procs@), now),
    {
        let ghost all = text::views(procs@);
        self.note_sightings(procs, now);
        let ghost was = self@;
        let mut i: usize = 0;
        while i < procs.len()
            invariant
                all == text::views(procs@),
                i <= procs@.len(),
                self@ == was.with_processes(all, now, i as int),
            decreases procs@.len() - i,
        {
            assert(all[i as int] == procs@[i as int]@);
            self.note_process(&procs[i], now);
            i += 1;
        }
        let ghost full = self@;
        let mut restarts: Vec<Restarts> = Vec::new();
        std::mem::swap(&mut restarts, &mut self.restarts);
        self.restarts = fresh_of(restarts, now);
        keep(&mut self.cpu_prev, procs);
        keep(&mut self.cpu_now, procs);
        keep(&mut self.sparks, procs);
        keep(&mut self.samples, procs);
        keep(&mut self.identity_of, procs);
        assert(self@ =~= full.pruned(all, now));
    }

    fn restarts_for(&self, pid: Pid) -> (r: Option<usize>)
        ensures
            match r {
                Some(i) => i < self.restarts@.len() && self@.restarts_of(pid) == Some(
                    self.restarts@[i as int]@,
                ),
                None => self@.restarts_of(pid) is None,
            },
    {
        match self.identity_of.get(&pid) {
            Some(id) => {
                let i = self.place(id);
                if i < self.restarts.len() {
                    assert(self@.restarts[i as int] == self.restarts@[i as int]@);
                    Some(i)
                } else {
                    None
                }
            },
            None => None,
        }
    }

    /// Restarts of the program that runs as `pid` within the tracking window
    /// (5 min), when there are any.
    pub fn recent_restarts(&self, pid: Pid) -> (r: Option<u32>)
        ensures
            r == match self@.restarts_of(pid) {
                Some(x) => if x.events.len() > 0 {
                    Some(x.events.len() as u32)
                } else {
                    None
                },
                None => None,
            },
    {
        match self.restarts_for(pid) {
            Some(i) => {
                let n: usize = self.restarts[i].events.len();
                if n > 0 {
                    Some(#[verifier::truncate] (n as u32))
                } else {
                    None
                }
            },
            None => None,
        }
    }

    /// Total restarts seen so far of the program that runs as `pid`.
    pub fn total_restarts(&self, pid: Pid) -> (r: u32)
        ensures
            r == self@.total_of(pid),
    {
        match self.restarts_for(pid) {
            Some(i) => self.restarts[i].total,
            None => 0,
        }
    }

    /// Instantaneous percent with lifetime-average fallback (for display
    /// and sorting).
    pub fn display_cpu(&self, p: &Process) -> (r: Option<Reading>)
        ensures
            r == if self@.cpu_now.contains_key(p.pid) {
                Some(Reading::Now(self@.cpu_now[p.pid]))
            } else {
                match p.cpu {
                    Some(bits) => Some(Reading::Average(bits)),
                    None => None,
                }
            },
    {
        match self.cpu_now.get(&p.pid) {
            Some(r) => Some(Reading::Now(*r)),
            None => match p.cpu {
                Some(bits) => Some(Reading::Average(bits)),
                None => None,
            },
        }
    }

    /// Sparkline for the last samples; None when there aren't any yet.
    pub fn spark(&self, pid: Pid) -> (r: Option<&str>)
        ensures
            (match r {
                Some(s) => Some(s@),
                None => None,
            }) == self@.spark_of(pid),
    {
        match self.sparks.get(&pid) {
            Some(s) => Some(s.as_str()),
            None => None,
        }
    }

    /// How many processes are followed.
    pub fn followed(&self) -> (r: usize)
        ensures
            r == self@.identity_of.len(),
    {
        proof {
            let m = self.identity_of@;
            assert(m.map_values(|i: Identity| i@).dom() =~= m.dom());
        }
        self.identity_of.len()
    }
}

// ---------- laws ----------

/// After a snapshot nothing is remembered by pid of processes that are not in
/// it.
pub proof fn vanished_processes_are_forgotten(
    h: HistoryView,
    procs: Seq<ProcessView>,
    now: u64,
    pid: Pid,
)
    requires
        !is_listed(procs, pid),
    ensures
        ({
            let u = h.updated(procs, now);
            &&& !u.cpu_prev.contains_key(pid)
            &&& !u.cpu_now.contains_key(pid)
            &&& !u.sparks.contains_key(pid)
            &&& !u.samples.contains_key(pid)
            &&& !u.identity_of.contains_key(pid)
            &&& u.restarts_of(pid) is None
        }),
{
}

/// A sparkline has as many bars as there are samples, never more than 8.
pub proof fn sparkline_is_bounded(s: Seq<Rate>, v: Rate)
    ensures
        1 <= with_sample(s, v).len() <= SAMPLES,
        with_sample(s, v).last() == v,
        spark_text(with_sample(s, v)).len() == with_sample(s, v).len(),
{
}

/// Whether no two entries have one identity.
pub open spec fn distinct_identities(rs: Seq<RestartsView>) -> bool {
    forall|i: int, j: int|
        0 <= i < j < rs.len() ==> (#[trigger] rs[i]).identity != (#[trigger] rs[j]).identity
}

proof fn place_of_is_first(rs: Seq<RestartsView>, id: IdentityView, i: int)
    requires
        0 <= i <= rs.len(),
    ensures
        i <= place_of(rs, id, i) <= rs.len(),
        place_of(rs, id, i) < rs.len() ==> rs[place_of(rs, id, i)].identity == id,
        forall|j: int| i <= j < place_of(rs, id, i) ==> (#[trigger] rs[j]).identity != id,
    decreases rs.len() - i,
{
    if i < rs.len() && rs[i].identity != id {
        place_of_is_first(rs, id, i + 1);
    }
}

proof fn sightings_keep_identities_distinct(
    h: HistoryView,
    procs: Seq<ProcessView>,
    now: u64,
    n: int,
)
    requires
        distinct_identities(h.restarts),
    ensures
        distinct_identities(h.with_sightings(procs, now, n).restarts),
    decreases n,
{
    if n > 0 {
        sightings_keep_identities_distinct(h, procs, now, n - 1);
        let before = h.with_sightings(procs, now, n - 1);
        place_of_is_first(before.restarts, identity_view(procs[n - 1]), 0);
    }
}

proof fn processes_keep_restarts(h: HistoryView, procs: Seq<ProcessView>, now: u64, n: int)
    ensures
        h.with_processes(procs, now, n).restarts == h.restarts,
    decreases n,
{
    if n > 0 {
        processes_keep_restarts(h, procs, now, n - 1);
    }
}

proof fn fresh_comes_from(rs: Seq<RestartsView>, now: u64, n: int)
    requires
        distinct_identities(rs),
        0 <= n <= rs.len(),
    ensures
        distinct_identities(fresh(rs, now, n)),
        forall|i: int|
            0 <= i < fresh(rs, now, n).len() ==> exists|j: int|
                0 <= j < n && (#[trigger] rs[j]).identity == (#[trigger] fresh(rs, now, n)[i]).identity,
    decreases n,
{
    if n > 0 {
        fresh_comes_from(rs, now, n - 1);
        let a = fresh(rs, now, n - 1);
        let b = fresh(rs, now, n);
        assert forall|i: int| 0 <= i < b.len() implies exists|j: int|
            0 <= j < n && (#[trigger] rs[j]).identity == (#[trigger] b[i]).identity by {
            if i < a.len() {
                assert(b[i] == a[i]);
                let j = choose|j: int|
                    0 <= j < n - 1 && (#[trigger] rs[j]).identity == a[i].identity;
                assert(rs[j].identity == b[i].identity);
            } else {
                assert(rs[n - 1].identity == b[i].identity);
            }
        }
        assert forall|i: int, j: int| 0 <= i < j < b.len() implies (#[trigger] b[i]).identity != (
        #[trigger] b[j]).identity by {
            assert(b[i] == a[i]);
            if j < a.len() {
                assert(b[j] == a[j]);
            } else {
                let k = choose|k: int|
                    0 <= k < n - 1 && (#[trigger] rs[k]).identity == a[i].identity;
                assert(rs[k].identity != rs[n - 1].identity);
            }
        }
    }
}

/// A snapshot leaves each identity one entry.
pub proof fn updates_keep_identities_distinct(h: HistoryView, procs: Seq<ProcessView>, now: u64)
    requires
        distinct_identities(h.restarts),
    ensures
        distinct_identities(h.updated(procs, now).restarts),
{
    let n = procs.len() as int;
    sightings_keep_identities_distinct(h, procs, now, n);
    let seen = h.with_sightings(procs, now, n);
    processes_keep_restarts(seen, procs, now, n);
    fresh_comes_from(seen.restarts, now, seen.restarts.len() as int);
}

proof fn place_in_longer(rs: Seq<RestartsView>, x: RestartsView, id: IdentityView, i: int)
    requires
        0 <= i <= rs.len(),
    ensures
        place_of(rs, id, i) < rs.len() ==> place_of(rs.push(x), id, i) == place_of(rs, id, i),
        place_of(rs, id, i) == rs.len() ==> place_of(rs.push(x), id, i) == if x.identity == id {
            rs.len()
        } else {
            rs.len() + 1
        },
    decreases rs.len() - i,
{
    place_of_is_first(rs, id, i);
    if i < rs.len() {
        assert(rs.push(x)[i] == rs[i]);
        if rs[i].identity != id {
            place_in_longer(rs, x, id, i + 1);
        }
    } else {
        assert(rs.push(x)[i] == x);
        assert(place_of(rs.push(x), id, i + 1) == rs.len() + 1);
    }
}

proof fn place_after_update(
    rs: Seq<RestartsView>,
    k: int,
    x: RestartsView,
    id: IdentityView,
    i: int,
)
    requires
        0 <= i <= rs.len(),
        0 <= k < rs.len(),
        x.identity == rs[k].identity,
    ensures
        place_of(rs.update(k, x), id, i) == place_of(rs, id, i),
    decreases rs.len() - i,
{
    if i < rs.len() {
        assert(rs.update(k, x)[i].identity == rs[i].identity);
        if rs[i].identity != id {
            place_after_update(rs, k, x, id, i + 1);
        }
    }
}

proof fn sighting_sets_one_entry(
    rs: Seq<RestartsView>,
    id: IdentityView,
    pids: Seq<Pid>,
    now: u64,
    other: IdentityView,
)
    ensures
        entry(with_sighting(rs, id, pids, now), other) == if other == id {
            Some(
                match entry(rs, id) {
                    Some(r) => seen_again(r, pids, now),
                    None => first_seen(id, pids, now),
                },
            )
        } else {
            entry(rs, other)
        },
{
    let k = place_of(rs, id, 0);
    place_of_is_first(rs, id, 0);
    place_of_is_first(rs, other, 0);
    if k < rs.len() {
        let x = seen_again(rs[k], pids, now);
        place_after_update(rs, k, x, other, 0);
    } else {
        place_in_longer(rs, first_seen(id, pids, now), other, 0);
    }
}

/// The entry of an identity after a snapshot in which it runs under `pids`.
pub open spec fn seen_in(h: HistoryView, id: IdentityView, pids: Seq<Pid>, now: u64) -> RestartsView {
    match entry(h.restarts, id) {
        Some(r) => seen_again(r, pids, now),
        None => first_seen(id, pids, now),
    }
}

proof fn sightings_set_entries(
    h: HistoryView,
    procs: Seq<ProcessView>,
    now: u64,
    n: int,
    id: IdentityView,
)
    requires
        0 <= n <= procs.len(),
    ensures
        entry(h.with_sightings(procs, now, n).restarts, id) == if pids_of(procs, id, n).len() > 0 {
            Some(seen_in(h, id, pids_of(procs, id, procs.len() as int), now))
        } else {
            entry(h.restarts, id)
        },
    decreases n,
{
    if n > 0 {
        sightings_set_entries(h, procs, now, n - 1, id);
        let before = h.with_sightings(procs, now, n - 1);
        let this = identity_view(procs[n - 1]);
        if !procs[n - 1].kernel_thread && pids_of(procs, this, n - 1).len() == 0 {
            sighting_sets_one_entry(
                before.restarts,
                this,
                pids_of(procs, this, procs.len() as int),
                now,
                id,
            );
        }
    }
}

proof fn fresh_keeps_entry(rs: Seq<RestartsView>, now: u64, n: int, k: int)
    requires
        0 <= k < n <= rs.len(),
        distinct_identities(rs),
        time_since(rs[k].last_seen, now) < PRUNE_AFTER,
    ensures
        entry(fresh(rs, now, n), rs[k].identity) == Some(
            RestartsView {
                events: recent(rs[k].events, now, rs[k].events.len() as int),
                ..rs[k]
            },
        ),
    decreases n,
{
    let id = rs[k].identity;
    let a = fresh(rs, now, n - 1);
    place_of_is_first(a, id, 0);
    if k < n - 1 {
        fresh_keeps_entry(rs, now, n - 1, k);
        if time_since(rs[n - 1].last_seen, now) < PRUNE_AFTER {
            let x = fresh(rs, now, n).last();
            place_in_longer(a, x, id, 0);
        }
    } else {
        fresh_comes_from(rs, now, n - 1);
        let p = place_of(a, id, 0);
        if p < a.len() {
            let j = choose|j: int| 0 <= j < n - 1 && (#[trigger] rs[j]).identity == a[p].identity;
            assert(rs[j].identity != rs[k].identity);
        }
        place_in_longer(a, fresh(rs, now, n).last(), id, 0);
    }
}

/// A snapshot counts one restart of a program that runs in it exactly if the
/// program was seen before, one of the pids that it ran under when it was last
/// seen is gone, and one of its pids is new. A full count stays full.
pub proof fn restarts_count_replaced_pids(
    h: HistoryView,
    procs: Seq<ProcessView>,
    now: u64,
    id: IdentityView,
)
    requires
        distinct_identities(h.restarts),
        pids_of(procs, id, procs.len() as int).len() > 0,
    ensures
        ({
            let pids = pids_of(procs, id, procs.len() as int);
            &&& entry(h.updated(procs, now).restarts, id) matches Some(r)
            &&& r.pids == pids
            &&& r.last_seen == now
            &&& r.total == match entry(h.restarts, id) {
                Some(was) => if (exists|i: int|
                    0 <= i < was.pids.len() && !pids.contains(#[trigger] was.pids[i])) && (exists|
                    i: int,
                |
                    0 <= i < pids.len() && !was.pids.contains(#[trigger] pids[i])) && was.total
                    < u32::MAX {
                    was.total + 1
                } else {
                    was.total as int
                },
                None => 0,
            }
        }),
{
    let n = procs.len() as int;
    let seen = h.with_sightings(procs, now, n);
    sightings_set_entries(h, procs, now, n, id);
    sightings_keep_identities_distinct(h, procs, now, n);
    processes_keep_restarts(seen, procs, now, n);
    let k = place_of(seen.restarts, id, 0);
    place_of_is_first(seen.restarts, id, 0);
    place_of_is_first(h.restarts, id, 0);
    fresh_keeps_entry(seen.restarts, now, seen.restarts.len() as int, k);
}

/// Processes that live on are no restarts, however many of them run the same
/// program: it keeps its count from one snapshot to the next where all of them
/// live on, and where no new one has come.
pub proof fn live_processes_are_no_restart(
    h: HistoryView,
    procs: Seq<ProcessView>,
    next: Seq<ProcessView>,
    now: u64,
    later: u64,
    id: IdentityView,
)
    requires
        distinct_identities(h.restarts),
        pids_of(procs, id, procs.len() as int).len() > 0,
        pids_of(next, id, next.len() as int).len() > 0,
        ({
            let a = pids_of(procs, id, procs.len() as int);
            let b = pids_of(next, id, next.len() as int);
            !differs(a, b) || !differs(b, a)
        }),
    ensures
        ({
            let a = h.updated(procs, now);
            let b = a.updated(next, later);
            &&& entry(a.restarts, id) is Some
            &&& entry(b.restarts, id) is Some
            &&& entry(b.restarts, id)->0.total == entry(a.restarts, id)->0.total
        }),
{
    let a = h.updated(procs, now);
    updates_keep_identities_distinct(h, procs, now);
    restarts_count_replaced_pids(h, procs, now, id);
    restarts_count_replaced_pids(a, next, later, id);
}

// ---------- every state ----------

/// The history after these snapshots, each with its time.
pub open spec fn after(snapshots: Seq<(Seq<ProcessView>, u64)>) -> HistoryView
    decreases snapshots.len(),
{
    if snapshots.len() == 0 {
        HistoryView::empty()
    } else {
        after(snapshots.drop_last()).updated(snapshots.last().0, snapshots.last().1)
    }
}

/// Whether a character is one of the eight bars.
pub open spec fn is_bar(c: char) -> bool {
    exists|e: int| 0 <= e < 8 && c == #[trigger] bar(e)
}

/// Whether every process with a rate has a sparkline of its last samples, one
/// to eight of them, and no rate is higher than what is shown.
pub open spec fn sampled(h: HistoryView) -> bool {
    &&& forall|k: Pid|
        h.cpu_now.contains_key(k) ==> #[trigger] h.samples.contains_key(k)
            && h.cpu_now[k].wall_ms > 0 && h.cpu_now[k].cpu_ms <= MAX_CORES * h.cpu_now[k].wall_ms
    &&& forall|k: Pid| #[trigger]
        h.samples.contains_key(k) ==> h.cpu_now.contains_key(k) && h.sparks.contains_key(k)
            && h.sparks[k] == spark_text(h.samples[k]) && 1 <= h.samples[k].len() <= SAMPLES
    &&& forall|k: Pid| #[trigger] h.sparks.contains_key(k) ==> h.samples.contains_key(k)
}

proof fn rates_are_capped(h: HistoryView, pid: Pid, ms: u64, now: u64)
    requires
        sampled(h),
        h.rate(pid, ms, now) is Some,
    ensures
        h.rate(pid, ms, now)->0.wall_ms > 0,
        h.rate(pid, ms, now)->0.cpu_ms <= MAX_CORES * h.rate(pid, ms, now)->0.wall_ms,
{
    let wall = wall_ms(h.cpu_prev[pid].1, now);
    if wall < 50 && h.cpu_now.contains_key(pid) {
        assert(h.samples.contains_key(pid));
    }
}

proof fn rate_keeps_sampled(h: HistoryView, pid: Pid, r: Rate)
    requires
        sampled(h),
        r.wall_ms > 0,
        r.cpu_ms <= MAX_CORES * r.wall_ms,
    ensures
        sampled(h.with_rate(pid, Some(r))),
{
    let u = h.with_rate(pid, Some(r));
    let was = if h.samples.contains_key(pid) {
        h.samples[pid]
    } else {
        seq![]
    };
    sparkline_is_bounded(was, r);
    assert forall|k: Pid| u.cpu_now.contains_key(k) implies #[trigger] u.samples.contains_key(k)
        && u.cpu_now[k].wall_ms > 0 && u.cpu_now[k].cpu_ms <= MAX_CORES * u.cpu_now[k].wall_ms by {
        if k != pid {
            assert(h.samples.contains_key(k));
        }
    }
    assert forall|k: Pid| #[trigger] u.samples.contains_key(k) implies u.cpu_now.contains_key(k)
        && u.sparks.contains_key(k) && u.sparks[k] == spark_text(u.samples[k]) && 1
        <= u.samples[k].len() <= SAMPLES by {
        if k != pid {
            assert(h.samples.contains_key(k));
        }
    }
    assert forall|k: Pid| #[trigger] u.sparks.contains_key(k) implies u.samples.contains_key(k) by {
        if k != pid {
            assert(h.sparks.contains_key(k));
        }
    }
}

proof fn processes_keep_sampled(h: HistoryView, procs: Seq<ProcessView>, now: u64, n: int)
    requires
        sampled(h),
    ensures
        sampled(h.with_processes(procs, now, n)),
    decreases n,
{
    if n > 0 {
        processes_keep_sampled(h, procs, now, n - 1);
        let a = h.with_processes(procs, now, n - 1);
        let p = procs[n - 1];
        if !p.kernel_thread {
            let b = HistoryView {
                identity_of: a.identity_of.insert(p.pid, identity_view(p)),
                ..a
            };
            if let Some(ms) = p.cpu_time_ms {
                if b.rate(p.pid, ms, now) is Some {
                    rates_are_capped(b, p.pid, ms, now);
                    rate_keeps_sampled(b, p.pid, b.rate(p.pid, ms, now)->0);
                }
            }
        }
    }
}

proof fn sightings_keep_samples(h: HistoryView, procs: Seq<ProcessView>, now: u64, n: int)
    ensures
        ({
            let u = h.with_sightings(procs, now, n);
            &&& u.cpu_prev == h.cpu_prev
            &&& u.cpu_now == h.cpu_now
            &&& u.sparks == h.sparks
            &&& u.samples == h.samples
            &&& u.identity_of == h.identity_of
        }),
    decreases n,
{
    if n > 0 {
        sightings_keep_samples(h, procs, now, n - 1);
    }
}

proof fn updates_keep_sampled(h: HistoryView, procs: Seq<ProcessView>, now: u64)
    requires
        sampled(h),
    ensures
        sampled(h.updated(procs, now)),
{
    let n = procs.len() as int;
    sightings_keep_samples(h, procs, now, n);
    processes_keep_sampled(h.with_sightings(procs, now, n), procs, now, n);
}

/// In every state that snapshots lead to, each identity has one entry.
pub proof fn every_state_has_distinct_identities(snapshots: Seq<(Seq<ProcessView>, u64)>)
    ensures
        distinct_identities(after(snapshots).restarts),
    decreases snapshots.len(),
{
    if snapshots.len() > 0 {
        every_state_has_distinct_identities(snapshots.drop_last());
        updates_keep_identities_distinct(
            after(snapshots.drop_last()),
            snapshots.last().0,
            snapshots.last().1,
        );
    }
}

proof fn every_state_is_sampled(snapshots: Seq<(Seq<ProcessView>, u64)>)
    ensures
        sampled(after(snapshots)),
    decreases snapshots.len(),
{
    if snapshots.len() > 0 {
        every_state_is_sampled(snapshots.drop_last());
        updates_keep_sampled(
            after(snapshots.drop_last()),
            snapshots.last().0,
            snapshots.last().1,
        );
    }
}

/// In every state that snapshots lead to, rates and sparklines are those of
/// processes in the last snapshot, and a process has the one exactly if it has
/// the other. A sparkline has one to eight characters, each of them one of the
/// eight bars. A rate is at most four full cores, 400 percent.
pub proof fn every_state_follows_the_last_snapshot(
    snapshots: Seq<(Seq<ProcessView>, u64)>,
    pid: Pid,
)
    requires
        snapshots.len() > 0,
    ensures
        ({
            let h = after(snapshots);
            &&& h.cpu_now.contains_key(pid) <==> h.sparks.contains_key(pid)
            &&& h.cpu_now.contains_key(pid) ==> is_listed(snapshots.last().0, pid)
            &&& h.cpu_now.contains_key(pid) ==> h.cpu_now[pid].wall_ms > 0
                && h.cpu_now[pid].cpu_ms <= 4 * h.cpu_now[pid].wall_ms
            &&& h.sparks.contains_key(pid) ==> 1 <= h.sparks[pid].len() <= 8
            &&& forall|i: int|
                h.sparks.contains_key(pid) && 0 <= i < h.sparks[pid].len() ==> is_bar(
                    #[trigger] h.sparks[pid][i],
                )
        }),
{
    let h = after(snapshots);
    every_state_is_sampled(snapshots);
    assert(h.cpu_now.contains_key(pid) ==> h.samples.contains_key(pid));
    assert(h.sparks.contains_key(pid) ==> h.samples.contains_key(pid));
    assert forall|i: int| h.sparks.contains_key(pid) && 0 <= i < h.sparks[pid].len() implies is_bar(
        #[trigger] h.sparks[pid][i],
    ) by {
        let r = h.samples[pid][i];
        assert(h.sparks[pid][i] == bar(r.eighth()));
        assert(0 <= r.eighth() < 8) by {
            if r.wall_ms > 0 {
                assert((8 * r.cpu_ms) / (r.wall_ms as int) >= 0) by (nonlinear_arith)
                    requires
                        r.wall_ms > 0,
                        r.cpu_ms >= 0,
                ;
            }
        }
    }
}

proof fn others_leave_alone(
    h: HistoryView,
    procs: Seq<ProcessView>,
    now: u64,
    n: int,
    pid: Pid,
)
    requires
        0 <= n <= procs.len(),
        model::distinct_pids(procs),
        !h.cpu_prev.contains_key(pid),
        !h.cpu_now.contains_key(pid),
    ensures
        !h.with_processes(procs, now, n).cpu_now.contains_key(pid),
        (forall|i: int| 0 <= i < n ==> (#[trigger] procs[i]).pid != pid) ==> !h.with_processes(
            procs,
            now,
            n,
        ).cpu_prev.contains_key(pid),
    decreases n,
{
    if n > 0 {
        others_leave_alone(h, procs, now, n - 1, pid);
        if procs[n - 1].pid == pid {
            assert forall|i: int| 0 <= i < n - 1 implies (#[trigger] procs[i]).pid != pid by {
                assert(procs[i].pid != procs[n - 1].pid);
            }
        }
    }
}

/// A rate is the difference of two samples: a process that the snapshot before
/// did not list has none yet.
pub proof fn new_processes_have_no_rate(snapshots: Seq<(Seq<ProcessView>, u64)>, pid: Pid)
    requires
        snapshots.len() > 0,
        model::distinct_pids(snapshots.last().0),
        snapshots.len() > 1 ==> !is_listed(snapshots[snapshots.len() - 2].0, pid),
    ensures
        !after(snapshots).cpu_now.contains_key(pid),
        !after(snapshots).sparks.contains_key(pid),
{
    let rest = snapshots.drop_last();
    let h = after(rest);
    let (procs, now) = snapshots.last();
    if rest.len() > 0 {
        assert(rest.last() == snapshots[snapshots.len() - 2]);
    }
    assert(!h.cpu_prev.contains_key(pid) && !h.cpu_now.contains_key(pid));
    let n = procs.len() as int;
    sightings_keep_samples(h, procs, now, n);
    others_leave_alone(h.with_sightings(procs, now, n), procs, now, n, pid);
    every_state_follows_the_last_snapshot(snapshots, pid);
}

// ---------- what a snapshot does ----------

/// The pids of a program are those of the listed processes with its name,
/// image and user; kernel threads are none.
pub proof fn program_runs_under_its_pids(procs: Seq<ProcessView>, id: IdentityView, n: int, pid: Pid)
    requires
        0 <= n <= procs.len(),
    ensures
        pids_of(procs, id, n).contains(pid) <==> exists|i: int|
            0 <= i < n && (#[trigger] procs[i]).pid == pid && !procs[i].kernel_thread
                && procs[i].name == id.name && procs[i].exe == id.exe && procs[i].user == id.user,
    decreases n,
{
    if n > 0 {
        program_runs_under_its_pids(procs, id, n - 1, pid);
        let before = pids_of(procs, id, n - 1);
        let now = pids_of(procs, id, n);
        let p = procs[n - 1];
        if before.contains(pid) {
            let k = choose|k: int| 0 <= k < before.len() && before[k] == pid;
            assert(now[k] == pid);
        }
        if now.contains(pid) && !before.contains(pid) {
            let k = choose|k: int| 0 <= k < now.len() && now[k] == pid;
            if k < before.len() {
                assert(before[k] == pid);
            }
            assert(procs[n - 1].pid == pid);
        }
        if p.pid == pid && !p.kernel_thread && p.name == id.name && p.exe == id.exe && p.user
            == id.user {
            assert(identity_view(p) =~= id);
            assert(now[now.len() - 1] == pid);
        }
    }
}

/// What a history knows of a pid: the last sample, the rate, the samples of the
/// sparkline, the sparkline and the program.
pub open spec fn known(h: HistoryView, pid: Pid) -> (
    Option<(u64, u64)>,
    Option<Rate>,
    Option<Seq<Rate>>,
    Option<Seq<char>>,
    Option<IdentityView>,
) {
    (
        h.cpu_prev.get(pid),
        h.cpu_now.get(pid),
        h.samples.get(pid),
        h.sparks.get(pid),
        h.identity_of.get(pid),
    )
}

proof fn others_are_untouched(h: HistoryView, p: ProcessView, now: u64, pid: Pid)
    requires
        p.pid != pid,
    ensures
        known(h.with_process(p, now), pid) == known(h, pid),
{
}

proof fn same_knowledge_same_result(a: HistoryView, b: HistoryView, p: ProcessView, now: u64)
    requires
        known(a, p.pid) == known(b, p.pid),
    ensures
        known(a.with_process(p, now), p.pid) == known(b.with_process(p, now), p.pid),
{
    let pid = p.pid;
    assert(a.cpu_prev.contains_key(pid) <==> a.cpu_prev.get(pid) is Some);
    assert(b.cpu_prev.contains_key(pid) <==> b.cpu_prev.get(pid) is Some);
    assert(a.cpu_now.contains_key(pid) <==> a.cpu_now.get(pid) is Some);
    assert(b.cpu_now.contains_key(pid) <==> b.cpu_now.get(pid) is Some);
    assert(a.samples.contains_key(pid) <==> a.samples.get(pid) is Some);
    assert(b.samples.contains_key(pid) <==> b.samples.get(pid) is Some);
}

proof fn only_its_process_matters(
    h: HistoryView,
    procs: Seq<ProcessView>,
    now: u64,
    n: int,
    k: int,
)
    requires
        0 <= n <= procs.len(),
        0 <= k < procs.len(),
        model::distinct_pids(procs),
    ensures
        n <= k ==> known(h.with_processes(procs, now, n), procs[k].pid) == known(h, procs[k].pid),
        n > k ==> known(h.with_processes(procs, now, n), procs[k].pid) == known(
            h.with_process(procs[k], now),
            procs[k].pid,
        ),
    decreases n,
{
    if n > 0 {
        only_its_process_matters(h, procs, now, n - 1, k);
        let before = h.with_processes(procs, now, n - 1);
        if n - 1 == k {
            same_knowledge_same_result(before, h, procs[k], now);
        } else {
            if k < n - 1 {
                assert(procs[k].pid != procs[n - 1].pid);
            } else {
                assert(procs[n - 1].pid != procs[k].pid);
            }
            others_are_untouched(before, procs[n - 1], now, procs[k].pid);
        }
    }
}

proof fn snapshot_of_one(h: HistoryView, procs: Seq<ProcessView>, now: u64, k: int)
    requires
        0 <= k < procs.len(),
        model::distinct_pids(procs),
    ensures
        known(h.updated(procs, now), procs[k].pid) == known(
            h.with_process(procs[k], now),
            procs[k].pid,
        ),
{
    let n = procs.len() as int;
    let s = h.with_sightings(procs, now, n);
    sightings_keep_samples(h, procs, now, n);
    assert(known(s, procs[k].pid) == known(h, procs[k].pid));
    only_its_process_matters(s, procs, now, n, k);
    same_knowledge_same_result(s, h, procs[k], now);
    assert(is_listed(procs, procs[k].pid));
}

/// A process that a snapshot lists is known by its name, image and user, and
/// its CPU time is kept for the next one.
pub proof fn snapshot_keeps_the_process(h: HistoryView, procs: Seq<ProcessView>, now: u64, k: int)
    requires
        0 <= k < procs.len(),
        model::distinct_pids(procs),
        !procs[k].kernel_thread,
    ensures
        ({
            let u = h.updated(procs, now);
            let pid = procs[k].pid;
            &&& u.identity_of.contains_key(pid)
            &&& u.identity_of[pid].name == procs[k].name
            &&& u.identity_of[pid].exe == procs[k].exe
            &&& u.identity_of[pid].user == procs[k].user
            &&& procs[k].cpu_time_ms matches Some(ms) ==> u.cpu_prev.contains_key(pid)
                && u.cpu_prev[pid] == (ms, now)
        }),
{
    snapshot_of_one(h, procs, now, k);
    let u = h.updated(procs, now);
    let pid = procs[k].pid;
    let w = h.with_process(procs[k], now);
    assert(u.identity_of.contains_key(pid) <==> u.identity_of.get(pid) is Some);
    assert(w.identity_of.contains_key(pid));
    assert(w.identity_of.get(pid) == Some(identity_view(procs[k])));
    assert(u.cpu_prev.contains_key(pid) <==> u.cpu_prev.get(pid) is Some);
}

/// A rate is the CPU time between two samples over the time between them, in
/// whole milliseconds and at most four cores full; it is the newest of at most
/// eight samples. Samples less than 50 ms apart keep the rate, and CPU time
/// that went down measures nothing.
pub proof fn rate_is_time_over_time(h: HistoryView, procs: Seq<ProcessView>, now: u64, k: int)
    requires
        0 <= k < procs.len(),
        model::distinct_pids(procs),
        !procs[k].kernel_thread,
        procs[k].cpu_time_ms is Some,
        h.cpu_prev.contains_key(procs[k].pid),
        h.cpu_prev[procs[k].pid].1 <= now,
    ensures
        ({
            let u = h.updated(procs, now);
            let pid = procs[k].pid;
            let ms = procs[k].cpu_time_ms->0;
            let (was, at) = h.cpu_prev[pid];
            let old = if h.samples.contains_key(pid) {
                h.samples[pid]
            } else {
                seq![]
            };
            &&& ms < was ==> u.cpu_now.get(pid) == h.cpu_now.get(pid) && u.samples.get(pid)
                == h.samples.get(pid)
            &&& ms >= was && now - at >= 50_000_000 ==> {
                let r = u.cpu_now[pid];
                &&& u.cpu_now.contains_key(pid)
                &&& r.wall_ms * 1_000_000 <= now - at < (r.wall_ms + 1) * 1_000_000
                &&& r.cpu_ms == if ms - was > 4 * r.wall_ms {
                    4 * r.wall_ms
                } else {
                    ms - was
                }
            }
            &&& ms >= was && now - at < 50_000_000 && h.cpu_now.contains_key(pid)
                ==> u.cpu_now.contains_key(pid) && u.cpu_now[pid] == h.cpu_now[pid]
            &&& ms >= was ==> u.samples.contains_key(pid) && u.cpu_now.contains_key(pid)
                && u.samples[pid] == (if old.len() < 8 {
                old
            } else {
                old.subrange(old.len() - 7, old.len() as int)
            }).push(u.cpu_now[pid])
        }),
{
    snapshot_of_one(h, procs, now, k);
    let u = h.updated(procs, now);
    let pid = procs[k].pid;
    let w = h.with_process(procs[k], now);
    assert(u.cpu_now.contains_key(pid) <==> u.cpu_now.get(pid) is Some);
    assert(u.samples.contains_key(pid) <==> u.samples.get(pid) is Some);
    assert(w.cpu_now.contains_key(pid) <==> w.cpu_now.get(pid) is Some);
    assert(w.samples.contains_key(pid) <==> w.samples.get(pid) is Some);
    let ms = procs[k].cpu_time_ms->0;
    let (was, at) = h.cpu_prev[pid];
    let wall = wall_ms(at, now);
    assert(wall * 1_000_000 <= now - at < (wall + 1) * 1_000_000);
    let old = if h.samples.contains_key(pid) {
        h.samples[pid]
    } else {
        seq![]
    };
    if ms >= was {
        let r = w.cpu_now[pid];
        assert(w.samples[pid] == with_sample(old, r));
        if old.len() >= 8 {
            assert(old.push(r).subrange(old.len() - 7, old.len() as int + 1) =~= old.subrange(
                old.len() - 7,
                old.len() as int,
            ).push(r));
        }
    }
}

/// A bar stands for the eighth of a full core that a rate reaches, and a full
/// core or more has the highest.
pub proof fn bars_stand_for_eighths(r: Rate)
    requires
        r.wall_ms > 0,
    ensures
        ({
            let e = spark_text(seq![r])[0] as u32 - '▁' as u32;
            &&& 0 <= e <= 7
            &&& e * r.wall_ms <= 8 * r.cpu_ms
            &&& e < 7 ==> 8 * r.cpu_ms < (e + 1) * r.wall_ms
        }),
{
    let w = r.wall_ms as int;
    let c = 8 * r.cpu_ms;
    let q = c / w;
    vstd::arithmetic::div_mod::lemma_fundamental_div_mod(c, w);
    vstd::arithmetic::div_mod::lemma_mod_bound(c, w);
    assert(w * q <= c < w * q + w);
    assert(w * q == q * w) by (nonlinear_arith);
    assert((q + 1) * w == q * w + w) by (nonlinear_arith);
    assert(q >= 0) by (nonlinear_arith)
        requires
            w * q + w > c,
            c >= 0,
            w > 0,
    ;
    if q > 7 {
        assert(7 * w <= q * w) by (nonlinear_arith)
            requires
                q > 7,
                w > 0,
        ;
    }
    let e = r.eighth();
    assert(spark_text(seq![r])[0] == bar(e));
    assert(bar(e) as u32 == '▁' as u32 + e);
}

/// Restarts count as recent for five minutes.
pub proof fn restarts_are_recent_for_five_minutes(events: Seq<u64>, now: u64, n: int)
    requires
        0 <= n <= events.len(),
    ensures
        recent(events, now, n) == events.subrange(0, n).filter(
            |e: u64| now - e < 5 * 60 * 1_000_000_000,
        ),
    decreases n,
{
    reveal(Seq::filter);
    let f = |e: u64| now - e < 5 * 60 * 1_000_000_000;
    if n > 0 {
        restarts_are_recent_for_five_minutes(events, now, n - 1);
        assert(events.subrange(0, n).drop_last() =~= events.subrange(0, n - 1));
        assert(events.subrange(0, n).last() == events[n - 1]);
    } else {
        assert(events.subrange(0, 0).filter(f) =~= seq![]);
    }
}

/// A program that was not seen for ten minutes is forgotten, the others are
/// not; their counts stay.
pub proof fn programs_are_remembered_for_ten_minutes(rs: Seq<RestartsView>, now: u64, n: int)
    requires
        0 <= n <= rs.len(),
    ensures
        fresh(rs, now, n).len() == rs.subrange(0, n).filter(
            |r: RestartsView| now - r.last_seen < 10 * 60 * 1_000_000_000,
        ).len(),
        forall|i: int|
            0 <= i < fresh(rs, now, n).len() ==> ({
                let r = rs.subrange(0, n).filter(
                    |r: RestartsView| now - r.last_seen < 10 * 60 * 1_000_000_000,
                )[i];
                let f = #[trigger] fresh(rs, now, n)[i];
                &&& f.identity == r.identity
                &&& f.total == r.total
                &&& f.pids == r.pids
                &&& f.last_seen == r.last_seen
                &&& f.events == recent(r.events, now, r.events.len() as int)
            }),
    decreases n,
{
    reveal(Seq::filter);
    let f = |r: RestartsView| now - r.last_seen < 10 * 60 * 1_000_000_000;
    if n > 0 {
        programs_are_remembered_for_ten_minutes(rs, now, n - 1);
        assert(rs.subrange(0, n).drop_last() =~= rs.subrange(0, n - 1));
        assert(rs.subrange(0, n).last() == rs[n - 1]);
        let before = rs.subrange(0, n - 1).filter(f);
        let all = rs.subrange(0, n).filter(f);
        assert(f(rs[n - 1]) ==> all == before.push(rs[n - 1]));
        assert(!f(rs[n - 1]) ==> all == before);
        assert forall|i: int| 0 <= i < fresh(rs, now, n).len() implies ({
            let r = all[i];
            let g = #[trigger] fresh(rs, now, n)[i];
            &&& g.identity == r.identity
            &&& g.total == r.total
            &&& g.pids == r.pids
            &&& g.last_seen == r.last_seen
            &&& g.events == recent(r.events, now, r.events.len() as int)
        }) by {
            if i < fresh(rs, now, n - 1).len() {
                assert(fresh(rs, now, n)[i] == fresh(rs, now, n - 1)[i]);
            }
        }
    } else {
        assert(rs.subrange(0, 0).filter(f) =~= seq![]);
    }
}

} // verus!
