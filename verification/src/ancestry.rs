//! The parent chain of a process, and its children, over one snapshot of the
//! process table.

use std::collections::{HashMap, HashSet};

use vstd::prelude::*;
use vstd::string::*;

use crate::model::{Child, Pid, Process};
use crate::num::{dec_i32, dec_usize};
use crate::text::text;

#[allow(unused_imports)]
use vstd::std_specs::iter::IteratorSpec;
use crate::model::{ChildView, ProcessView};
use crate::num;
use crate::text;

verus! {

broadcast use vstd::std_specs::hash::group_hash_axioms;

// ---------- the snapshot ----------

/// What a process table shows.
pub open spec fn table(m: Map<Pid, Process>) -> Map<Pid, ProcessView> {
    m.map_values(|p: Process| p@)
}

/// Whether the process under `a` comes before the one under `b`: by pid, and
/// by key where the pids are the same.
pub open spec fn earlier(m: Map<Pid, ProcessView>, a: Pid, b: Pid) -> bool {
    m[a].pid < m[b].pid || (m[a].pid == m[b].pid && a < b)
}

/// Whether `ks` lists the keys of the table, each once, in order.
pub open spec fn is_key_order(m: Map<Pid, ProcessView>, ks: Seq<Pid>) -> bool {
    &&& forall|k: Pid| #[trigger] ks.contains(k) <==> m.contains_key(k)
    &&& forall|i: int, j: int| 0 <= i < j < ks.len() ==> earlier(m, #[trigger] ks[i], #[trigger] ks[j])
}

/// The keys of the table in order.
pub open spec fn key_order(m: Map<Pid, ProcessView>) -> Seq<Pid> {
    choose|ks: Seq<Pid>| is_key_order(m, ks)
}

proof fn key_order_prefix(m: Map<Pid, ProcessView>, a: Seq<Pid>, b: Seq<Pid>, n: int)
    requires
        is_key_order(m, a),
        is_key_order(m, b),
        0 <= n <= a.len(),
    ensures
        n <= b.len(),
        a.take(n) == b.take(n),
    decreases n,
{
    if n > 0 {
        key_order_prefix(m, a, b, n - 1);
        assert(a.contains(a[n - 1]));
        assert(b.contains(a[n - 1]));
        let j = choose|j: int| 0 <= j < b.len() && b[j] == a[n - 1];
        if j < n - 1 {
            assert(a.take(n - 1)[j] == b.take(n - 1)[j]);
            assert(earlier(m, a[j], a[n - 1]));
        }
        assert(b.contains(b[n - 1]));
        assert(a.contains(b[n - 1]));
        let i = choose|i: int| 0 <= i < a.len() && a[i] == b[n - 1];
        if i < n - 1 {
            assert(a.take(n - 1)[i] == b.take(n - 1)[i]);
            assert(earlier(m, b[i], b[n - 1]));
        }
        if i > n - 1 {
            assert(earlier(m, a[n - 1], a[i]));
            if j > n - 1 {
                assert(earlier(m, b[n - 1], b[j]));
            }
        }
        assert(a[n - 1] == b[n - 1]);
        assert(a.take(n) =~= a.take(n - 1).push(a[n - 1]));
        assert(b.take(n) =~= b.take(n - 1).push(b[n - 1]));
    } else {
        assert(a.take(0) =~= b.take(0));
    }
}

/// A table has only one order of its keys.
pub proof fn key_order_is_unique(m: Map<Pid, ProcessView>, a: Seq<Pid>, b: Seq<Pid>)
    requires
        is_key_order(m, a),
        is_key_order(m, b),
    ensures
        a == b,
{
    key_order_prefix(m, a, b, a.len() as int);
    key_order_prefix(m, b, a, b.len() as int);
    assert(a.take(a.len() as int) =~= a);
    assert(b.take(b.len() as int) =~= b);
}

fn insert_key(ks: &mut Vec<Pid>, k: Pid, procs: &HashMap<Pid, Process>, p: &Process)
    requires
        procs@.contains_key(k),
        procs@[k] == *p,
        forall|i: int| 0 <= i < old(ks)@.len() ==> procs@.contains_key(#[trigger] old(ks)@[i]),
        !old(ks)@.contains(k),
        forall|i: int, j: int|
            0 <= i < j < old(ks)@.len() ==> earlier(
                table(procs@),
                #[trigger] old(ks)@[i],
                #[trigger] old(ks)@[j],
            ),
    ensures
        exists|n: int| 0 <= n <= old(ks)@.len() && final(ks)@ == #[trigger] old(ks)@.insert(n, k),
        forall|i: int, j: int|
            0 <= i < j < final(ks)@.len() ==> earlier(
                table(procs@),
                #[trigger] final(ks)@[i],
                #[trigger] final(ks)@[j],
            ),
{
    let ghost m = table(procs@);
    let mut n: usize = ks.len();
    while n > 0
        invariant
            n <= ks@.len(),
            m == table(procs@),
            procs@.contains_key(k),
            procs@[k] == *p,
            ks@ == old(ks)@,
            forall|i: int| 0 <= i < ks@.len() ==> procs@.contains_key(#[trigger] ks@[i]),
            forall|i: int| n <= i < ks@.len() ==> earlier(m, k, #[trigger] ks@[i]),
        ensures
            n <= ks@.len(),
            ks@ == old(ks)@,
            forall|i: int| n <= i < ks@.len() ==> earlier(m, k, #[trigger] ks@[i]),
            n > 0 ==> !earlier(m, k, ks@[n - 1]),
        decreases n,
    {
        let other: Pid = ks[n - 1];
        match procs.get(&other) {
            Some(q) => {
                let before = p.pid < q.pid || (p.pid == q.pid && k < other);
                assert(before == earlier(m, k, other));
                if !before {
                    break;
                }
            },
            None => {
                assert(false);
            },
        }
        n -= 1;
    }
    ks.insert(n, k);
    proof {
        let was = old(ks)@;
        let now = ks@;
        assert(now == was.insert(n as int, k));
        assert forall|i: int, j: int| 0 <= i < j < now.len() implies earlier(
            m,
            #[trigger] now[i],
            #[trigger] now[j],
        ) by {
            if j == n {
                assert(now[i] == was[i]);
                assert(was[n - 1] != k) by {
                    assert(was.contains(was[n - 1]));
                }
                assert(earlier(m, was[n - 1], k));
                if i < n - 1 {
                    assert(earlier(m, was[i], was[n - 1]));
                }
            } else if i == n {
                assert(now[j] == was[j - 1]);
            } else {
                let a = if i < n {
                    i
                } else {
                    i - 1
                };
                let b = if j < n {
                    j
                } else {
                    j - 1
                };
                assert(now[i] == was[a]);
                assert(now[j] == was[b]);
                assert(earlier(m, was[a], was[b]));
            }
        }
    }
}

/// The keys of the table in order.
pub fn keys_in_order(procs: &HashMap<Pid, Process>) -> (r: Vec<Pid>)
    ensures
        r@ == key_order(table(procs@)),
        is_key_order(table(procs@), r@),
{
    let ghost m = table(procs@);
    let mut ks: Vec<Pid> = Vec::new();
    let ghost all = vstd::std_specs::iter::IteratorSpec::remaining(
        &vstd::std_specs::hash::spec_keys_iter(procs),
    );
    for k in it: procs.keys()
        invariant
            m == table(procs@),
            it.seq() == all,
            it.seq().unref().to_set() == procs@.dom(),
            it.seq().no_duplicates(),
            forall|x: Pid|
                #[trigger] ks@.contains(x) <==> exists|j: int|
                    0 <= j < it.index() && *(#[trigger] it.seq()[j]) == x,
            forall|i: int, j: int|
                0 <= i < j < ks@.len() ==> earlier(m, #[trigger] ks@[i], #[trigger] ks@[j]),
    {
        let ghost n = it.index() as int;
        let ghost s = it.seq();
        let ghost was = ks@;
        proof {
            assert(*s[n] == *k);
            assert(s.unref()[n] == *k);
            assert(s.unref().to_set().contains(*k));
            assert forall|i: int| 0 <= i < ks@.len() implies procs@.contains_key(
                #[trigger] ks@[i],
            ) by {
                assert(ks@.contains(ks@[i]));
                let j = choose|j: int| 0 <= j < n && *(#[trigger] s[j]) == ks@[i];
                assert(s.unref()[j] == ks@[i]);
                assert(s.unref().to_set().contains(ks@[i]));
            }
            if ks@.contains(*k) {
                let j = choose|j: int| 0 <= j < n && *(#[trigger] s[j]) == *k;
                assert(s[j] == s[n]);
            }
        }
        match procs.get(k) {
            Some(p) => {
                insert_key(&mut ks, *k, procs, p);
            },
            None => {
                assert(false);
            },
        }
        proof {
            let at = choose|at: int| 0 <= at <= was.len() && ks@ == #[trigger] was.insert(at, *k);
            assert forall|x: Pid| #[trigger] ks@.contains(x) <==> exists|j: int|
                0 <= j < n + 1 && *(#[trigger] s[j]) == x by {
                if ks@.contains(x) {
                    let i = choose|i: int| 0 <= i < ks@.len() && ks@[i] == x;
                    if i == at {
                        assert(*s[n] == x);
                    } else {
                        let b = if i < at {
                            i
                        } else {
                            i - 1
                        };
                        assert(was[b] == x);
                        assert(was.contains(x));
                        let j = choose|j: int| 0 <= j < n && *(#[trigger] s[j]) == x;
                        assert(*s[j] == x);
                    }
                }
                if exists|j: int| 0 <= j < n + 1 && *(#[trigger] s[j]) == x {
                    let j = choose|j: int| 0 <= j < n + 1 && *(#[trigger] s[j]) == x;
                    if j == n {
                        assert(ks@[at] == x);
                    } else {
                        assert(was.contains(x));
                        let b = choose|b: int| 0 <= b < was.len() && was[b] == x;
                        if b < at {
                            assert(ks@[b] == x);
                        } else {
                            assert(ks@[b + 1] == x);
                        }
                    }
                }
            }
        }
    }
    proof {
        assert forall|x: Pid| #[trigger] ks@.contains(x) <==> m.contains_key(x) by {
            assert(m.contains_key(x) == all.unref().to_set().contains(x));
            if m.contains_key(x) {
                let j = choose|j: int| 0 <= j < all.unref().len() && all.unref()[j] == x;
                assert(*all[j] == x);
            }
            if ks@.contains(x) {
                let j = choose|j: int| 0 <= j < all.len() && *(#[trigger] all[j]) == x;
                assert(all.unref()[j] == x);
            }
        }
        assert(is_key_order(m, ks@));
        key_order_is_unique(m, ks@, key_order(m));
    }
    ks
}

// ---------- the parent chain ----------

/// Where climbing from a process to its parents led: the pids passed, the
/// process itself first, and the reason for stopping short of the root.
pub struct Trail {
    pub pids: Seq<Pid>,
    pub warning: Option<Seq<char>>,
}

/// Climbing on from `cur` after the processes in `seen`: a process without
/// another, positive parent pid is the root; a parent already passed, more
/// than `max` processes and a parent that is gone stop the climb.
pub open spec fn climb(m: Map<Pid, ProcessView>, seen: Seq<Pid>, cur: Pid, max: int) -> Trail
    decreases max - seen.len(),
{
    if !m.contains_key(cur) {
        Trail {
            pids: seen,
            warning: Some(
                if seen.len() == 0 {
                    "pid "@ + num::dec(cur as int) + " not found (exited, or permission denied)"@
                } else {
                    "parent pid "@ + num::dec(cur as int)
                        + " no longer exists — it exited after spawning "@ + m[seen.last()].name
                        + " (orphaned/double-forked)"@
                },
            ),
        }
    } else {
        let p = m[cur];
        let chain = seen.push(cur);
        match p.ppid {
            Some(ppid) => if ppid == cur || ppid <= 0 {
                Trail { pids: chain, warning: None }
            } else if chain.contains(ppid) {
                Trail {
                    pids: chain,
                    warning: Some(
                        "process "@ + num::dec(p.pid as int) + " ("@ + p.name + ") claims parent "@
                            + num::dec(ppid as int)
                            + " which is already in the chain — cycle (kernel bug or recycled pid)"@,
                    ),
                }
            } else if chain.len() >= max {
                Trail {
                    pids: chain,
                    warning: Some(
                        "stopped walking ancestry at depth "@ + num::dec(max) + " (pid "@ + num::dec(
                            ppid as int,
                        ) + ")"@,
                    ),
                }
            } else {
                climb(m, chain, ppid, max)
            },
            None => Trail { pids: chain, warning: None },
        }
    }
}

/// The processes of a trail, root first.
pub open spec fn root_first(m: Map<Pid, ProcessView>, pids: Seq<Pid>) -> Seq<ProcessView> {
    Seq::new(pids.len(), |i: int| m[pids[pids.len() - 1 - i]])
}

/// The warnings of a trail.
pub open spec fn trail_warnings(t: Trail) -> Seq<Seq<char>> {
    match t.warning {
        Some(w) => seq![w],
        None => seq![],
    }
}

pub struct Ancestry {
    /// root first, the traced process last
    pub chain: Vec<Process>,
    pub warnings: Vec<String>,
}

fn not_found_warning(pid: Pid) -> (r: String)
    ensures
        r@ == "pid "@ + num::dec(pid as int) + " not found (exited, or permission denied)"@,
{
    let mut w = text("pid ");
    w.append(dec_i32(pid).as_str());
    w.append(" not found (exited, or permission denied)");
    w
}

fn orphan_warning(pid: Pid, name: &str) -> (r: String)
    ensures
        r@ == "parent pid "@ + num::dec(pid as int)
            + " no longer exists — it exited after spawning "@ + name@ + " (orphaned/double-forked)"@,
{
    let mut w = text("parent pid ");
    w.append(dec_i32(pid).as_str());
    w.append(" no longer exists — it exited after spawning ");
    w.append(name);
    w.append(" (orphaned/double-forked)");
    w
}

fn cycle_warning(p: &Process, ppid: Pid) -> (r: String)
    ensures
        r@ == "process "@ + num::dec(p.pid as int) + " ("@ + p.name@ + ") claims parent "@ + num::dec(
            ppid as int,
        ) + " which is already in the chain — cycle (kernel bug or recycled pid)"@,
{
    let mut w = text("process ");
    w.append(dec_i32(p.pid).as_str());
    w.append(" (");
    w.append(p.name.as_str());
    w.append(") claims parent ");
    w.append(dec_i32(ppid).as_str());
    w.append(" which is already in the chain — cycle (kernel bug or recycled pid)");
    w
}

fn depth_warning(max_depth: usize, ppid: Pid) -> (r: String)
    ensures
        r@ == "stopped walking ancestry at depth "@ + num::dec(max_depth as int) + " (pid "@
            + num::dec(ppid as int) + ")"@,
{
    let mut w = text("stopped walking ancestry at depth ");
    w.append(dec_usize(max_depth).as_str());
    w.append(" (pid ");
    w.append(dec_i32(ppid).as_str());
    w.append(")");
    w
}

fn reversed(v: Vec<Process>) -> (r: Vec<Process>)
    ensures
        r@.len() == v@.len(),
        forall|i: int| 0 <= i < r@.len() ==> #[trigger] r@[i] == v@[v@.len() - 1 - i],
{
    let ghost was = v@;
    let mut v = v;
    let mut out: Vec<Process> = Vec::new();
    while v.len() > 0
        invariant
            v@.len() + out@.len() == was.len(),
            v@ == was.take(v@.len() as int),
            forall|i: int| 0 <= i < out@.len() ==> #[trigger] out@[i] == was[was.len() - 1 - i],
        decreases v@.len(),
    {
        let ghost n = v@.len() as int;
        match v.pop() {
            Some(p) => {
                assert(p == was[n - 1]);
                assert(v@ =~= was.take(n - 1));
                out.push(p);
            },
            None => {
                assert(false);
            },
        }
    }
    out
}

/// Walk the ppid chain of `start` over the snapshot `procs`, with cycle
/// and depth guards. The chain is returned root-first.
pub fn build_ancestry(procs: &HashMap<Pid, Process>, start: Pid, max_depth: usize) -> (r: Ancestry)
    ensures
        ({
            let t = climb(table(procs@), seq![], start, max_depth as int);
            &&& text::views(r.chain@) == root_first(table(procs@), t.pids)
            &&& text::texts(r.warnings@) == trail_warnings(t)
        }),
{
    broadcast use crate::text::group_views;

    let ghost m = table(procs@);
    let mut chain: Vec<Process> = Vec::new();
    let mut warnings: Vec<String> = Vec::new();
    let mut seen: HashSet<Pid> = HashSet::new();
    let ghost mut pids: Seq<Pid> = seq![];
    let mut cur: Pid = start;
    let ghost goal = climb(m, seq![], start, max_depth as int);
    loop
        invariant_except_break
            m == table(procs@),
            goal == climb(m, pids, cur, max_depth as int),
            warnings@.len() == 0,
            forall|x: Pid| #[trigger] seen@.contains(x) <==> pids.contains(x),
            chain@.len() == pids.len(),
            forall|i: int| 0 <= i < pids.len() ==> (#[trigger] chain@[i])@ == m[pids[i]],
        ensures
            m == table(procs@),
            goal.pids == pids,
            text::texts(warnings@) == trail_warnings(goal),
            chain@.len() == pids.len(),
            forall|i: int| 0 <= i < pids.len() ==> (#[trigger] chain@[i])@ == m[pids[i]],
        decreases max_depth - pids.len(),
    {
        let ghost before = pids;
        assert(warnings@ =~= Seq::<String>::empty());
        match procs.get(&cur) {
            Some(p) => {
                assert(m.contains_key(cur) && m[cur] == p@);
                chain.push(p.clone());
                seen.insert(cur);
                proof {
                    pids = pids.push(cur);
                    assert forall|x: Pid| #[trigger] seen@.contains(x) <==> pids.contains(x) by {
                        if before.contains(x) {
                            let i = choose|i: int| 0 <= i < before.len() && before[i] == x;
                            assert(pids[i] == x);
                        }
                        if x == cur {
                            assert(pids[before.len() as int] == x);
                        }
                    }
                    assert forall|i: int| 0 <= i < pids.len() implies (#[trigger] chain@[i])@
                        == m[pids[i]] by {
                        if i < before.len() {
                            assert(pids[i] == before[i]);
                        }
                    }
                }
                match p.ppid {
                    Some(ppid) => {
                        if ppid == cur || ppid <= 0 {
                            break;
                        }
                        if seen.contains(&ppid) {
                            warnings.push(cycle_warning(p, ppid));
                            break;
                        }
                        if chain.len() >= max_depth {
                            warnings.push(depth_warning(max_depth, ppid));
                            break;
                        }
                        cur = ppid;
                    },
                    None => {
                        break;
                    },
                }
            },
            None => {
                assert(!m.contains_key(cur));
                if chain.len() == 0 {
                    warnings.push(not_found_warning(cur));
                } else {
                    assert(chain@[chain@.len() - 1]@ == m[pids.last()]);
                    let name = chain[chain.len() - 1].name.as_str();
                    warnings.push(orphan_warning(cur, name));
                }
                break;
            },
        }
    }
    let ghost was = chain@;
    let chain = reversed(chain);
    proof {
        assert forall|i: int| 0 <= i < chain@.len() implies #[trigger] text::views(chain@)[i]
            == root_first(m, pids)[i] by {
            assert(was[was.len() - 1 - i]@ == m[pids[pids.len() - 1 - i]]);
        }
        assert(text::views(chain@) =~= root_first(m, pids));
    }
    Ancestry { chain, warnings }
}

// ---------- the children ----------

/// The entry for a child.
pub open spec fn child_of(p: ProcessView) -> ChildView {
    ChildView { pid: p.pid, name: p.name, command: p.command() }
}

/// The children of `pid` among the processes under the first `n` keys.
pub open spec fn children_among(
    m: Map<Pid, ProcessView>,
    ks: Seq<Pid>,
    pid: Pid,
    n: int,
) -> Seq<ChildView>
    decreases n,
{
    if n <= 0 {
        seq![]
    } else {
        let p = m[ks[n - 1]];
        if p.ppid == Some(pid) && p.pid != pid {
            children_among(m, ks, pid, n - 1).push(child_of(p))
        } else {
            children_among(m, ks, pid, n - 1)
        }
    }
}

/// The processes whose parent is `pid`, by pid.
pub open spec fn children_of(m: Map<Pid, ProcessView>, pid: Pid) -> Seq<ChildView> {
    children_among(m, key_order(m), pid, key_order(m).len() as int)
}

/// The processes whose parent is `pid`, by pid.
pub fn direct_children(procs: &HashMap<Pid, Process>, pid: Pid) -> (r: Vec<Child>)
    ensures
        text::views(r@) == children_of(table(procs@), pid),
{
    broadcast use crate::text::group_views;

    let ghost m = table(procs@);
    let ks = keys_in_order(procs);
    let mut kids: Vec<Child> = Vec::new();
    let mut i: usize = 0;
    while i < ks.len()
        invariant
            m == table(procs@),
            is_key_order(m, ks@),
            i <= ks@.len(),
            text::views(kids@) == children_among(m, ks@, pid, i as int),
        decreases ks@.len() - i,
    {
        assert(ks@.contains(ks@[i as int]));
        match procs.get(&ks[i]) {
            Some(p) => {
                assert(m[ks@[i as int]] == p@);
                if p.ppid == Some(pid) && p.pid != pid {
                    kids.push(
                        Child { pid: p.pid, name: p.name.clone(), command: p.command_line() },
                    );
                }
            },
            None => {
                assert(false);
            },
        }
        i += 1;
    }
    kids
}

// ---------- laws ----------

/// Whether each process of the trail is the parent of the one before it.
pub open spec fn linked(m: Map<Pid, ProcessView>, pids: Seq<Pid>) -> bool {
    forall|i: int|
        0 <= i < pids.len() - 1 ==> m[#[trigger] pids[i]].ppid == Some(pids[i + 1])
}

proof fn climb_shape(m: Map<Pid, ProcessView>, seen: Seq<Pid>, cur: Pid, max: int)
    requires
        seen.no_duplicates(),
        !seen.contains(cur),
        forall|i: int| 0 <= i < seen.len() ==> m.contains_key(#[trigger] seen[i]),
        linked(m, seen),
        seen.len() > 0 ==> m[seen.last()].ppid == Some(cur),
        seen.len() > 0 ==> seen.len() < max,
    ensures
        ({
            let t = climb(m, seen, cur, max);
            &&& t.pids.no_duplicates()
            &&& forall|i: int| 0 <= i < t.pids.len() ==> m.contains_key(#[trigger] t.pids[i])
            &&& linked(m, t.pids)
            &&& seen.len() <= t.pids.len()
            &&& t.pids.take(seen.len() as int) == seen
            &&& t.pids.len() <= max || t.pids.len() <= 1
            &&& m.contains_key(cur) ==> seen.len() < t.pids.len() && t.pids[seen.len() as int] == cur
            &&& t.warning is None ==> t.pids.len() > 0 && (match m[t.pids.last()].ppid {
                Some(pp) => pp == t.pids.last() || pp <= 0,
                None => true,
            })
        }),
    decreases max - seen.len(),
{
    let t = climb(m, seen, cur, max);
    if m.contains_key(cur) {
        let chain = seen.push(cur);
        assert(chain.take(seen.len() as int) =~= seen);
        assert(chain.no_duplicates());
        assert forall|i: int| 0 <= i < chain.len() - 1 implies m[#[trigger] chain[i]].ppid == Some(
            chain[i + 1],
        ) by {
            if i < seen.len() - 1 {
                assert(m[seen[i]].ppid == Some(seen[i + 1]));
            }
        }
        match m[cur].ppid {
            Some(ppid) => {
                if !(ppid == cur || ppid <= 0) && !chain.contains(ppid) && chain.len() < max {
                    climb_shape(m, chain, ppid, max);
                    assert(t.pids.take(seen.len() as int) =~= t.pids.take(
                        chain.len() as int,
                    ).take(seen.len() as int));
                    assert(t.pids[seen.len() as int] == t.pids.take(chain.len() as int)[seen.len() as int]);
                }
            },
            None => {},
        }
    } else {
        assert(seen.take(seen.len() as int) =~= seen);
    }
}

/// However the table links its processes, cycles included, the walk visits no
/// process twice, stays in the table, goes from child to parent at each step,
/// starts at the traced process and passes at most `max` processes (one when
/// `max` is less than that). Without a warning it ended at a root: a process
/// that names no other, positive parent.
pub proof fn ancestry_is_a_path(m: Map<Pid, ProcessView>, start: Pid, max: int)
    ensures
        ({
            let t = climb(m, seq![], start, max);
            &&& t.pids.no_duplicates()
            &&& forall|i: int| 0 <= i < t.pids.len() ==> m.contains_key(#[trigger] t.pids[i])
            &&& linked(m, t.pids)
            &&& t.pids.len() <= max || t.pids.len() <= 1
            &&& m.contains_key(start) <==> t.pids.len() > 0
            &&& t.pids.len() > 0 ==> t.pids[0] == start
            &&& t.warning is None ==> t.pids.len() > 0 && (match m[t.pids.last()].ppid {
                Some(pp) => pp == t.pids.last() || pp <= 0,
                None => true,
            })
        }),
{
    climb_shape(m, seq![], start, max);
}

/// The traced process stands last in its ancestry.
pub proof fn traced_process_is_last(m: Map<Pid, ProcessView>, start: Pid, max: int)
    requires
        m.contains_key(start),
    ensures
        root_first(m, climb(m, seq![], start, max).pids).len() > 0,
        root_first(m, climb(m, seq![], start, max).pids).last() == m[start],
{
    ancestry_is_a_path(m, start, max);
}

/// Every child listed is a process of the table whose parent is `pid`, and
/// every such process is listed; the list goes up by pid.
pub proof fn children_are_complete(m: Map<Pid, ProcessView>, ks: Seq<Pid>, pid: Pid)
    requires
        is_key_order(m, ks),
    ensures
        children_of(m, pid) == children_among(m, ks, pid, ks.len() as int),
        forall|c: ChildView| #[trigger]
            children_of(m, pid).contains(c) <==> exists|k: Pid| #[trigger]
                m.contains_key(k) && m[k].ppid == Some(pid) && m[k].pid != pid && c == child_of(m[k]),
        forall|i: int, j: int|
            0 <= i < j < children_of(m, pid).len() ==> (#[trigger] children_of(m, pid)[i]).pid <= (
            #[trigger] children_of(m, pid)[j]).pid,
{
    key_order_is_unique(m, ks, key_order(m));
    let n = ks.len() as int;
    children_prefix(m, ks, pid, n);
    let all = children_of(m, pid);
    assert forall|c: ChildView| #[trigger] all.contains(c) <==> exists|k: Pid| #[trigger]
        m.contains_key(k) && m[k].ppid == Some(pid) && m[k].pid != pid && c == child_of(m[k]) by {
        if all.contains(c) {
            let a = choose|a: int| 0 <= a < n && is_child_at(m, ks, pid, a) && c == child_of(
                m[ks[a]],
            );
            assert(ks.contains(ks[a]));
            assert(m.contains_key(ks[a]));
        }
        if exists|k: Pid| #[trigger]
            m.contains_key(k) && m[k].ppid == Some(pid) && m[k].pid != pid && c == child_of(m[k]) {
            let k = choose|k: Pid| #[trigger]
                m.contains_key(k) && m[k].ppid == Some(pid) && m[k].pid != pid && c == child_of(
                    m[k],
                );
            assert(ks.contains(k));
            let a = choose|a: int| 0 <= a < n && ks[a] == k;
            assert(is_child_at(m, ks, pid, a));
        }
    }
}

spec fn is_child_at(m: Map<Pid, ProcessView>, ks: Seq<Pid>, pid: Pid, a: int) -> bool {
    m[ks[a]].ppid == Some(pid) && m[ks[a]].pid != pid
}

proof fn children_prefix(m: Map<Pid, ProcessView>, ks: Seq<Pid>, pid: Pid, n: int)
    requires
        is_key_order(m, ks),
        0 <= n <= ks.len(),
    ensures
        ({
            let l = children_among(m, ks, pid, n);
            &&& forall|c: ChildView| #[trigger]
                l.contains(c) <==> exists|a: int|
                    0 <= a < n && #[trigger] is_child_at(m, ks, pid, a) && c == child_of(m[ks[a]])
            &&& forall|i: int, j: int|
                0 <= i < j < l.len() ==> (#[trigger] l[i]).pid <= (#[trigger] l[j]).pid
            &&& n < ks.len() ==> forall|i: int|
                0 <= i < l.len() ==> (#[trigger] l[i]).pid <= m[ks[n]].pid
        }),
    decreases n,
{
    let l = children_among(m, ks, pid, n);
    if n > 0 {
        children_prefix(m, ks, pid, n - 1);
        let g = children_among(m, ks, pid, n - 1);
        let c0 = child_of(m[ks[n - 1]]);
        if n < ks.len() {
            assert(earlier(m, ks[n - 1], ks[n]));
        }
        assert forall|c: ChildView| #[trigger] l.contains(c) <==> exists|a: int|
            0 <= a < n && #[trigger] is_child_at(m, ks, pid, a) && c == child_of(m[ks[a]]) by {
            if l.contains(c) {
                let i = choose|i: int| 0 <= i < l.len() && l[i] == c;
                if i < g.len() {
                    assert(g[i] == c);
                    assert(g.contains(c));
                } else {
                    assert(is_child_at(m, ks, pid, n - 1));
                }
            }
            if exists|a: int|
                0 <= a < n && #[trigger] is_child_at(m, ks, pid, a) && c == child_of(m[ks[a]]) {
                let a = choose|a: int|
                    0 <= a < n && #[trigger] is_child_at(m, ks, pid, a) && c == child_of(m[ks[a]]);
                if a == n - 1 {
                    assert(l.last() == c);
                } else {
                    assert(g.contains(c));
                    let i = choose|i: int| 0 <= i < g.len() && g[i] == c;
                    assert(l[i] == c);
                }
            }
        }
        assert forall|i: int, j: int| 0 <= i < j < l.len() implies (#[trigger] l[i]).pid <= (
        #[trigger] l[j]).pid by {
            assert(l[i] == g[i]);
            if j < g.len() {
                assert(l[j] == g[j]);
            }
        }
        assert forall|i: int| 0 <= i < l.len() && n < ks.len() implies (#[trigger] l[i]).pid
            <= m[ks[n]].pid by {
            if i < g.len() {
                assert(l[i] == g[i]);
            }
        }
    }
}

proof fn climb_stops(m: Map<Pid, ProcessView>, seen: Seq<Pid>, cur: Pid, max: int)
    requires
        seen.len() > 0 ==> seen.len() < max && m.contains_key(seen.last()) && m[seen.last()].ppid
            == Some(cur) && cur != seen.last() && cur > 0 && !seen.contains(cur),
    ensures
        ({
            let t = climb(m, seen, cur, max);
            t.pids.len() > 0 ==> match m[t.pids.last()].ppid {
                Some(pp) => if pp == t.pids.last() || pp <= 0 {
                    t.warning is None
                } else if t.pids.contains(pp) {
                    t.warning == Some(
                        "process "@ + num::dec(m[t.pids.last()].pid as int) + " ("@
                            + m[t.pids.last()].name + ") claims parent "@ + num::dec(pp as int)
                            + " which is already in the chain — cycle (kernel bug or recycled pid)"@,
                    )
                } else if t.pids.len() >= max {
                    t.warning == Some(
                        "stopped walking ancestry at depth "@ + num::dec(max) + " (pid "@
                            + num::dec(pp as int) + ")"@,
                    )
                } else {
                    !m.contains_key(pp) && t.warning == Some(
                        "parent pid "@ + num::dec(pp as int)
                            + " no longer exists — it exited after spawning "@
                            + m[t.pids.last()].name + " (orphaned/double-forked)"@,
                    )
                },
                None => t.warning is None,
            }
        }),
    decreases max - seen.len(),
{
    if m.contains_key(cur) {
        let chain = seen.push(cur);
        assert(chain.last() == cur);
        match m[cur].ppid {
            Some(ppid) => {
                if !(ppid == cur || ppid <= 0) && !chain.contains(ppid) && chain.len() < max {
                    climb_stops(m, chain, ppid, max);
                }
            },
            None => {},
        }
    }
}

/// A walk stops for a reason, and says the one that holds. At a process that
/// names no other, positive parent it stops without a warning. Elsewhere its
/// last process names a parent that is in the chain already, or the chain has
/// `max` processes, or that parent is not in the table.
pub proof fn walk_stops_for_its_reason(m: Map<Pid, ProcessView>, start: Pid, max: int)
    ensures
        ({
            let t = climb(m, seq![], start, max);
            let ws = trail_warnings(t);
            if !m.contains_key(start) {
                &&& t.pids.len() == 0
                &&& ws == seq![
                    "pid "@ + num::dec(start as int)
                        + " not found (exited, or permission denied)"@,
                ]
            } else {
                &&& t.pids.len() > 0
                &&& match m[t.pids.last()].ppid {
                    Some(pp) => if pp == t.pids.last() || pp <= 0 {
                        ws.len() == 0
                    } else if t.pids.contains(pp) {
                        ws == seq![
                            "process "@ + num::dec(m[t.pids.last()].pid as int) + " ("@
                                + m[t.pids.last()].name + ") claims parent "@ + num::dec(pp as int)
                                + " which is already in the chain — cycle (kernel bug or recycled pid)"@,
                        ]
                    } else if t.pids.len() >= max {
                        ws == seq![
                            "stopped walking ancestry at depth "@ + num::dec(max) + " (pid "@
                                + num::dec(pp as int) + ")"@,
                        ]
                    } else {
                        !m.contains_key(pp) && ws == seq![
                            "parent pid "@ + num::dec(pp as int)
                                + " no longer exists — it exited after spawning "@
                                + m[t.pids.last()].name + " (orphaned/double-forked)"@,
                        ]
                    },
                    None => ws.len() == 0,
                }
            }
        }),
{
    climb_stops(m, seq![], start, max);
    ancestry_is_a_path(m, start, max);
}

/// Whether `path` leads from its first process, parent by parent, through the
/// table to a root, and passes no process twice.
pub open spec fn leads_to_root(m: Map<Pid, ProcessView>, path: Seq<Pid>) -> bool {
    &&& path.len() > 0
    &&& path.no_duplicates()
    &&& forall|i: int| 0 <= i < path.len() ==> m.contains_key(#[trigger] path[i])
    &&& forall|i: int|
        0 <= i < path.len() - 1 ==> m[#[trigger] path[i]].ppid == Some(path[i + 1]) && path[i + 1]
            > 0
    &&& match m[path.last()].ppid {
        Some(pp) => pp == path.last() || pp <= 0,
        None => true,
    }
}

proof fn climb_follows(m: Map<Pid, ProcessView>, path: Seq<Pid>, n: int, max: int)
    requires
        leads_to_root(m, path),
        0 <= n < path.len() <= max,
    ensures
        climb(m, path.take(n), path[n], max) == (Trail { pids: path, warning: None }),
    decreases path.len() - n,
{
    let seen = path.take(n);
    let chain = seen.push(path[n]);
    assert(chain =~= path.take(n + 1));
    assert(m.contains_key(path[n]));
    if n == path.len() - 1 {
        assert(chain =~= path);
    } else {
        let pp = path[n + 1];
        assert(m[path[n]].ppid == Some(pp));
        assert(pp != path[n]);
        if chain.contains(pp) {
            let i = choose|i: int| 0 <= i < chain.len() && chain[i] == pp;
            assert(path[i] == path[n + 1]);
        }
        climb_follows(m, path, n + 1, max);
    }
}

/// Where every parent up to a root is in the table, without a cycle and within
/// `max`, the chain is the whole way from that root down to the process, and
/// there is no warning.
pub proof fn whole_ancestry_is_shown(m: Map<Pid, ProcessView>, path: Seq<Pid>, max: int)
    requires
        leads_to_root(m, path),
        path.len() <= max,
    ensures
        ({
            let t = climb(m, seq![], path[0], max);
            let chain = root_first(m, t.pids);
            &&& trail_warnings(t).len() == 0
            &&& chain.len() == path.len()
            &&& chain[0] == m[path.last()]
            &&& chain.last() == m[path[0]]
            &&& forall|i: int|
                0 <= i < chain.len() ==> #[trigger] chain[i] == m[path[path.len() - 1 - i]]
        }),
{
    climb_follows(m, path, 0, max);
    assert(path.take(0) =~= seq![]);
}

/// A process with a parent in the table has the ancestry of that parent and
/// itself behind it, as long as no cycle and no limit comes in.
pub proof fn ancestry_extends_that_of_the_parent(
    m: Map<Pid, ProcessView>,
    path: Seq<Pid>,
    pid: Pid,
    max: int,
)
    requires
        leads_to_root(m, path),
        m.contains_key(pid),
        m[pid].ppid == Some(path[0]),
        path[0] > 0,
        !path.contains(pid),
        path.len() < max,
    ensures
        root_first(m, climb(m, seq![], pid, max).pids) == root_first(
            m,
            climb(m, seq![], path[0], max).pids,
        ).push(m[pid]),
{
    let longer = seq![pid] + path;
    assert forall|i: int| 0 <= i < longer.len() implies m.contains_key(#[trigger] longer[i]) by {
        if i > 0 {
            assert(longer[i] == path[i - 1]);
        }
    }
    assert forall|i: int, j: int|
        0 <= i < longer.len() && 0 <= j < longer.len() && i != j implies longer[i] != longer[j] by {
        if i == 0 {
            assert(path.contains(longer[j]));
        } else if j == 0 {
            assert(path.contains(longer[i]));
        } else {
            assert(longer[i] == path[i - 1] && longer[j] == path[j - 1]);
        }
    }
    assert forall|i: int| 0 <= i < longer.len() - 1 implies m[#[trigger] longer[i]].ppid == Some(
        longer[i + 1],
    ) && longer[i + 1] > 0 by {
        if i > 0 {
            assert(longer[i] == path[i - 1]);
            assert(longer[i + 1] == path[i]);
        }
    }
    assert(longer.last() == path.last());
    assert(longer.no_duplicates());
    whole_ancestry_is_shown(m, longer, max);
    whole_ancestry_is_shown(m, path, max);
    assert(longer[0] == pid);
    let a = root_first(m, climb(m, seq![], pid, max).pids);
    let b = root_first(m, climb(m, seq![], path[0], max).pids);
    assert forall|i: int| 0 <= i < a.len() implies a[i] == b.push(m[pid])[i] by {
        assert(a[i] == m[longer[longer.len() - 1 - i]]);
        if i < b.len() {
            assert(b[i] == m[path[path.len() - 1 - i]]);
        }
    }
    assert(a =~= b.push(m[pid]));
}

proof fn some_key_is_last(m: Map<Pid, ProcessView>, s: Set<Pid>) -> (k: Pid)
    requires
        s.finite(),
        s.len() > 0,
    ensures
        s.contains(k),
        forall|x: Pid| s.contains(x) && x != k ==> earlier(m, x, k),
    decreases s.len(),
{
    let a = s.choose();
    let rest = s.remove(a);
    if rest.len() == 0 {
        assert forall|x: Pid| s.contains(x) && x != a implies earlier(m, x, a) by {
            assert(rest.contains(x));
            vstd::set_lib::lemma_len_subset(set![x], rest);
        }
        a
    } else {
        let b = some_key_is_last(m, rest);
        if earlier(m, a, b) {
            b
        } else {
            assert forall|x: Pid| s.contains(x) && x != a implies earlier(m, x, a) by {
                if x != b {
                    assert(rest.contains(x));
                    assert(earlier(m, x, b));
                }
            }
            a
        }
    }
}

proof fn order_of_keys(m: Map<Pid, ProcessView>, s: Set<Pid>) -> (ks: Seq<Pid>)
    requires
        s.finite(),
    ensures
        forall|k: Pid| #[trigger] ks.contains(k) <==> s.contains(k),
        forall|i: int, j: int|
            0 <= i < j < ks.len() ==> earlier(m, #[trigger] ks[i], #[trigger] ks[j]),
    decreases s.len(),
{
    if s.len() == 0 {
        let ks = Seq::<Pid>::empty();
        assert forall|k: Pid| #[trigger] ks.contains(k) <==> s.contains(k) by {
            if s.contains(k) {
                vstd::set_lib::lemma_len_subset(set![k], s);
            }
        }
        ks
    } else {
        let k = some_key_is_last(m, s);
        let rest = order_of_keys(m, s.remove(k));
        let ks = rest.push(k);
        assert forall|x: Pid| #[trigger] ks.contains(x) <==> s.contains(x) by {
            if s.contains(x) && x != k {
                assert(rest.contains(x));
                let i = choose|i: int| 0 <= i < rest.len() && rest[i] == x;
                assert(ks[i] == x);
            }
            if x == k {
                assert(ks[rest.len() as int] == x);
            }
            if ks.contains(x) && x != k {
                let i = choose|i: int| 0 <= i < ks.len() && ks[i] == x;
                assert(rest[i] == x);
                assert(rest.contains(x));
            }
        }
        assert forall|i: int, j: int| 0 <= i < j < ks.len() implies earlier(
            m,
            #[trigger] ks[i],
            #[trigger] ks[j],
        ) by {
            assert(rest.contains(rest[i]));
            assert(ks[i] == rest[i]);
            if j < rest.len() {
                assert(ks[j] == rest[j]);
            }
        }
        ks
    }
}

/// Every table has an order of its keys.
pub proof fn tables_have_an_order(m: Map<Pid, ProcessView>)
    requires
        m.dom().finite(),
    ensures
        is_key_order(m, key_order(m)),
{
    let ks = order_of_keys(m, m.dom());
    assert(is_key_order(m, ks));
}

/// Whether each process of a table stands under its own pid.
pub open spec fn keyed_by_pid(m: Map<Pid, ProcessView>) -> bool {
    forall|k: Pid| #[trigger] m.contains_key(k) ==> m[k].pid == k
}

/// The children of a process are those of the table that name it as their
/// parent, each with its pid, its name and its command line, or its name
/// where it has none. They go up by pid, and none stands there twice.
pub proof fn children_name_their_parent(m: Map<Pid, ProcessView>, pid: Pid)
    requires
        m.dom().finite(),
        keyed_by_pid(m),
    ensures
        ({
            let cs = children_of(m, pid);
            &&& forall|k: Pid|
                #![trigger m.contains_key(k)]
                (m.contains_key(k) && k != pid && m[k].ppid == Some(pid)) <==> exists|i: int|
                    0 <= i < cs.len() && (#[trigger] cs[i]).pid == k
            &&& forall|i: int|
                0 <= i < cs.len() ==> (#[trigger] cs[i]).name == m[cs[i].pid].name && cs[i].command
                    == if m[cs[i].pid].cmdline.len() == 0 {
                    m[cs[i].pid].name
                } else {
                    text::join(m[cs[i].pid].cmdline, seq![' '])
                }
            &&& forall|i: int, j: int|
                0 <= i < j < cs.len() ==> (#[trigger] cs[i]).pid < (#[trigger] cs[j]).pid
        }),
{
    reveal_strlit(" ");
    assert(" "@ =~= seq![' ']);
    tables_have_an_order(m);
    let ks = key_order(m);
    let cs = children_of(m, pid);
    children_are_complete(m, ks, pid);
    children_rise(m, ks, pid, ks.len() as int);
    assert forall|k: Pid|
        #![trigger m.contains_key(k)]
        (m.contains_key(k) && k != pid && m[k].ppid == Some(pid)) <==> exists|i: int|
            0 <= i < cs.len() && (#[trigger] cs[i]).pid == k by {
        if m.contains_key(k) && k != pid && m[k].ppid == Some(pid) {
            assert(cs.contains(child_of(m[k])));
            let i = choose|i: int| 0 <= i < cs.len() && cs[i] == child_of(m[k]);
            assert(cs[i].pid == k);
        }
        if exists|i: int| 0 <= i < cs.len() && (#[trigger] cs[i]).pid == k {
            let i = choose|i: int| 0 <= i < cs.len() && (#[trigger] cs[i]).pid == k;
            assert(cs.contains(cs[i]));
        }
    }
    assert forall|i: int| 0 <= i < cs.len() implies (#[trigger] cs[i]).name == m[cs[i].pid].name
        && cs[i].command == if m[cs[i].pid].cmdline.len() == 0 {
        m[cs[i].pid].name
    } else {
        text::join(m[cs[i].pid].cmdline, seq![' '])
    } by {
        assert(cs.contains(cs[i]));
        let k = choose|k: Pid| #[trigger]
            m.contains_key(k) && m[k].ppid == Some(pid) && m[k].pid != pid && cs[i] == child_of(
                m[k],
            );
        assert(m[k].pid == k);
    }
}

proof fn children_rise(m: Map<Pid, ProcessView>, ks: Seq<Pid>, pid: Pid, n: int)
    requires
        is_key_order(m, ks),
        keyed_by_pid(m),
        0 <= n <= ks.len(),
    ensures
        ({
            let l = children_among(m, ks, pid, n);
            &&& forall|i: int, j: int|
                0 <= i < j < l.len() ==> (#[trigger] l[i]).pid < (#[trigger] l[j]).pid
            &&& forall|i: int|
                0 <= i < l.len() ==> n < ks.len() ==> (#[trigger] l[i]).pid < ks[n]
        }),
    decreases n,
{
    if n > 0 {
        children_rise(m, ks, pid, n - 1);
        let l = children_among(m, ks, pid, n);
        let g = children_among(m, ks, pid, n - 1);
        assert(ks.contains(ks[n - 1]));
        assert(m.contains_key(ks[n - 1]));
        if n < ks.len() {
            assert(earlier(m, ks[n - 1], ks[n]));
            assert(ks.contains(ks[n]));
            assert(m.contains_key(ks[n]));
        }
        assert forall|i: int, j: int| 0 <= i < j < l.len() implies (#[trigger] l[i]).pid < (
        #[trigger] l[j]).pid by {
            assert(l[i] == g[i]);
            if j < g.len() {
                assert(l[j] == g[j]);
            }
        }
        assert forall|i: int| 0 <= i < l.len() && n < ks.len() implies (#[trigger] l[i]).pid
            < ks[n] by {
            if i < g.len() {
                assert(l[i] == g[i]);
            }
        }
    }
}

} // verus!
