//! What holds of the process forest: it shows every process once, and no tree
//! of it is cut off.

use vstd::prelude::*;

use crate::model::{Pid, ProcessView};
use crate::render::TreeRow;
use crate::{model, order, render};

verus! {

// ---------- paths ----------

/// Whether a process with this pid hangs under `above`.
pub open spec fn step_down(procs: Seq<ProcessView>, above: Pid, pid: Pid) -> bool {
    exists|i: int|
        0 <= i < procs.len() && (#[trigger] procs[i]).pid == pid && render::hangs_under(
            procs,
            procs[i],
            above,
        )
}

/// Whether a root has this pid.
pub open spec fn is_root_pid(procs: Seq<ProcessView>, pid: Pid) -> bool {
    exists|i: int|
        0 <= i < procs.len() && (#[trigger] procs[i]).pid == pid && render::is_root(procs, procs[i])
}

/// Whether these pids lead down from a root.
pub open spec fn leads_down(procs: Seq<ProcessView>, path: Seq<Pid>) -> bool {
    &&& path.len() > 0
    &&& is_root_pid(procs, path[0])
    &&& forall|i: int| 0 < i < path.len() ==> step_down(procs, path[i - 1], #[trigger] path[i])
}

proof fn path_has_no_loop(procs: Seq<ProcessView>, path: Seq<Pid>, i: int, j: int)
    requires
        model::distinct_pids(procs),
        leads_down(procs, path),
        0 <= i < j < path.len(),
    ensures
        path[i] != path[j],
    decreases i,
{
    if path[i] == path[j] {
        assert(step_down(procs, path[j - 1], path[j]));
        let b = choose|b: int|
            0 <= b < procs.len() && (#[trigger] procs[b]).pid == path[j] && render::hangs_under(
                procs,
                procs[b],
                path[j - 1],
            );
        if i == 0 {
            let a = choose|a: int|
                0 <= a < procs.len() && (#[trigger] procs[a]).pid == path[0] && render::is_root(
                    procs,
                    procs[a],
                );
            assert(a == b);
        } else {
            assert(step_down(procs, path[i - 1], path[i]));
            let a = choose|a: int|
                0 <= a < procs.len() && (#[trigger] procs[a]).pid == path[i] && render::hangs_under(
                    procs,
                    procs[a],
                    path[i - 1],
                );
            assert(a == b);
            path_has_no_loop(procs, path, i - 1, j - 1);
        }
    }
}

proof fn path_is_short(procs: Seq<ProcessView>, path: Seq<Pid>)
    requires
        model::distinct_pids(procs),
        leads_down(procs, path),
    ensures
        path.len() <= procs.len(),
{
    let all = render::pids_of(procs);
    assert forall|i: int, j: int| 0 <= i < path.len() && 0 <= j < path.len() && i != j implies path[i]
        != path[j] by {
        if i < j {
            path_has_no_loop(procs, path, i, j);
        } else {
            path_has_no_loop(procs, path, j, i);
        }
    }
    assert(path.no_duplicates());
    path.unique_seq_to_set();
    all.lemma_cardinality_of_set();
    assert forall|x: Pid| path.to_set().contains(x) implies all.to_set().contains(x) by {
        let i = choose|i: int| 0 <= i < path.len() && path[i] == x;
        if i == 0 {
            let a = choose|a: int|
                0 <= a < procs.len() && (#[trigger] procs[a]).pid == path[0] && render::is_root(
                    procs,
                    procs[a],
                );
            assert(all[a] == x);
        } else {
            assert(step_down(procs, path[i - 1], path[i]));
            let a = choose|a: int|
                0 <= a < procs.len() && (#[trigger] procs[a]).pid == path[i] && render::hangs_under(
                    procs,
                    procs[a],
                    path[i - 1],
                );
            assert(all[a] == x);
        }
    }
    vstd::set_lib::lemma_len_subset(path.to_set(), all.to_set());
}

proof fn kids_hang_under(procs: Seq<ProcessView>, pid: Pid, n: int, k: int)
    requires
        0 <= n <= procs.len(),
        0 <= k < render::kids_among(procs, pid, n).len(),
    ensures
        step_down(procs, pid, render::kids_among(procs, pid, n)[k]),
    decreases n,
{
    if k < render::kids_among(procs, pid, n - 1).len() {
        kids_hang_under(procs, pid, n - 1, k);
    } else {
        assert(procs[n - 1].pid == render::kids_among(procs, pid, n)[k]);
    }
}

proof fn kids_are_few(procs: Seq<ProcessView>, pid: Pid, n: int)
    requires
        0 <= n <= procs.len(),
    ensures
        render::kids_among(procs, pid, n).len() <= n,
    decreases n,
{
    if n > 0 {
        kids_are_few(procs, pid, n - 1);
    }
}

proof fn ascending_only_moves(pids: Seq<Pid>, k: int)
    requires
        pids.len() <= usize::MAX,
        0 <= k < render::ascending(pids).len(),
    ensures
        pids.contains(render::ascending(pids)[k]),
{
    let idx = order::all_positions(pids.len());
    order::sorting_is_stable(idx, render::pid_keys(pids), false);
    let s = render::pid_order(pids);
    assert(s.contains(s[k]));
    assert(idx.contains(s[k]));
    assert(pids[s[k] as int] == render::ascending(pids)[k]);
}

proof fn branch_needs_no_more(
    procs: Seq<ProcessView>,
    path: Seq<Pid>,
    prefix: Seq<char>,
    is_root: bool,
    is_last: bool,
    a: nat,
    b: nat,
)
    requires
        procs.len() <= usize::MAX,
        model::distinct_pids(procs),
        leads_down(procs, path),
        a + path.len() > procs.len(),
        b + path.len() > procs.len(),
    ensures
        render::branch(procs, path.last(), prefix, is_root, is_last, a) == render::branch(
            procs,
            path.last(),
            prefix,
            is_root,
            is_last,
            b,
        ),
    decreases procs.len() - path.len(), render::kids(procs, path.last()).len() + 1,
{
    path_is_short(procs, path);
    let ks = render::kids(procs, path.last());
    branches_need_no_more(
        procs,
        path,
        render::deeper(prefix, is_root, is_last),
        (a - 1) as nat,
        (b - 1) as nat,
        ks.len(),
    );
}

proof fn kid_leads_down(procs: Seq<ProcessView>, path: Seq<Pid>, k: int)
    requires
        procs.len() <= usize::MAX,
        model::distinct_pids(procs),
        leads_down(procs, path),
        0 <= k < render::kids(procs, path.last()).len(),
    ensures
        leads_down(procs, path.push(render::kids(procs, path.last())[k])),
{
    let pid = path.last();
    let ks = render::kids(procs, pid);
    let found = render::kids_among(procs, pid, procs.len() as int);
    kids_are_few(procs, pid, procs.len() as int);
    ascending_only_moves(found, k);
    let j = choose|j: int| 0 <= j < found.len() && found[j] == ks[k];
    kids_hang_under(procs, pid, procs.len() as int, j);
    let longer = path.push(ks[k]);
    assert forall|i: int| 0 < i < longer.len() implies step_down(
        procs,
        longer[i - 1],
        #[trigger] longer[i],
    ) by {
        if i < path.len() {
            assert(step_down(procs, path[i - 1], path[i]));
        }
    }
}

proof fn branches_need_no_more(
    procs: Seq<ProcessView>,
    path: Seq<Pid>,
    prefix: Seq<char>,
    a: nat,
    b: nat,
    n: nat,
)
    requires
        procs.len() <= usize::MAX,
        model::distinct_pids(procs),
        leads_down(procs, path),
        path.len() <= procs.len(),
        a + path.len() >= procs.len(),
        b + path.len() >= procs.len(),
        n <= render::kids(procs, path.last()).len(),
    ensures
        render::branches(procs, render::kids(procs, path.last()), prefix, a, n)
            == render::branches(procs, render::kids(procs, path.last()), prefix, b, n),
    decreases procs.len() - path.len(), n,
{
    if n > 0 {
        branches_need_no_more(procs, path, prefix, a, b, (n - 1) as nat);
        let ks = render::kids(procs, path.last());
        kid_leads_down(procs, path, n - 1);
        let longer = path.push(ks[n - 1]);
        path_is_short(procs, longer);
        branch_needs_no_more(procs, longer, prefix, false, n == ks.len(), a, b);
        assert(longer.last() == ks[n - 1]);
    }
}

/// Where every process has a pid of its own, no tree is cut off: as many
/// levels as there are processes show all that any greater depth would show.
pub proof fn forest_shows_whole_trees(procs: Seq<ProcessView>, root: Pid, depth: nat)
    requires
        procs.len() <= usize::MAX,
        model::distinct_pids(procs),
        is_root_pid(procs, root),
        depth >= procs.len(),
    ensures
        render::branch(procs, root, ""@, true, true, procs.len()) == render::branch(
            procs,
            root,
            ""@,
            true,
            true,
            depth,
        ),
{
    let path = seq![root];
    assert(leads_down(procs, path));
    branch_needs_no_more(procs, path, ""@, true, true, procs.len(), depth);
    assert(path.last() == root);
}

// ---------- the way up ----------

proof fn last_is_the_one(procs: Seq<ProcessView>, i: int, n: int)
    requires
        model::distinct_pids(procs),
        0 <= i < n <= procs.len(),
    ensures
        render::last_with(procs, procs[i].pid, n) == i,
    decreases n,
{
    if i < n - 1 {
        assert(procs[i].pid != procs[n - 1].pid);
        last_is_the_one(procs, i, n - 1);
    }
}

proof fn last_with_has_the_pid(procs: Seq<ProcessView>, pid: Pid, n: int)
    requires
        0 <= n <= procs.len(),
    ensures
        -1 <= render::last_with(procs, pid, n) < n,
        render::last_with(procs, pid, n) >= 0 ==> procs[render::last_with(procs, pid, n)].pid
            == pid,
    decreases n,
{
    if n > 0 {
        last_with_has_the_pid(procs, pid, n - 1);
    }
}

proof fn root_pids(procs: Seq<ProcessView>, pid: Pid)
    requires
        model::distinct_pids(procs),
    ensures
        is_root_pid(procs, pid) <==> render::has_pid(procs, pid) && (render::parent_of(procs, pid)
            is None || render::heads_circle(procs, pid)),
        render::parent_of(procs, pid) matches Some(q) ==> render::has_pid(procs, pid)
            && render::has_pid(procs, q),
        render::parent_of(procs, pid) is Some && !render::heads_circle(procs, pid) ==> step_down(
            procs,
            render::parent_of(procs, pid)->0,
            pid,
        ),
{
    let n = procs.len() as int;
    let i = render::last_with(procs, pid, n);
    last_with_has_the_pid(procs, pid, n);
    if is_root_pid(procs, pid) {
        let j = choose|j: int|
            0 <= j < procs.len() && (#[trigger] procs[j]).pid == pid && render::is_root(
                procs,
                procs[j],
            );
        last_is_the_one(procs, j, n);
    }
    if render::has_pid(procs, pid) {
        let j = choose|j: int| 0 <= j < procs.len() && (#[trigger] procs[j]).pid == pid;
        last_is_the_one(procs, j, n);
        assert(i == j);
        assert(procs[i].pid == pid);
        if render::parent_of(procs, pid) is None || render::heads_circle(procs, pid) {
            assert(render::is_root(procs, procs[i]));
        }
    }
    if render::parent_of(procs, pid) is Some {
        assert(procs[i].pid == pid);
    }
}

/// The pid `k` steps up from `pid`.
pub open spec fn climb(procs: Seq<ProcessView>, pid: Pid, k: nat) -> Option<Pid>
    decreases k,
{
    if k == 0 {
        Some(pid)
    } else {
        match climb(procs, pid, (k - 1) as nat) {
            Some(q) => render::parent_of(procs, q),
            None => None,
        }
    }
}

proof fn climbs_join(procs: Seq<ProcessView>, pid: Pid, a: nat, b: nat)
    requires
        climb(procs, pid, a) is Some,
    ensures
        climb(procs, pid, a + b) == climb(procs, climb(procs, pid, a)->0, b),
    decreases b,
{
    if b > 0 {
        climbs_join(procs, pid, a, (b - 1) as nat);
        assert(a + b - 1 == a + (b - 1) as nat);
    }
}

/// Whether the first `k` steps up from `pid` lead past no root.
pub open spec fn rootless(procs: Seq<ProcessView>, pid: Pid, k: nat) -> bool {
    forall|j: nat|
        j <= k ==> (#[trigger] climb(procs, pid, j)) is Some && !is_root_pid(
            procs,
            climb(procs, pid, j)->0,
        )
}

proof fn lowest(s: Seq<Pid>, a: int, b: int) -> (m: int)
    requires
        0 <= a < b <= s.len(),
    ensures
        a <= m < b,
        forall|i: int| a <= i < b ==> s[m] <= #[trigger] s[i],
    decreases b - a,
{
    if a == b - 1 {
        a
    } else {
        let m = lowest(s, a, b - 1);
        if s[b - 1] < s[m] {
            b - 1
        } else {
            m
        }
    }
}

proof fn goes_round(procs: Seq<ProcessView>, y: Pid, j: nat, len: nat, steps: nat)
    requires
        j < len,
        climb(procs, y, len) == Some(y),
        forall|i: nat|
            i <= len ==> (#[trigger] climb(procs, y, i)) is Some && climb(procs, y, i)->0 >= y,
        steps + j + 1 >= len,
    ensures
        render::comes_to(procs, y, climb(procs, y, j)->0, steps),
    decreases len - j,
{
    assert(climb(procs, y, j) is Some);
    let q = climb(procs, y, (j + 1) as nat);
    assert(q is Some && q->0 >= y);
    assert(q == render::parent_of(procs, climb(procs, y, j)->0));
    if q->0 != y {
        assert(j + 1 < len);
        goes_round(procs, y, (j + 1) as nat, len, (steps - 1) as nat);
    }
}

proof fn repeats(procs: Seq<ProcessView>, s: Seq<Pid>) -> (r: (int, int))
    requires
        s.len() > procs.len(),
        forall|i: int| 0 <= i < s.len() ==> render::has_pid(procs, #[trigger] s[i]),
    ensures
        0 <= r.0 < r.1 < s.len(),
        s[r.0] == s[r.1],
{
    let all = render::pids_of(procs);
    if s.no_duplicates() {
        s.unique_seq_to_set();
        all.lemma_cardinality_of_set();
        assert forall|x: Pid| s.to_set().contains(x) implies all.to_set().contains(x) by {
            let i = choose|i: int| 0 <= i < s.len() && s[i] == x;
            assert(render::has_pid(procs, s[i]));
            let j = choose|j: int| 0 <= j < procs.len() && (#[trigger] procs[j]).pid == x;
            assert(all[j] == x);
        }
        vstd::set_lib::lemma_len_subset(s.to_set(), all.to_set());
        assert(false);
    }
    let (i, j) = choose|i: int, j: int|
        0 <= i < s.len() && 0 <= j < s.len() && i != j && s[i] == s[j];
    if i < j {
        (i, j)
    } else {
        (j, i)
    }
}

/// The way up from a process comes to a root.
proof fn comes_to_a_root(procs: Seq<ProcessView>, pid: Pid)
    requires
        model::distinct_pids(procs),
        render::has_pid(procs, pid),
    ensures
        !rootless(procs, pid, procs.len()),
{
    let n = procs.len();
    if rootless(procs, pid, n) {
        let s = Seq::new((n + 1) as nat, |k: int| climb(procs, pid, k as nat)->0);
        assert forall|i: int| 0 <= i < s.len() implies render::has_pid(procs, #[trigger] s[i]) by {
            assert(climb(procs, pid, i as nat) is Some);
            if i > 0 {
                assert(climb(procs, pid, (i - 1) as nat) is Some);
                root_pids(procs, climb(procs, pid, (i - 1) as nat)->0);
            }
        }
        let (a, b) = repeats(procs, s);
        let m = lowest(s, a, b);
        let y = s[m];
        let len = (b - a) as nat;
        assert(climb(procs, pid, m as nat) == Some(y));
        assert(climb(procs, pid, a as nat) == Some(s[a]));
        assert(climb(procs, pid, b as nat) == Some(s[b]));
        assert forall|i: nat| i <= len implies (#[trigger] climb(procs, y, i)) is Some && climb(
            procs,
            y,
            i,
        )->0 >= y by {
            climbs_join(procs, pid, m as nat, i);
            if m + i < b {
                assert(climb(procs, pid, (m + i) as nat) == Some(s[m + i]));
            } else {
                let d = (m + i - b) as nat;
                climbs_join(procs, pid, b as nat, d);
                climbs_join(procs, pid, a as nat, d);
                assert(climb(procs, pid, (a + d) as nat) == Some(s[a + d]));
                assert(b as nat + d == m as nat + i);
            }
        }
        climbs_join(procs, pid, m as nat, len);
        let d = (m - a) as nat;
        climbs_join(procs, pid, b as nat, d);
        climbs_join(procs, pid, a as nat, d);
        assert(b as nat + d == m as nat + len);
        assert(a as nat + d == m as nat);
        assert(climb(procs, y, len) == Some(y));
        goes_round(procs, y, 0, len, n);
        assert(render::heads_circle(procs, y));
        assert(render::has_pid(procs, s[m]));
        root_pids(procs, y);
        assert(is_root_pid(procs, climb(procs, pid, m as nat)->0));
    }
}

/// The first root on the way up from a process.
proof fn first_root(procs: Seq<ProcessView>, pid: Pid, k: nat) -> (r: nat)
    requires
        !rootless(procs, pid, k),
        model::distinct_pids(procs),
        render::has_pid(procs, pid),
    ensures
        climb(procs, pid, r) is Some,
        is_root_pid(procs, climb(procs, pid, r)->0),
        r > 0 ==> rootless(procs, pid, (r - 1) as nat),
    decreases k,
{
    if k == 0 {
        let j = choose|j: nat|
            j <= k && !((#[trigger] climb(procs, pid, j)) is Some && !is_root_pid(
                procs,
                climb(procs, pid, j)->0,
            ));
        assert(j == 0);
        0
    } else if !rootless(procs, pid, (k - 1) as nat) {
        first_root(procs, pid, (k - 1) as nat)
    } else {
        let j = choose|j: nat|
            j <= k && !((#[trigger] climb(procs, pid, j)) is Some && !is_root_pid(
                procs,
                climb(procs, pid, j)->0,
            ));
        assert(j == k);
        let below = climb(procs, pid, (k - 1) as nat);
        assert(below is Some && !is_root_pid(procs, below->0));
        listed_on_the_way(procs, pid, (k - 1) as nat);
        root_pids(procs, below->0);
        k
    }
}

proof fn listed_on_the_way(procs: Seq<ProcessView>, pid: Pid, k: nat)
    requires
        model::distinct_pids(procs),
        render::has_pid(procs, pid),
        climb(procs, pid, k) is Some,
    ensures
        render::has_pid(procs, climb(procs, pid, k)->0),
{
    if k > 0 {
        root_pids(procs, climb(procs, pid, (k - 1) as nat)->0);
    }
}

/// The path from a root down to a process.
proof fn path_to(procs: Seq<ProcessView>, pid: Pid) -> (path: Seq<Pid>)
    requires
        model::distinct_pids(procs),
        render::has_pid(procs, pid),
    ensures
        leads_down(procs, path),
        path.last() == pid,
{
    comes_to_a_root(procs, pid);
    let k = first_root(procs, pid, procs.len());
    let path = Seq::new((k + 1) as nat, |i: int| climb(procs, pid, (k - i) as nat)->0);
    assert(path.last() == pid);
    assert forall|i: int| 0 < i < path.len() implies step_down(
        procs,
        path[i - 1],
        #[trigger] path[i],
    ) by {
        let c = climb(procs, pid, (k - i) as nat);
        assert(c is Some && !is_root_pid(procs, c->0));
        listed_on_the_way(procs, pid, (k - i) as nat);
        root_pids(procs, c->0);
        assert(climb(procs, pid, (k - i + 1) as nat) == render::parent_of(procs, c->0));
    }
    path
}

proof fn one_path(procs: Seq<ProcessView>, p: Seq<Pid>, q: Seq<Pid>)
    requires
        model::distinct_pids(procs),
        leads_down(procs, p),
        leads_down(procs, q),
        p.last() == q.last(),
    ensures
        p == q,
    decreases p.len(),
{
    if p.len() == 1 && q.len() == 1 {
        assert(p =~= q);
    } else if p.len() == 1 || q.len() == 1 {
        let long = if p.len() == 1 {
            q
        } else {
            p
        };
        let short = if p.len() == 1 {
            p
        } else {
            q
        };
        assert(step_down(procs, long[long.len() - 2], long[long.len() - 1]));
        let b = choose|b: int|
            0 <= b < procs.len() && (#[trigger] procs[b]).pid == long.last()
                && render::hangs_under(procs, procs[b], long[long.len() - 2]);
        let a = choose|a: int|
            0 <= a < procs.len() && (#[trigger] procs[a]).pid == short[0] && render::is_root(
                procs,
                procs[a],
            );
        assert(a == b);
    } else {
        assert(step_down(procs, p[p.len() - 2], p[p.len() - 1]));
        assert(step_down(procs, q[q.len() - 2], q[q.len() - 1]));
        let a = choose|a: int|
            0 <= a < procs.len() && (#[trigger] procs[a]).pid == p.last() && render::hangs_under(
                procs,
                procs[a],
                p[p.len() - 2],
            );
        let b = choose|b: int|
            0 <= b < procs.len() && (#[trigger] procs[b]).pid == q.last() && render::hangs_under(
                procs,
                procs[b],
                q[q.len() - 2],
            );
        assert(a == b);
        let p1 = p.drop_last();
        let q1 = q.drop_last();
        assert forall|i: int| 0 < i < p1.len() implies step_down(
            procs,
            p1[i - 1],
            #[trigger] p1[i],
        ) by {
            assert(step_down(procs, p[i - 1], p[i]));
        }
        assert forall|i: int| 0 < i < q1.len() implies step_down(
            procs,
            q1[i - 1],
            #[trigger] q1[i],
        ) by {
            assert(step_down(procs, q[i - 1], q[i]));
        }
        one_path(procs, p1, q1);
        assert(p =~= p1.push(p.last()));
        assert(q =~= q1.push(q.last()));
    }
}

// ---------- the rows ----------

/// Whether a row shows this pid.
pub open spec fn shows(rows: Seq<TreeRow>, pid: Pid) -> bool {
    exists|i: int| 0 <= i < rows.len() && (#[trigger] rows[i]).pid == pid
}

/// Whether no two rows show one pid.
pub open spec fn shows_once(rows: Seq<TreeRow>) -> bool {
    forall|i: int, j: int|
        0 <= i < j < rows.len() ==> (#[trigger] rows[i]).pid != (#[trigger] rows[j]).pid
}

proof fn all_stay(pids: Seq<Pid>, pid: Pid) -> (k: int)
    requires
        pids.len() <= usize::MAX,
        pids.contains(pid),
    ensures
        0 <= k < render::ascending(pids).len(),
        render::ascending(pids)[k] == pid,
{
    let idx = order::all_positions(pids.len());
    order::sorting_is_stable(idx, render::pid_keys(pids), false);
    let s = render::pid_order(pids);
    let i = choose|i: int| 0 <= i < pids.len() && pids[i] == pid;
    assert(idx[i] == i as usize);
    assert(idx.contains(i as usize));
    assert(s.contains(i as usize));
    let k = choose|k: int| 0 <= k < s.len() && s[k] == i as usize;
    k
}

proof fn ascending_keeps_distinct(pids: Seq<Pid>)
    requires
        pids.len() <= usize::MAX,
        pids.no_duplicates(),
    ensures
        render::ascending(pids).no_duplicates(),
{
    let idx = order::all_positions(pids.len());
    let keys = render::pid_keys(pids);
    order::sorting_is_stable(idx, keys, false);
    let s = render::pid_order(pids);
    let r = render::ascending(pids);
    s.lemma_cardinality_of_set();
    idx.unique_seq_to_set();
    assert(s.to_set() =~= idx.to_set());
    s.lemma_no_dup_set_cardinality();
    assert forall|i: int, j: int| 0 <= i < r.len() && 0 <= j < r.len() && i != j implies r[i]
        != r[j] by {
        assert(s[i] != s[j]);
        assert(s.contains(s[i]) && s.contains(s[j]));
        assert(idx.contains(s[i]) && idx.contains(s[j]));
        assert(pids[s[i] as int] != pids[s[j] as int]);
    }
}

proof fn kids_stand_once(procs: Seq<ProcessView>, pid: Pid, n: int)
    requires
        model::distinct_pids(procs),
        0 <= n <= procs.len(),
    ensures
        render::kids_among(procs, pid, n).no_duplicates(),
        forall|x: Pid| #[trigger]
            render::kids_among(procs, pid, n).contains(x) <==> exists|i: int|
                0 <= i < n && (#[trigger] procs[i]).pid == x && render::hangs_under(
                    procs,
                    procs[i],
                    pid,
                ),
    decreases n,
{
    if n > 0 {
        kids_stand_once(procs, pid, n - 1);
        let a = render::kids_among(procs, pid, n - 1);
        let b = render::kids_among(procs, pid, n);
        let x = procs[n - 1].pid;
        if a.contains(x) {
            let i = choose|i: int|
                0 <= i < n - 1 && (#[trigger] procs[i]).pid == x && render::hangs_under(
                    procs,
                    procs[i],
                    pid,
                );
            assert(procs[i].pid != procs[n - 1].pid);
        }
        assert forall|y: Pid| #[trigger] b.contains(y) <==> exists|i: int|
            0 <= i < n && (#[trigger] procs[i]).pid == y && render::hangs_under(
                procs,
                procs[i],
                pid,
            ) by {
            pushed_contains(a, x, y);
            if a.contains(y) {
                let i = choose|i: int|
                    0 <= i < n - 1 && (#[trigger] procs[i]).pid == y && render::hangs_under(
                        procs,
                        procs[i],
                        pid,
                    );
                assert(procs[i].pid == y);
            }
        }
    }
}

proof fn pushed_contains(a: Seq<Pid>, x: Pid, y: Pid)
    ensures
        a.push(x).contains(y) <==> a.contains(y) || x == y,
{
    if a.contains(y) {
        let i = choose|i: int| 0 <= i < a.len() && a[i] == y;
        assert(a.push(x)[i] == y);
    }
    if x == y {
        assert(a.push(x)[a.len() as int] == y);
    }
}

proof fn roots_stand_once(procs: Seq<ProcessView>, n: int)
    requires
        model::distinct_pids(procs),
        0 <= n <= procs.len(),
    ensures
        render::roots_among(procs, n).no_duplicates(),
        render::roots_among(procs, n).len() <= n,
        forall|x: Pid| #[trigger]
            render::roots_among(procs, n).contains(x) <==> exists|i: int|
                0 <= i < n && (#[trigger] procs[i]).pid == x && render::is_root(procs, procs[i]),
    decreases n,
{
    if n > 0 {
        roots_stand_once(procs, n - 1);
        let a = render::roots_among(procs, n - 1);
        let b = render::roots_among(procs, n);
        let x = procs[n - 1].pid;
        if a.contains(x) {
            let i = choose|i: int|
                0 <= i < n - 1 && (#[trigger] procs[i]).pid == x && render::is_root(
                    procs,
                    procs[i],
                );
            assert(procs[i].pid != procs[n - 1].pid);
        }
        assert forall|y: Pid| #[trigger] b.contains(y) <==> exists|i: int|
            0 <= i < n && (#[trigger] procs[i]).pid == y && render::is_root(procs, procs[i]) by {
            pushed_contains(a, x, y);
            if a.contains(y) {
                let i = choose|i: int|
                    0 <= i < n - 1 && (#[trigger] procs[i]).pid == y && render::is_root(
                        procs,
                        procs[i],
                    );
                assert(procs[i].pid == y);
            }
        }
    }
}

proof fn kids_are_distinct(procs: Seq<ProcessView>, pid: Pid)
    requires
        procs.len() <= usize::MAX,
        model::distinct_pids(procs),
    ensures
        render::kids(procs, pid).no_duplicates(),
{
    kids_stand_once(procs, pid, procs.len() as int);
    kids_are_few(procs, pid, procs.len() as int);
    ascending_keeps_distinct(render::kids_among(procs, pid, procs.len() as int));
}

proof fn branch_is_in_branches(
    procs: Seq<ProcessView>,
    ks: Seq<Pid>,
    prefix: Seq<char>,
    depth: nat,
    n: nat,
    k: int,
    pid: Pid,
)
    requires
        0 <= k < n <= ks.len(),
        shows(
            render::branch(procs, ks[k], prefix, false, k + 1 == ks.len(), depth),
            pid,
        ),
    ensures
        shows(render::branches(procs, ks, prefix, depth, n), pid),
    decreases n,
{
    let a = render::branches(procs, ks, prefix, depth, (n - 1) as nat);
    let b = render::branch(procs, ks[n - 1], prefix, false, n == ks.len(), depth);
    let rows = render::branches(procs, ks, prefix, depth, n);
    if k < n - 1 {
        branch_is_in_branches(procs, ks, prefix, depth, (n - 1) as nat, k, pid);
        let i = choose|i: int| 0 <= i < a.len() && (#[trigger] a[i]).pid == pid;
        assert(rows[i].pid == pid);
    } else {
        let i = choose|i: int| 0 <= i < b.len() && (#[trigger] b[i]).pid == pid;
        assert(rows[a.len() + i].pid == pid);
    }
}

proof fn path_is_shown(
    procs: Seq<ProcessView>,
    path: Seq<Pid>,
    i: int,
    prefix: Seq<char>,
    is_root: bool,
    is_last: bool,
    depth: nat,
)
    requires
        procs.len() <= usize::MAX,
        model::distinct_pids(procs),
        leads_down(procs, path),
        0 <= i < path.len(),
        depth + i >= path.len(),
    ensures
        shows(render::branch(procs, path[i], prefix, is_root, is_last, depth), path.last()),
    decreases path.len() - i,
{
    let rows = render::branch(procs, path[i], prefix, is_root, is_last, depth);
    if i == path.len() - 1 {
        assert(rows[0].pid == path.last());
    } else {
        let ks = render::kids(procs, path[i]);
        let found = render::kids_among(procs, path[i], procs.len() as int);
        assert(step_down(procs, path[i], path[i + 1]));
        kids_stand_once(procs, path[i], procs.len() as int);
        kids_are_few(procs, path[i], procs.len() as int);
        let j = choose|j: int|
            0 <= j < procs.len() && (#[trigger] procs[j]).pid == path[i + 1]
                && render::hangs_under(procs, procs[j], path[i]);
        assert(procs[j].pid == path[i + 1]);
        assert(found.contains(path[i + 1]));
        let k = all_stay(found, path[i + 1]);
        let inner = render::deeper(prefix, is_root, is_last);
        path_is_shown(procs, path, i + 1, inner, false, k + 1 == ks.len(), (depth - 1) as nat);
        branch_is_in_branches(procs, ks, inner, (depth - 1) as nat, ks.len(), k, path.last());
        let below = render::branches(procs, ks, inner, (depth - 1) as nat, ks.len());
        let x = choose|x: int| 0 <= x < below.len() && (#[trigger] below[x]).pid == path.last();
        assert(rows[x + 1].pid == path.last());
    }
}

/// Every row below a process lies on a path through it.
proof fn rows_have_paths(
    procs: Seq<ProcessView>,
    path: Seq<Pid>,
    prefix: Seq<char>,
    is_root: bool,
    is_last: bool,
    depth: nat,
    i: int,
) -> (r: Seq<Pid>)
    requires
        procs.len() <= usize::MAX,
        model::distinct_pids(procs),
        leads_down(procs, path),
        0 <= i < render::branch(procs, path.last(), prefix, is_root, is_last, depth).len(),
    ensures
        leads_down(procs, r),
        path.len() <= r.len(),
        r.take(path.len() as int) == path,
        r.last() == render::branch(procs, path.last(), prefix, is_root, is_last, depth)[i].pid,
    decreases depth, 0nat,
{
    if i == 0 {
        assert(path.take(path.len() as int) =~= path);
        path
    } else {
        let ks = render::kids(procs, path.last());
        let (r, k) = lower_rows_have_paths(
            procs,
            path,
            render::deeper(prefix, is_root, is_last),
            (depth - 1) as nat,
            ks.len(),
            i - 1,
        );
        r
    }
}

proof fn lower_rows_have_paths(
    procs: Seq<ProcessView>,
    path: Seq<Pid>,
    prefix: Seq<char>,
    depth: nat,
    n: nat,
    i: int,
) -> (r: (Seq<Pid>, int))
    requires
        procs.len() <= usize::MAX,
        model::distinct_pids(procs),
        leads_down(procs, path),
        n <= render::kids(procs, path.last()).len(),
        0 <= i < render::branches(
            procs,
            render::kids(procs, path.last()),
            prefix,
            depth,
            n,
        ).len(),
    ensures
        leads_down(procs, r.0),
        path.len() < r.0.len(),
        r.0.take(path.len() as int) == path,
        0 <= r.1 < n,
        r.0[path.len() as int] == render::kids(procs, path.last())[r.1],
        r.0.last() == render::branches(
            procs,
            render::kids(procs, path.last()),
            prefix,
            depth,
            n,
        )[i].pid,
    decreases depth, n + 1,
{
    let ks = render::kids(procs, path.last());
    let a = render::branches(procs, ks, prefix, depth, (n - 1) as nat);
    if i < a.len() {
        lower_rows_have_paths(procs, path, prefix, depth, (n - 1) as nat, i)
    } else {
        kid_leads_down(procs, path, n - 1);
        let longer = path.push(ks[n - 1]);
        assert(longer.last() == ks[n - 1]);
        let r = rows_have_paths(
            procs,
            longer,
            prefix,
            false,
            n == ks.len(),
            depth,
            i - a.len(),
        );
        assert(forall|x: int|
            0 <= x < longer.len() ==> r[x] == #[trigger] r.take(longer.len() as int)[x]);
        assert(r.take(path.len() as int) =~= longer.take(path.len() as int));
        assert(longer.take(path.len() as int) =~= path);
        assert(r[path.len() as int] == r.take(longer.len() as int)[path.len() as int]);
        (r, n - 1)
    }
}

proof fn both_show_once(a: Seq<TreeRow>, b: Seq<TreeRow>)
    requires
        shows_once(a),
        shows_once(b),
        forall|i: int, j: int|
            0 <= i < a.len() && 0 <= j < b.len() ==> (#[trigger] a[i]).pid != (
            #[trigger] b[j]).pid,
    ensures
        shows_once(a + b),
{
    let c = a + b;
    assert forall|i: int, j: int| 0 <= i < j < c.len() implies (#[trigger] c[i]).pid != (
    #[trigger] c[j]).pid by {
        if j < a.len() {
            assert(a[i].pid != a[j].pid);
        } else if i < a.len() {
            assert(a[i].pid != b[j - a.len()].pid);
        } else {
            assert(b[i - a.len()].pid != b[j - a.len()].pid);
        }
    }
}

proof fn branch_shows_once(
    procs: Seq<ProcessView>,
    path: Seq<Pid>,
    prefix: Seq<char>,
    is_root: bool,
    is_last: bool,
    depth: nat,
)
    requires
        procs.len() <= usize::MAX,
        model::distinct_pids(procs),
        leads_down(procs, path),
    ensures
        shows_once(render::branch(procs, path.last(), prefix, is_root, is_last, depth)),
    decreases depth, 0nat,
{
    if depth > 0 {
        let pid = path.last();
        let ks = render::kids(procs, pid);
        let inner = render::deeper(prefix, is_root, is_last);
        let d = (depth - 1) as nat;
        branches_show_once(procs, path, inner, d, ks.len());
        let a = seq![TreeRow { pid, prefix, is_root, is_last }];
        let b = render::branches(procs, ks, inner, d, ks.len());
        assert forall|i: int, j: int| 0 <= i < a.len() && 0 <= j < b.len() implies (
        #[trigger] a[i]).pid != (#[trigger] b[j]).pid by {
            let (r, k) = lower_rows_have_paths(procs, path, inner, d, ks.len(), j);
            if r.last() == pid {
                one_path(procs, r, path);
            }
        }
        both_show_once(a, b);
    }
}

proof fn branches_show_once(
    procs: Seq<ProcessView>,
    path: Seq<Pid>,
    prefix: Seq<char>,
    depth: nat,
    n: nat,
)
    requires
        procs.len() <= usize::MAX,
        model::distinct_pids(procs),
        leads_down(procs, path),
        n <= render::kids(procs, path.last()).len(),
    ensures
        shows_once(
            render::branches(procs, render::kids(procs, path.last()), prefix, depth, n),
        ),
    decreases depth, n + 1,
{
    if n > 0 {
        let ks = render::kids(procs, path.last());
        branches_show_once(procs, path, prefix, depth, (n - 1) as nat);
        kid_leads_down(procs, path, n - 1);
        let longer = path.push(ks[n - 1]);
        assert(longer.last() == ks[n - 1]);
        branch_shows_once(procs, longer, prefix, false, n == ks.len(), depth);
        let a = render::branches(procs, ks, prefix, depth, (n - 1) as nat);
        let b = render::branch(procs, ks[n - 1], prefix, false, n == ks.len(), depth);
        kids_are_distinct(procs, path.last());
        assert forall|i: int, j: int| 0 <= i < a.len() && 0 <= j < b.len() implies (
        #[trigger] a[i]).pid != (#[trigger] b[j]).pid by {
            let (p, k) = lower_rows_have_paths(procs, path, prefix, depth, (n - 1) as nat, i);
            let q = rows_have_paths(procs, longer, prefix, false, n == ks.len(), depth, j);
            if a[i].pid == b[j].pid {
                one_path(procs, p, q);
                assert(q[path.len() as int] == q.take(longer.len() as int)[path.len() as int]);
                assert(ks[k] == ks[n - 1]);
            }
        }
        both_show_once(a, b);
    }
}

proof fn root_is_a_path(procs: Seq<ProcessView>, k: int) -> (path: Seq<Pid>)
    requires
        procs.len() <= usize::MAX,
        model::distinct_pids(procs),
        0 <= k < render::roots(procs).len(),
    ensures
        leads_down(procs, path),
        path == seq![render::roots(procs)[k]],
        path.last() == render::roots(procs)[k],
{
    let found = render::roots_among(procs, procs.len() as int);
    roots_stand_once(procs, procs.len() as int);
    ascending_only_moves(found, k);
    let r = render::roots(procs)[k];
    assert(found.contains(r));
    assert(is_root_pid(procs, r));
    seq![r]
}

proof fn tree_rows_have_roots(procs: Seq<ProcessView>, n: int, i: int) -> (r: (Seq<Pid>, int))
    requires
        procs.len() <= usize::MAX,
        model::distinct_pids(procs),
        0 <= n <= render::roots(procs).len(),
        0 <= i < render::trees(procs, render::roots(procs), n).len(),
    ensures
        leads_down(procs, r.0),
        0 <= r.1 < n,
        r.0[0] == render::roots(procs)[r.1],
        r.0.last() == render::trees(procs, render::roots(procs), n)[i].pid,
    decreases n,
{
    let rs = render::roots(procs);
    let a = render::trees(procs, rs, n - 1);
    if i < a.len() {
        tree_rows_have_roots(procs, n - 1, i)
    } else {
        let path = root_is_a_path(procs, n - 1);
        let r = rows_have_paths(procs, path, ""@, true, true, procs.len(), i - a.len());
        assert(r[0] == r.take(1)[0]);
        (r, n - 1)
    }
}

proof fn trees_show_once(procs: Seq<ProcessView>, n: int)
    requires
        procs.len() <= usize::MAX,
        model::distinct_pids(procs),
        0 <= n <= render::roots(procs).len(),
    ensures
        shows_once(render::trees(procs, render::roots(procs), n)),
    decreases n,
{
    if n > 0 {
        let rs = render::roots(procs);
        trees_show_once(procs, n - 1);
        let path = root_is_a_path(procs, n - 1);
        branch_shows_once(procs, path, ""@, true, true, procs.len());
        let a = render::trees(procs, rs, n - 1);
        let b = render::branch(procs, rs[n - 1], ""@, true, true, procs.len());
        roots_stand_once(procs, procs.len() as int);
        ascending_keeps_distinct(render::roots_among(procs, procs.len() as int));
        assert forall|i: int, j: int| 0 <= i < a.len() && 0 <= j < b.len() implies (
        #[trigger] a[i]).pid != (#[trigger] b[j]).pid by {
            let (p, k) = tree_rows_have_roots(procs, n - 1, i);
            let q = rows_have_paths(procs, path, ""@, true, true, procs.len(), j);
            if a[i].pid == b[j].pid {
                one_path(procs, p, q);
                assert(q[0] == q.take(1)[0]);
                assert(rs[k] == rs[n - 1]);
            }
        }
        both_show_once(a, b);
    }
}

proof fn tree_is_in_trees(procs: Seq<ProcessView>, n: int, k: int, pid: Pid)
    requires
        0 <= k < n <= render::roots(procs).len(),
        shows(
            render::branch(procs, render::roots(procs)[k], ""@, true, true, procs.len()),
            pid,
        ),
    ensures
        shows(render::trees(procs, render::roots(procs), n), pid),
    decreases n,
{
    let rs = render::roots(procs);
    let a = render::trees(procs, rs, n - 1);
    let b = render::branch(procs, rs[n - 1], ""@, true, true, procs.len());
    let rows = render::trees(procs, rs, n);
    if k < n - 1 {
        tree_is_in_trees(procs, n - 1, k, pid);
        let i = choose|i: int| 0 <= i < a.len() && (#[trigger] a[i]).pid == pid;
        assert(rows[i].pid == pid);
    } else {
        let i = choose|i: int| 0 <= i < b.len() && (#[trigger] b[i]).pid == pid;
        assert(rows[a.len() + i].pid == pid);
    }
}

/// The forest shows every process on exactly one line, also where parents lead
/// round in a circle, and shows nothing else.
pub proof fn forest_shows_every_process_once(procs: Seq<ProcessView>, pid: Pid)
    requires
        procs.len() <= usize::MAX,
        model::distinct_pids(procs),
    ensures
        shows_once(render::forest_rows(procs)),
        shows(render::forest_rows(procs), pid) <==> render::has_pid(procs, pid),
{
    let rs = render::roots(procs);
    let rows = render::forest_rows(procs);
    trees_show_once(procs, rs.len() as int);
    if render::has_pid(procs, pid) {
        let path = path_to(procs, pid);
        path_is_short(procs, path);
        let found = render::roots_among(procs, procs.len() as int);
        roots_stand_once(procs, procs.len() as int);
        assert(found.contains(path[0]));
        let k = all_stay(found, path[0]);
        path_is_shown(procs, path, 0, ""@, true, true, procs.len());
        tree_is_in_trees(procs, rs.len() as int, k, pid);
    }
    if shows(rows, pid) {
        let i = choose|i: int| 0 <= i < rows.len() && (#[trigger] rows[i]).pid == pid;
        let (r, k) = tree_rows_have_roots(procs, rs.len() as int, i);
        if r.len() == 1 {
            assert(is_root_pid(procs, r[0]));
        } else {
            assert(step_down(procs, r[r.len() - 2], r[r.len() - 1]));
        }
    }
}

} // verus!
