//! What holds of the printed texts: what they say, of whom, and in which
//! order.

use vstd::prelude::*;
use vstd::string::*;

use crate::model::{ChildView, Pid, ProcessView, SocketView, SourceView, TargetReportView};
use crate::render;
use crate::render::{report, Clock};
use crate::text::Class;
use crate::{num, order, text, util};

verus! {

/// Whether a text says another: that one stands somewhere in it.
#[verifier::opaque]
pub open spec fn says(t: Seq<char>, p: Seq<char>) -> bool {
    exists|a: Seq<char>, b: Seq<char>| t == #[trigger] (a + p + b)
}

proof fn says_is_contains(t: Seq<char>, p: Seq<char>)
    ensures
        says(t, p) <==> text::contains(t, p),
{
    reveal(says);
    text::holding_is_standing_between(t, p);
}

proof fn says_more(a: Seq<char>, b: Seq<char>, p: Seq<char>)
    ensures
        says(a, p) || says(b, p) ==> says(a + b, p),
{
    says_is_contains(a, p);
    says_is_contains(b, p);
    says_is_contains(a + b, p);
    text::longer_text_holds_it(a, b, p);
}

proof fn grow(a: Seq<char>, b: Seq<char>, p: Seq<char>)
    requires
        says(a, p) || says(b, p),
    ensures
        says(a + b, p),
{
    says_more(a, b, p);
}

proof fn says_itself(a: Seq<char>)
    ensures
        says(a, a),
{
    says_is_contains(a, a);
    text::longer_text_holds_it(a, a, a);
}

proof fn holds_both(a: Seq<char>, b: Seq<char>)
    ensures
        says(a, a),
        says(a + b, a),
        says(a + b, b),
{
    says_itself(a);
    says_itself(b);
    says_more(a, b, a);
    says_more(a, b, b);
}

proof fn says_on(s: Seq<char>, t: Seq<char>, p: Seq<char>)
    requires
        says(s, t),
        says(t, p),
    ensures
        says(s, p),
{
    says_is_contains(s, t);
    says_is_contains(t, p);
    says_is_contains(s, p);
    text::holding_goes_on(s, t, p);
}

proof fn trimmed_says(s: Seq<char>, p: Seq<char>)
    requires
        says(s, p),
        p.len() > 0,
        !text::is_white(p.last()),
    ensures
        says(text::trim_end(s, Class::White), p),
{
    says_is_contains(s, p);
    says_is_contains(text::trim_end(s, Class::White), p);
    text::trimming_leaves_what_is_black(s, p);
}

proof fn says_at(s: Seq<char>, p: Seq<char>, i: int)
    requires
        0 <= i,
        i + p.len() <= s.len(),
        s.subrange(i, i + p.len()) == p,
    ensures
        says(s, p),
{
    says_is_contains(s, p);
    assert(text::occurs_at(s, p, i));
}

/// Painting keeps the text that it is about.
pub proof fn paint_keeps_the_text(on: bool, code: Seq<char>, s: Seq<char>, p: Seq<char>)
    requires
        says(s, p),
    ensures
        says(render::painted(on, code, s), p),
        !on ==> render::painted(on, code, s) == s,
        on ==> text::starts_with(render::painted(on, code, s), "\x1b["@ + code + "m"@),
        on ==> text::ends_with(render::painted(on, code, s), "\x1b[0m"@),
{
    let a = "\x1b["@ + code + "m"@;
    grow(a, s, p);
    grow(a + s, "\x1b[0m"@, p);
    let t = a + s + "\x1b[0m"@;
    assert(t =~= a + (s + "\x1b[0m"@));
    text::holding_is_standing_between(t, a);
    text::holding_is_standing_between(t, "\x1b[0m"@);
}

proof fn bold_keeps(on: bool, s: Seq<char>, p: Seq<char>)
    requires
        says(s, p),
    ensures
        says(render::bold(on, s), p),
        says(render::dim(on, s), p),
        says(render::yellow(on, s), p),
        says(render::green(on, s), p),
{
    paint_keeps_the_text(on, "1"@, s, p);
    paint_keeps_the_text(on, "2"@, s, p);
    paint_keeps_the_text(on, "33"@, s, p);
    paint_keeps_the_text(on, "32"@, s, p);
}

proof fn padding_keeps(s: Seq<char>, w: int)
    ensures
        says(num::pad_right(s, w), s),
        says(num::pad_left(s, w), s),
{
    num::padding_is_spaces(s, w);
    let r = num::pad_right(s, w);
    assert(r.subrange(0, s.len() as int) =~= s);
    says_at(r, s, 0);
    let l = num::pad_left(s, w);
    let k = l.len() - s.len();
    assert(l.subrange(k, k + s.len()) =~= s);
    says_at(l, s, k);
}

// ---------- times ----------

/// A start time is told as local time, with how long ago it was.
pub proof fn start_is_told_with_its_age(c: Clock, t: i64)
    requires
        i64::MIN <= t + c.offset <= i64::MAX,
        i64::MIN <= c.now - t <= i64::MAX,
    ensures
        render::started_text(c, t) == util::time_text(t + c.offset) + " ("@ + util::age_text(
            c.now - t,
        ) + " ago)"@,
{
}

// ---------- the process table ----------

/// Some processes by pid: none is lost, and none stands before one with a lower
/// pid.
pub proof fn processes_go_by_pid(procs: Seq<ProcessView>, i: int, j: int)
    requires
        procs.len() <= usize::MAX,
        0 <= i < j < procs.len(),
    ensures
        ({
            let s = render::by_pid(procs);
            &&& s.len() == procs.len()
            &&& s[i].pid <= s[j].pid
            &&& s.contains(procs[i]) && s.contains(procs[j])
            &&& procs.contains(s[i]) && procs.contains(s[j])
        }),
{
    let pids = render::pids_of(procs);
    let keys = render::pid_keys(pids);
    let idx = render::pid_order(pids);
    let s = render::by_pid(procs);
    order::sorted_keys_go_one_way(pids.len(), keys, false, i, j);
    order::sorting_loses_nothing(pids.len(), keys, false, i as usize);
    order::sorting_loses_nothing(pids.len(), keys, false, j as usize);
    let (x, y) = (idx[i] as int, idx[j] as int);
    let none = Seq::<Seq<i64>>::empty();
    let e = Seq::<i64>::empty();
    let (a, b) = (procs[x].pid as i64, procs[y].pid as i64);
    assert(keys[x] =~= none + (seq![e + (seq![a] + e)] + none)) by {
        assert(e + (seq![a] + e) =~= seq![a]);
    }
    assert(keys[y] =~= none + (seq![e + (seq![b] + e)] + none)) by {
        assert(e + (seq![b] + e) =~= seq![b]);
    }
    order::first_field_decides(none, e + (seq![a] + e), none, e + (seq![b] + e), none);
    order::first_difference_decides(e, a, e, b, e);
    let k = choose|k: int| 0 <= k < idx.len() && idx[k] == i as usize;
    assert(s[k] == procs[i]);
    let l = choose|l: int| 0 <= l < idx.len() && idx[l] == j as usize;
    assert(s[l] == procs[j]);
    assert(procs[x] == s[i] && procs[y] == s[j]);
}

/// A column is as wide as its widest cell.
pub proof fn column_is_as_wide_as_its_widest_cell(rows: Seq<Seq<Seq<char>>>, k: int, n: int)
    requires
        0 <= n <= rows.len(),
    ensures
        forall|i: int|
            0 <= i < n ==> (#[trigger] rows[i])[k].len() <= render::column_width(rows, k, n),
        n > 0 ==> exists|i: int|
            0 <= i < n && (#[trigger] rows[i])[k].len() == render::column_width(rows, k, n),
        n == 0 ==> render::column_width(rows, k, n) == 0,
    decreases n,
{
    if n > 0 {
        column_is_as_wide_as_its_widest_cell(rows, k, n - 1);
        let w = render::column_width(rows, k, n - 1);
        if rows[n - 1][k].len() > w {
            assert(rows[n - 1][k].len() == render::column_width(rows, k, n));
        } else if n - 1 > 0 {
            let i = choose|i: int| 0 <= i < n - 1 && (#[trigger] rows[i])[k].len() == w;
            assert(rows[i][k].len() == render::column_width(rows, k, n));
        } else {
            assert(rows[n - 1][k].len() == 0);
        }
    }
}

/// A row has its cells in columns of the given widths, two spaces between them:
/// pid, parent and age end where their columns end, user and name begin where
/// theirs begin.
pub proof fn cells_stand_in_their_columns(p: ProcessView, c: Clock, w: Seq<int>)
    requires
        w.len() == 4,
        forall|k: int| 0 <= k < 4 ==> (#[trigger] render::cells(p, c)[k]).len() <= w[k],
    ensures
        ({
            let r = render::table_row(render::cells(p, c), w);
            let pid = num::dec(p.pid as int);
            let parent = if p.ppid is Some {
                num::dec(p.ppid->0 as int)
            } else {
                "-"@
            };
            let user = if p.user is Some {
                p.user->0
            } else {
                "-"@
            };
            let age = if p.started is Some {
                util::age_text(util::elapsed(c.now as int, p.started->0 as int))
            } else {
                "-"@
            };
            let b = w[0] + 2;
            let d = b + w[1] + 2;
            let e = d + w[2] + 2;
            let f = e + w[3] + 2;
            &&& r.len() == f + p.name.len() + 1
            &&& r.subrange(w[0] - pid.len(), w[0]) == pid
            &&& r.subrange(b + w[1] - parent.len(), b + w[1]) == parent
            &&& r.subrange(d, d + user.len()) == user
            &&& r.subrange(e + w[3] - age.len(), e + w[3]) == age
            &&& r.subrange(f, f + p.name.len()) == p.name
            &&& r.last() == '\n'
        }),
{
    let row = render::cells(p, c);
    let r = render::table_row(row, w);
    assert(row[0].len() <= w[0] && row[1].len() <= w[1] && row[2].len() <= w[2] && row[3].len()
        <= w[3]);
    num::padding_is_spaces(row[0], w[0]);
    num::padding_is_spaces(row[1], w[1]);
    num::padding_is_spaces(row[2], w[2]);
    num::padding_is_spaces(row[3], w[3]);
    pieces_of_a_row(
        num::pad_left(row[0], w[0]),
        num::pad_left(row[1], w[1]),
        num::pad_right(row[2], w[2]),
        num::pad_left(row[3], w[3]),
        row[4],
    );
    let b = w[0] + 2;
    let d = b + w[1] + 2;
    let e = d + w[2] + 2;
    right_end(r, 0, w[0], row[0]);
    right_end(r, b, w[1], row[1]);
    left_end(r, d, w[2], row[2]);
    right_end(r, e, w[3], row[3]);
}

proof fn right_end(r: Seq<char>, at: int, w: int, s: Seq<char>)
    requires
        0 <= at,
        s.len() <= w,
        at + w <= r.len(),
        r.subrange(at, at + w) == num::pad_left(s, w),
    ensures
        r.subrange(at + w - s.len(), at + w) == s,
{
    num::padding_is_spaces(s, w);
    let p = num::pad_left(s, w);
    assert forall|i: int| 0 <= i < s.len() implies r[at + w - s.len() + i] == s[i] by {
        assert(p[w - s.len() + i] == r.subrange(at, at + w)[w - s.len() + i]);
    }
    assert(r.subrange(at + w - s.len(), at + w) =~= s);
}

proof fn left_end(r: Seq<char>, at: int, w: int, s: Seq<char>)
    requires
        0 <= at,
        s.len() <= w,
        at + w <= r.len(),
        r.subrange(at, at + w) == num::pad_right(s, w),
    ensures
        r.subrange(at, at + s.len()) == s,
{
    num::padding_is_spaces(s, w);
    let p = num::pad_right(s, w);
    assert forall|i: int| 0 <= i < s.len() implies r[at + i] == s[i] by {
        assert(p[i] == r.subrange(at, at + w)[i]);
    }
    assert(r.subrange(at, at + s.len()) =~= s);
}

proof fn pieces_of_a_row(
    p0: Seq<char>,
    p1: Seq<char>,
    p2: Seq<char>,
    p3: Seq<char>,
    name: Seq<char>,
)
    ensures
        ({
            let r = p0 + "  "@ + p1 + "  "@ + p2 + "  "@ + p3 + "  "@ + name + "\n"@;
            let b = p0.len() as int + 2;
            let d = b + p1.len() + 2;
            let e = d + p2.len() + 2;
            let f = e + p3.len() + 2;
            &&& r.len() == f + name.len() + 1
            &&& r.subrange(0, p0.len() as int) == p0
            &&& r.subrange(b, b + p1.len()) == p1
            &&& r.subrange(d, d + p2.len()) == p2
            &&& r.subrange(e, e + p3.len()) == p3
            &&& r.subrange(f, f + name.len()) == name
            &&& r.last() == '\n'
        }),
{
    reveal_strlit("  ");
    reveal_strlit("\n");
    let g = "  "@;
    let r1 = p0 + g + p1;
    let r2 = r1 + g + p2;
    let r3 = r2 + g + p3;
    let r = r3 + g + name + "\n"@;
    assert(r.subrange(0, p0.len() as int) =~= p0);
    let b = p0.len() as int + 2;
    assert(r.subrange(b, b + p1.len()) =~= p1);
    let d = b + p1.len() + 2;
    assert(r.subrange(d, d + p2.len()) =~= p2);
    let e = d + p2.len() + 2;
    assert(r.subrange(e, e + p3.len()) =~= p3);
    let f = e + p3.len() + 2;
    assert(r.subrange(f, f + name.len()) =~= name);
}

proof fn table_rows_hold(rows: Seq<Seq<Seq<char>>>, w: Seq<int>, n: int, i: int)
    requires
        0 <= i < n,
    ensures
        says(render::table_rows(rows, w, n), render::table_row(rows[i], w)),
    decreases n,
{
    let row = render::table_row(rows[i], w);
    let before = render::table_rows(rows, w, n - 1);
    let last = render::table_row(rows[n - 1], w);
    if i < n - 1 {
        table_rows_hold(rows, w, n - 1, i);
    } else {
        holds_both(last, last);
    }
    grow(before, last, row);
}

/// The table has a row for every process, in columns that fit all of them, and
/// ends with their number.
pub proof fn every_process_has_a_row(procs: Seq<ProcessView>, on: bool, c: Clock, i: int)
    requires
        procs.len() <= usize::MAX,
        0 <= i < procs.len(),
    ensures
        ({
            let w = render::grid_widths(render::grid(render::by_pid(procs), c));
            let t = render::table_text(procs, on, c);
            &&& says(t, render::table_row(render::cells(procs[i], c), w))
            &&& w.len() == 4
            &&& forall|k: int| 0 <= k < 4 ==> (#[trigger] render::cells(procs[i], c)[k]).len() <= w[k]
            &&& text::ends_with(
                t,
                "\n"@ + num::dec(procs.len() as int) + " process(es)"@ + "\n"@,
            )
        }),
{
    let s = render::by_pid(procs);
    let rows = render::grid(s, c);
    let w = render::grid_widths(rows);
    if procs.len() > 1 {
        if i > 0 {
            processes_go_by_pid(procs, 0, i);
        } else {
            processes_go_by_pid(procs, 0, 1);
        }
    } else {
        one_process_is_sorted(procs);
    }
    assert(s.contains(procs[i]));
    let k = choose|k: int| 0 <= k < s.len() && s[k] == procs[i];
    assert(s.len() == procs.len());
    let row = render::cells(procs[i], c);
    assert(rows[k + 1] == row);
    assert(rows.skip(1)[k] == row);
    assert forall|m: int| 0 <= m < 4 implies (#[trigger] row[m]).len() <= w[m] by {
        column_is_as_wide_as_its_widest_cell(rows, m, rows.len() as int);
        assert(rows[k + 1][m].len() <= render::column_width(rows, m, rows.len() as int));
    }
    table_rows_hold(rows.skip(1), w, procs.len() as int, k);
    let p = render::table_row(row, w);
    let head = render::table_row(render::painted_header(on), w);
    let body = render::table_rows(rows.skip(1), w, procs.len() as int);
    let count = num::dec(procs.len() as int);
    grow(head, body, p);
    grow(head + body, "\n"@, p);
    grow(head + body + "\n"@, count, p);
    grow(head + body + "\n"@ + count, " process(es)"@, p);
    grow(head + body + "\n"@ + count + " process(es)"@, "\n"@, p);
    let t = render::table_text(procs, on, c);
    let end = "\n"@ + count + " process(es)"@ + "\n"@;
    assert(t =~= (head + body) + end);
    text::holding_is_standing_between(t, end);
}

proof fn one_process_is_sorted(procs: Seq<ProcessView>)
    requires
        procs.len() == 1,
    ensures
        render::by_pid(procs).len() == 1,
        render::by_pid(procs).contains(procs[0]),
{
    let pids = render::pids_of(procs);
    let keys = render::pid_keys(pids);
    let idx = order::all_positions(1);
    order::sorting_is_stable(idx, keys, false);
    order::sorting_loses_nothing(1, keys, false, 0);
    let s = order::sorted(idx, keys, false);
    let k = choose|k: int| 0 <= k < s.len() && s[k] == 0usize;
    assert(render::by_pid(procs)[k] == procs[0]);
}

// ---------- the forest ----------

proof fn kids_are_listed(procs: Seq<ProcessView>, pid: Pid, n: int, k: Pid)
    requires
        0 <= n <= procs.len(),
    ensures
        render::kids_among(procs, pid, n).contains(k) <==> exists|i: int|
            0 <= i < n && (#[trigger] procs[i]).pid == k && render::hangs_under(
                procs,
                procs[i],
                pid,
            ),
        render::kids_among(procs, pid, n).len() <= n,
    decreases n,
{
    if n > 0 {
        kids_are_listed(procs, pid, n - 1, k);
        let before = render::kids_among(procs, pid, n - 1);
        let now = render::kids_among(procs, pid, n);
        if before.contains(k) {
            let x = choose|x: int| 0 <= x < before.len() && before[x] == k;
            assert(now[x] == k);
        }
        if now.contains(k) && !before.contains(k) {
            let x = choose|x: int| 0 <= x < now.len() && now[x] == k;
            if x < before.len() {
                assert(before[x] == k);
            }
            assert(procs[n - 1].pid == k);
        }
        if procs[n - 1].pid == k && render::hangs_under(procs, procs[n - 1], pid) {
            assert(now[now.len() - 1] == k);
        }
    }
}

proof fn ascending_keeps(pids: Seq<Pid>, k: Pid)
    requires
        pids.len() <= usize::MAX,
    ensures
        render::ascending(pids).contains(k) <==> pids.contains(k),
        render::ascending(pids).len() == pids.len(),
{
    let keys = render::pid_keys(pids);
    let idx = order::all_positions(pids.len());
    assert forall|a: int, b: int| 0 <= a < b < idx.len() implies #[trigger] idx[a]
        < #[trigger] idx[b] by {
    }
    order::sorting_is_stable(idx, keys, false);
    let s = render::pid_order(pids);
    let up = render::ascending(pids);
    if pids.contains(k) {
        let x = choose|x: int| 0 <= x < pids.len() && pids[x] == k;
        order::sorting_loses_nothing(pids.len(), keys, false, x as usize);
        let y = choose|y: int| 0 <= y < s.len() && s[y] == x as usize;
        assert(up[y] == k);
    }
    if up.contains(k) {
        let y = choose|y: int| 0 <= y < up.len() && up[y] == k;
        assert(s.contains(s[y]));
        assert(idx.contains(s[y]));
        assert(pids[s[y] as int] == k);
    }
}

/// A process stands under its parent where the parent is listed and has the
/// lower pid; whatever stands under a process names it as its parent.
pub proof fn children_stand_under_their_parents(procs: Seq<ProcessView>, i: int, parent: Pid)
    requires
        procs.len() <= usize::MAX,
        crate::model::distinct_pids(procs),
        0 <= i < procs.len(),
    ensures
        procs[i].ppid == Some(parent) && parent < procs[i].pid && (exists|j: int|
            0 <= j < procs.len() && (#[trigger] procs[j]).pid == parent) ==> render::kids(
            procs,
            parent,
        ).contains(procs[i].pid),
        render::kids(procs, parent).contains(procs[i].pid) ==> procs[i].ppid == Some(parent)
            && parent != procs[i].pid,
{
    let p = procs[i];
    let n = procs.len() as int;
    kids_are_listed(procs, parent, n, p.pid);
    ascending_keeps(render::kids_among(procs, parent, n), p.pid);
    if p.ppid == Some(parent) && parent < p.pid && (exists|j: int|
        0 <= j < procs.len() && (#[trigger] procs[j]).pid == parent) {
        assert(render::is_parent(procs, p, parent));
        last_is_it(procs, i, n);
        assert(render::parent_of(procs, p.pid) == Some(parent));
        assert(!render::heads_circle(procs, p.pid));
        assert(render::hangs_under(procs, procs[i], parent));
    }
    if render::kids(procs, parent).contains(p.pid) {
        let j = choose|j: int|
            0 <= j < n && (#[trigger] procs[j]).pid == p.pid && render::hangs_under(
                procs,
                procs[j],
                parent,
            );
        if j < i {
            assert(procs[j].pid != procs[i].pid);
        }
        if i < j {
            assert(procs[i].pid != procs[j].pid);
        }
    }
}

proof fn last_is_it(procs: Seq<ProcessView>, i: int, n: int)
    requires
        crate::model::distinct_pids(procs),
        0 <= i < n <= procs.len(),
    ensures
        render::last_with(procs, procs[i].pid, n) == i,
    decreases n,
{
    if i < n - 1 {
        assert(procs[i].pid != procs[n - 1].pid);
        last_is_it(procs, i, n - 1);
    }
}

/// A process without a parent, or with one that is not listed, stands at the
/// top.
pub proof fn orphans_stand_at_the_top(procs: Seq<ProcessView>, i: int)
    requires
        procs.len() <= usize::MAX,
        0 <= i < procs.len(),
        procs[i].ppid matches Some(q) ==> forall|j: int|
            0 <= j < procs.len() ==> (#[trigger] procs[j]).pid != q,
    ensures
        render::roots(procs).contains(procs[i].pid),
{
    assert(render::is_root(procs, procs[i]));
    root_is_listed(procs, i, procs.len() as int);
    ascending_keeps(render::roots_among(procs, procs.len() as int), procs[i].pid);
}

proof fn root_is_listed(procs: Seq<ProcessView>, i: int, n: int)
    requires
        0 <= n <= procs.len(),
    ensures
        0 <= i < n && render::is_root(procs, procs[i]) ==> render::roots_among(procs, n).contains(
            procs[i].pid,
        ),
        render::roots_among(procs, n).len() <= n,
    decreases n,
{
    if n > 0 {
        root_is_listed(procs, i, n - 1);
        let before = render::roots_among(procs, n - 1);
        let now = render::roots_among(procs, n);
        if 0 <= i < n && render::is_root(procs, procs[i]) {
            if i == n - 1 {
                assert(now[now.len() - 1] == procs[i].pid);
            } else {
                let x = choose|x: int| 0 <= x < before.len() && before[x] == procs[i].pid;
                assert(now[x] == procs[i].pid);
            }
        }
    }
}

/// A row of the forest names its process, its pid and its user.
pub proof fn rows_name_their_process(procs: Seq<ProcessView>, on: bool, i: int, row: render::TreeRow)
    requires
        crate::model::distinct_pids(procs),
        0 <= i < procs.len(),
        row.pid == procs[i].pid,
    ensures
        says(
            render::tree_line(procs, on, row),
            procs[i].name + " (pid "@ + num::dec(procs[i].pid as int) + ", "@ + (
            if procs[i].user is Some {
                procs[i].user->0
            } else {
                "-"@
            }) + ")"@,
        ),
{
    last_is_it(procs, i, procs.len() as int);
    let l = render::label(procs, row.pid);
    let a = render::dim(on, row.prefix) + render::bold(on, render::joint(row.is_root, row.is_last));
    holds_both(a, l);
    grow(a + l, "\n"@, l);
}

// ---------- the standard form ----------

proof fn chain_lines_hold(chain: Seq<ProcessView>, on: bool, n: int, i: int)
    requires
        0 <= i < n,
    ensures
        says(
            report::chain_lines(chain, on, n),
            report::chain_line(chain[i], i, i + 1 == chain.len(), on),
        ),
    decreases n,
{
    let line = report::chain_line(chain[i], i, i + 1 == chain.len(), on);
    let last = report::chain_line(chain[n - 1], n - 1, n == chain.len(), on);
    if i < n - 1 {
        chain_lines_hold(chain, on, n - 1, i);
    } else {
        holds_both(last, last);
    }
    grow(report::chain_lines(chain, on, n - 1), last, line);
}

proof fn chain_line_says(a: ProcessView, depth: int, last: bool, on: bool)
    ensures
        says(report::chain_line(a, depth, last, on), a.name),
        says(report::chain_line(a, depth, last, on), "pid "@ + num::dec(a.pid as int)),
        a.user is Some ==> says(report::chain_line(a, depth, last, on), a.user->0),
        last ==> says(report::chain_line(a, depth, last, on), "  ← this"@),
{
    let user = render::or(a.user, ""@);
    let joint = "    "@ + render::dim(on, report::chain_joint("   "@, depth));
    let padded = num::pad_right(a.name, report::name_width(depth));
    let name = render::bold(on, padded);
    let number = "pid "@ + num::pad_right(num::dec(a.pid as int), 7);
    let pid = render::dim(on, number);
    let end = if last {
        user + render::green(on, "  ← this"@)
    } else {
        render::dim(on, user)
    };
    let p = "pid "@ + num::dec(a.pid as int);
    padding_keeps(a.name, report::name_width(depth));
    bold_keeps(on, padded, a.name);
    assert(says(number, p)) by {
        num::padding_is_spaces(num::dec(a.pid as int), 7);
        assert(number.subrange(0, p.len() as int) =~= p);
        says_at(number, p, 0);
    }
    bold_keeps(on, number, p);
    holds_both(user, user);
    bold_keeps(on, user, user);
    holds_both("  ← this"@, ""@);
    bold_keeps(on, "  ← this"@, "  ← this"@);
    if last {
        grow(user, render::green(on, "  ← this"@), user);
        grow(user, render::green(on, "  ← this"@), "  ← this"@);
    }
    let (x1, x2, x3) = (joint + name, joint + name + " "@, joint + name + " "@ + pid);
    grow(joint, name, a.name);
    grow(x1, " "@, a.name);
    grow(x2, pid, a.name);
    grow(x2, pid, p);
    grow(x3, end, a.name);
    grow(x3, end, p);
    grow(x3, end, user);
    let x4 = x3 + end;
    grow(x4, "\n"@, a.name);
    grow(x4, "\n"@, p);
    grow(x4, "\n"@, user);
    if last {
        grow(x3, end, "  ← this"@);
        grow(x4, "\n"@, "  ← this"@);
    }
}

proof fn socket_lines_hold(v: Seq<SocketView>, n: int, i: int)
    requires
        0 <= i < n,
    ensures
        says(report::socket_lines(v, n), report::socket_line(v[i])),
    decreases n,
{
    let line = report::socket_line(v[i]);
    let last = report::socket_line(v[n - 1]);
    if i < n - 1 {
        socket_lines_hold(v, n - 1, i);
    } else {
        holds_both(last, last);
    }
    grow(report::socket_lines(v, n - 1), last, line);
}

proof fn socket_line_says(s: SocketView)
    ensures
        says(report::socket_line(s), s.proto),
        says(
            report::socket_line(s),
            s.local_addr + ":"@ + num::dec(s.local_port as int),
        ),
        s.peer_addr is Some && s.peer_port is Some ==> says(
            report::socket_line(s),
            " → "@ + s.peer_addr->0 + ":"@ + num::dec(s.peer_port->0 as int),
        ),
        says(report::socket_line(s), " "@ + s.state),
{
    let head = "    "@ + num::pad_right(s.proto, 5) + " "@;
    let end = s.local_addr + ":"@ + num::dec(s.local_port as int);
    let local = "    "@ + num::pad_right(s.proto, 5) + " "@ + s.local_addr + ":"@ + num::dec(
        s.local_port as int,
    );
    padding_keeps(s.proto, 5);
    grow("    "@, num::pad_right(s.proto, 5), s.proto);
    grow("    "@ + num::pad_right(s.proto, 5), " "@, s.proto);
    assert(local =~= head + end);
    holds_both(head, end);
    grow(head, end, s.proto);
    let tail = " "@ + s.state;
    if s.peer_addr is Some && s.peer_port is Some {
        let peer = " → "@ + s.peer_addr->0 + ":"@ + num::dec(s.peer_port->0 as int);
        let both = local + " → "@ + s.peer_addr->0 + ":"@ + num::dec(s.peer_port->0 as int);
        assert(both =~= local + peer);
        holds_both(local, peer);
        grow(local, peer, s.proto);
        grow(local, peer, end);
        assert(both + " "@ + s.state + "\n"@ =~= both + (tail + "\n"@));
        holds_both(tail, "\n"@);
        grow(both, tail + "\n"@, tail);
        grow(both, tail + "\n"@, s.proto);
        grow(both, tail + "\n"@, end);
        grow(both, tail + "\n"@, peer);
    } else {
        assert(local + " "@ + s.state + "\n"@ =~= local + (tail + "\n"@));
        holds_both(tail, "\n"@);
        grow(local, tail + "\n"@, tail);
        grow(local, tail + "\n"@, s.proto);
        grow(local, tail + "\n"@, end);
    }
}

proof fn child_lines_say(v: Seq<ChildView>, n: int, i: int)
    requires
        0 <= i < n,
    ensures
        says(report::child_lines(v, n), "pid "@ + num::dec(v[i].pid as int)),
        says(report::child_lines(v, n), " "@ + v[i].name),
    decreases n,
{
    let before = report::child_lines(v, n - 1);
    let x = v[n - 1];
    let number = num::pad_right(num::dec(x.pid as int), 7);
    let end = " "@ + x.name;
    let p = "pid "@ + num::dec(v[i].pid as int);
    let q = " "@ + v[i].name;
    let a = before + "    pid "@;
    let line = "    pid "@ + number;
    if i < n - 1 {
        child_lines_say(v, n - 1, i);
        grow(before, line, p);
        grow(before, line, q);
    } else {
        reveal_strlit("    pid ");
        reveal_strlit("pid ");
        num::padding_is_spaces(num::dec(x.pid as int), 7);
        assert(line.subrange(4, p.len() as int + 4) =~= p);
        says_at(line, p, 4);
        grow(before, line, p);
    }
    assert(a + number =~= before + line);
    let t = a + number + " "@ + x.name;
    assert(t =~= (a + number) + end);
    holds_both(a + number, end);
    grow(a + number, end, p);
    if i < n - 1 {
        grow(a + number, end, q);
    }
    grow(t, "\n"@, p);
    grow(t, "\n"@, q);
}

proof fn warning_lines_say(ws: Seq<Seq<char>>, on: bool, n: int, i: int)
    requires
        0 <= i < n,
    ensures
        says(report::warning_lines(ws, on, n), " "@ + ws[i]),
    decreases n,
{
    let p = " "@ + ws[i];
    let before = report::warning_lines(ws, on, n - 1);
    let a = before + "  "@ + render::yellow(on, "⚠"@);
    let t = a + " "@ + ws[n - 1];
    if i < n - 1 {
        warning_lines_say(ws, on, n - 1, i);
        grow(before, "  "@, p);
        grow(before + "  "@, render::yellow(on, "⚠"@), p);
    } else {
        says_itself(p);
    }
    assert(t =~= a + (" "@ + ws[n - 1]));
    grow(a, " "@ + ws[n - 1], p);
    grow(t, "\n"@, p);
}

proof fn matches_hold(r: TargetReportView, on: bool, c: Clock, n: int, i: int)
    requires
        0 <= i < n,
    ensures
        says(
            report::matches_text(r, on, c, n),
            report::match_text(r, r.matches[i], on, c),
        ),
    decreases n,
{
    let line = report::match_text(r, r.matches[i], on, c);
    let last = report::match_text(r, r.matches[n - 1], on, c);
    if i < n - 1 {
        matches_hold(r, on, c, n - 1, i);
        grow(report::matches_text(r, on, c, n - 1), "\n"@, line);
    } else {
        holds_both(last, last);
    }
    if n == 1 {
        grow(report::matches_text(r, on, c, 0), last, line);
    } else {
        grow(report::matches_text(r, on, c, n - 1) + "\n"@, last, line);
    }
}

proof fn standard_holds(r: TargetReportView, on: bool, c: Clock, p: Seq<char>)
    requires
        r.found,
        says(report::heading(r, on), p) || says(
            report::matches_text(r, on, c, r.matches.len() as int),
            p,
        ) || says(report::risk_part(r, on), p) || says(
            report::warnings_part(r, on),
            p,
        ),
        p.len() > 0,
        !text::is_white(p.last()),
    ensures
        says(report::standard_text(r, on, c), p),
{
    let h = report::heading(r, on) + "\n"@;
    let m = report::matches_text(r, on, c, r.matches.len() as int);
    let k = report::risk_part(r, on);
    let w = report::warnings_part(r, on);
    if says(report::heading(r, on), p) {
        grow(report::heading(r, on), "\n"@, p);
    }
    if says(h, p) || says(m, p) {
        grow(h, m, p);
    }
    if says(h + m, p) || says(k, p) {
        grow(h + m, k, p);
    }
    grow(h + m + k, w, p);
    trimmed_says(h + m + k + w, p);
    grow(text::trim_end(h + m + k + w, Class::White), "\n"@, p);
}

proof fn match_part_is_told(r: TargetReportView, on: bool, c: Clock, i: int, p: Seq<char>)
    requires
        r.found,
        0 <= i < r.matches.len(),
        ({
            let m = r.matches[i];
            ||| says(render::bold(on, report::title(m)), p)
            ||| says(report::started_line(m, c), p)
            ||| says(report::known_line("  cwd "@, m.cwd), p)
            ||| says(report::exe_line(m, on), p)
            ||| says(report::cmd_line(m), p)
            ||| says(report::env_line(m), p)
            ||| says(report::source_part(r, on), p)
            ||| says(report::chain_part(r, on), p)
            ||| says(report::sockets_part(r, on), p)
            ||| says(report::children_part(r, on), p)
        }),
        p.len() > 0,
        !text::is_white(p.last()),
    ensures
        says(report::standard_text(r, on, c), p),
{
    let m = r.matches[i];
    let a0 = render::bold(on, report::title(m));
    let a1 = report::started_line(m, c);
    let a2 = report::known_line("  cwd "@, m.cwd);
    let a3 = report::exe_line(m, on);
    let a4 = report::cmd_line(m);
    let a5 = report::env_line(m);
    let a6 = report::source_part(r, on);
    let a7 = report::chain_part(r, on);
    let a8 = report::sockets_part(r, on);
    let a9 = report::children_part(r, on);
    says_more(a0, "\n"@, p);
    let b1 = a0 + "\n"@;
    says_more(b1, a1, p);
    let b2 = b1 + a1;
    says_more(b2, a2, p);
    let b3 = b2 + a2;
    says_more(b3, a3, p);
    let b4 = b3 + a3;
    says_more(b4, a4, p);
    let b5 = b4 + a4;
    says_more(b5, a5, p);
    let b6 = b5 + a5;
    says_more(b6, a6, p);
    let b7 = b6 + a6;
    says_more(b7, a7, p);
    let b8 = b7 + a7;
    says_more(b8, a8, p);
    let b9 = b8 + a8;
    says_more(b9, a9, p);
    matches_hold(r, on, c, r.matches.len() as int, i);
    says_on(
        report::matches_text(r, on, c, r.matches.len() as int),
        report::match_text(r, m, on, c),
        p,
    );
    standard_holds(r, on, c, p);
}

proof fn line_holds(a: Seq<char>, b: Seq<char>)
    ensures
        says(a + b + "\n"@, a + b),
{
    holds_both(a + b, "\n"@);
}

/// The standard form tells of each match its name and pid, and where they are
/// known its user, start, directory, image and command line.
pub proof fn standard_tells_who_it_is(r: TargetReportView, on: bool, c: Clock, i: int)
    requires
        r.found,
        0 <= i < r.matches.len(),
    ensures
        ({
            let m = r.matches[i];
            let t = report::standard_text(r, on, c);
            &&& says(t, m.name + " — pid "@ + num::dec(m.pid as int))
            &&& m.user matches Some(u) ==> says(t, " (user "@ + u + ")"@)
            &&& m.started matches Some(s) ==> says(
                t,
                "  started "@ + render::started_text(c, s),
            )
            &&& m.cwd matches Some(w) ==> (w.len() > 0 && !text::is_white(w.last())
                ==> says(t, "  cwd "@ + w))
            &&& m.exe matches Some(e) ==> (e.len() > 0 && !text::is_white(e.last())
                ==> says(t, "  exe "@ + e))
            &&& m.exe is Some && m.exe_deleted ==> says(t, "  [deleted from disk]"@)
            &&& m.cmdline.len() > 0 && m.command().len() > 0 && !text::is_white(m.command().last())
                ==> says(t, "  cmd "@ + m.command())
        }),
{
    let m = r.matches[i];
    let id = m.name + " — pid "@ + num::dec(m.pid as int);
    num::printed_number_has_no_space(m.pid as int);
    reveal_strlit(")");
    reveal_strlit(" ago)");
    reveal_strlit("  [deleted from disk]");
    holds_both(id, id);
    if m.user is Some {
        let end = " (user "@ + m.user->0 + ")"@;
        assert(report::title(m) =~= id + end);
        holds_both(id, end);
        bold_keeps(on, report::title(m), end);
        assert(end.last() == ')');
        match_part_is_told(r, on, c, i, end);
    }
    assert(id.last() == num::dec(m.pid as int).last());
    bold_keeps(on, report::title(m), id);
    match_part_is_told(r, on, c, i, id);
    if m.started is Some {
        let s = render::started_text(c, m.started->0);
        line_holds("  started "@, s);
        assert(("  started "@ + s).last() == ')');
        match_part_is_told(r, on, c, i, "  started "@ + s);
    }
    standard_tells_where_it_is(r, on, c, i);
}

proof fn standard_tells_where_it_is(r: TargetReportView, on: bool, c: Clock, i: int)
    requires
        r.found,
        0 <= i < r.matches.len(),
    ensures
        ({
            let m = r.matches[i];
            let t = report::standard_text(r, on, c);
            &&& m.cwd matches Some(w) ==> (w.len() > 0 && !text::is_white(w.last())
                ==> says(t, "  cwd "@ + w))
            &&& m.exe matches Some(e) ==> (e.len() > 0 && !text::is_white(e.last())
                ==> says(t, "  exe "@ + e))
            &&& m.exe is Some && m.exe_deleted ==> says(t, "  [deleted from disk]"@)
            &&& m.cmdline.len() > 0 && m.command().len() > 0 && !text::is_white(m.command().last())
                ==> says(t, "  cmd "@ + m.command())
        }),
{
    let m = r.matches[i];
    if m.cwd is Some && m.cwd->0.len() > 0 && !text::is_white(m.cwd->0.last()) {
        line_holds("  cwd "@, m.cwd->0);
        assert(("  cwd "@ + m.cwd->0).last() == m.cwd->0.last());
        match_part_is_told(r, on, c, i, "  cwd "@ + m.cwd->0);
    }
    if m.exe is Some {
        let e = "  exe "@ + m.exe->0;
        let mark = render::yellow(on, "  [deleted from disk]"@);
        line_holds("  exe "@, m.exe->0);
        holds_both(e, mark);
        grow(e + mark, "\n"@, e);
        if m.exe->0.len() > 0 && !text::is_white(m.exe->0.last()) {
            assert(e.last() == m.exe->0.last());
            match_part_is_told(r, on, c, i, e);
        }
        if m.exe_deleted {
            let d = "  [deleted from disk]"@;
            reveal_strlit("  [deleted from disk]");
            holds_both(d, d);
            bold_keeps(on, d, d);
            grow(e, mark, d);
            grow(e + mark, "\n"@, d);
            assert(d.last() == ']');
            match_part_is_told(r, on, c, i, d);
        }
    }
    if m.cmdline.len() > 0 && m.command().len() > 0 && !text::is_white(m.command().last()) {
        line_holds("  cmd "@, m.command());
        assert(("  cmd "@ + m.command()).last() == m.command().last());
        match_part_is_told(r, on, c, i, "  cmd "@ + m.command());
    }
}

/// The standard form tells the chain: every link with its name and pid, and
/// which of them is the process itself.
pub proof fn standard_tells_the_chain(r: TargetReportView, on: bool, c: Clock, j: int)
    requires
        r.found,
        r.matches.len() > 0,
        r.ancestry.len() > 1,
        0 <= j < r.ancestry.len(),
    ensures
        ({
            let a = r.ancestry[j];
            let t = report::standard_text(r, on, c);
            &&& says(t, "pid "@ + num::dec(a.pid as int))
            &&& a.name.len() > 0 && !text::is_white(a.name.last()) ==> says(t, a.name)
            &&& says(t, "  ← this"@)
        }),
{
    let a = r.ancestry[j];
    let n = r.ancestry.len() as int;
    let lines = report::chain_lines(r.ancestry, on, n);
    let head = "\n"@ + "  "@ + render::dim(on, "chain (root → this):"@) + "\n"@;
    let p = "pid "@ + num::dec(a.pid as int);
    let this = "  ← this"@;
    chain_lines_hold(r.ancestry, on, n, j);
    chain_lines_hold(r.ancestry, on, n, n - 1);
    chain_line_says(a, j, j + 1 == n, on);
    chain_line_says(r.ancestry[n - 1], n - 1, true, on);
    let line = report::chain_line(a, j, j + 1 == n, on);
    let end = report::chain_line(r.ancestry[n - 1], n - 1, true, on);
    says_on(lines, line, p);
    says_on(lines, line, a.name);
    says_on(lines, end, this);
    grow(head, lines, p);
    grow(head, lines, a.name);
    grow(head, lines, this);
    num::printed_number_has_no_space(a.pid as int);
    assert(p.last() == num::dec(a.pid as int).last());
    match_part_is_told(r, on, c, 0, p);
    if a.name.len() > 0 && !text::is_white(a.name.last()) {
        match_part_is_told(r, on, c, 0, a.name);
    }
    reveal_strlit("  ← this");
    assert(this.last() == 's');
    match_part_is_told(r, on, c, 0, this);
}

/// The standard form tells every socket with its ends and its state, and every
/// child with its pid and name.
pub proof fn standard_tells_sockets_and_children(r: TargetReportView, on: bool, c: Clock, j: int)
    requires
        r.found,
        r.matches.len() > 0,
        0 <= j,
    ensures
        j < r.sockets.len() ==> ({
            let s = r.sockets[j];
            let t = report::standard_text(r, on, c);
            &&& says(t, s.local_addr + ":"@ + num::dec(s.local_port as int))
            &&& s.peer_addr is Some && s.peer_port is Some ==> says(
                t,
                " → "@ + s.peer_addr->0 + ":"@ + num::dec(s.peer_port->0 as int),
            )
            &&& s.state.len() > 0 && !text::is_white(s.state.last()) ==> says(
                t,
                " "@ + s.state,
            )
        }),
        j < r.children.len() ==> ({
            let k = r.children[j];
            let t = report::standard_text(r, on, c);
            &&& says(t, "pid "@ + num::dec(k.pid as int))
            &&& k.name.len() > 0 && !text::is_white(k.name.last()) ==> says(
                t,
                " "@ + k.name,
            )
        }),
{
    if j < r.sockets.len() {
        let s = r.sockets[j];
        let lines = report::socket_lines(r.sockets, r.sockets.len() as int);
        let line = report::socket_line(s);
        let head = "\n"@ + "  "@ + render::dim(on, "sockets:"@) + "\n"@;
        socket_lines_hold(r.sockets, r.sockets.len() as int, j);
        socket_line_says(s);
        let local = s.local_addr + ":"@ + num::dec(s.local_port as int);
        num::printed_number_has_no_space(s.local_port as int);
        assert(local.last() == num::dec(s.local_port as int).last());
        says_on(lines, line, local);
        grow(head, lines, local);
        match_part_is_told(r, on, c, 0, local);
        if s.peer_addr is Some && s.peer_port is Some {
            let peer = " → "@ + s.peer_addr->0 + ":"@ + num::dec(s.peer_port->0 as int);
            num::printed_number_has_no_space(s.peer_port->0 as int);
            assert(peer.last() == num::dec(s.peer_port->0 as int).last());
            says_on(lines, line, peer);
            grow(head, lines, peer);
            match_part_is_told(r, on, c, 0, peer);
        }
        if s.state.len() > 0 && !text::is_white(s.state.last()) {
            let p = " "@ + s.state;
            assert(p.last() == s.state.last());
            says_on(lines, line, p);
            grow(head, lines, p);
            match_part_is_told(r, on, c, 0, p);
        }
    }
    if j < r.children.len() {
        let k = r.children[j];
        let lines = report::child_lines(r.children, r.children.len() as int);
        let head = "\n"@ + "  "@ + render::dim(on, "children"@) + " ("@ + num::dec(
            r.children.len() as int,
        ) + "):"@ + "\n"@;
        child_lines_say(r.children, r.children.len() as int, j);
        let p = "pid "@ + num::dec(k.pid as int);
        num::printed_number_has_no_space(k.pid as int);
        assert(p.last() == num::dec(k.pid as int).last());
        grow(head, lines, p);
        match_part_is_told(r, on, c, 0, p);
        if k.name.len() > 0 && !text::is_white(k.name.last()) {
            let q = " "@ + k.name;
            assert(q.last() == k.name.last());
            grow(head, lines, q);
            match_part_is_told(r, on, c, 0, q);
        }
    }
}

/// The standard form tells what started the process, the risk with all its
/// signals, and every warning.
pub proof fn standard_tells_source_risk_and_warnings(
    r: TargetReportView,
    on: bool,
    c: Clock,
    j: int,
)
    requires
        r.found,
        r.matches.len() > 0,
        0 <= j,
    ensures
        ({
            let t = report::standard_text(r, on, c);
            &&& r.source matches Some(s) ==> (s.kind.len() > 0 && !text::is_white(s.kind.last())
                ==> says(t, s.kind))
            &&& r.source matches Some(s) ==> (s.label matches Some(l) ==> (l.len() > 0
                && !text::is_white(l.last()) ==> says(t, " "@ + l)))
            &&& r.source matches Some(s) ==> (s.detail matches Some(d) ==> (d.len() > 0
                && !text::is_white(d.last()) ==> says(t, " — "@ + d)))
            &&& r.risk matches Some(k) ==> (k.score > 0 ==> says(
                t,
                " risk "@ + num::dec(k.score as int) + "/10:"@,
            ))
            &&& j < r.warnings.len() && r.warnings[j].len() > 0 && !text::is_white(
                r.warnings[j].last(),
            ) ==> says(t, " "@ + r.warnings[j])
        }),
{
    if r.source is Some {
        standard_tells_source(r, on, c);
    }
    if r.risk is Some && r.risk->0.score > 0 {
        let k = r.risk->0;
        let a = "  "@ + render::yellow(on, "⚠"@);
        let p = " risk "@ + num::dec(k.score as int) + "/10:"@;
        let b = text::join(k.signals, "; "@) + "\n"@;
        reveal_strlit("/10: ");
        reveal_strlit("/10:");
        reveal_strlit(" ");
        assert("/10: "@ =~= "/10:"@ + " "@);
        let whole = "  "@ + render::yellow(on, "⚠"@) + " risk "@ + num::dec(k.score as int)
            + "/10: "@ + text::join(k.signals, "; "@) + "\n"@;
        assert(whole =~= a + p + (" "@ + b));
        holds_both(a, p);
        grow(a + p, " "@ + b, p);
        assert(p.last() == ':');
        standard_holds(r, on, c, p);
    }
    if j < r.warnings.len() && r.warnings[j].len() > 0 && !text::is_white(r.warnings[j].last()) {
        let p = " "@ + r.warnings[j];
        let head = "\n"@ + "  "@ + render::yellow(on, "warnings:"@) + "\n"@;
        let n = r.warnings.len() as int;
        warning_lines_say(r.warnings, on, n, j);
        grow(head, report::warning_lines(r.warnings, on, n), p);
        assert(p.last() == r.warnings[j].last());
        standard_holds(r, on, c, p);
    }
}

proof fn source_line_says(before: Seq<char>, s: SourceView)
    ensures
        s.kind.len() > 0 && !text::is_white(s.kind.last()) ==> says(
            report::source_line(before, s),
            s.kind,
        ),
        s.label matches Some(l) ==> (l.len() > 0 && !text::is_white(l.last()) ==> says(
            report::source_line(before, s),
            " "@ + l,
        )),
        s.detail matches Some(d) ==> (d.len() > 0 && !text::is_white(d.last()) ==> says(
            report::source_line(before, s),
            " — "@ + d,
        )),
{
    let label = render::or(s.label, ""@);
    let end = " "@ + label;
    let t = before + s.kind + " "@ + label;
    assert(t =~= (before + s.kind) + end);
    holds_both(before, s.kind);
    holds_both(before + s.kind, end);
    grow(before + s.kind, end, s.kind);
    let whole = match s.detail {
        Some(d) => t + " — "@ + d,
        None => t,
    };
    if s.detail is Some {
        let p = " — "@ + s.detail->0;
        assert(whole =~= t + p);
        holds_both(t, p);
        grow(t, p, s.kind);
        grow(t, p, end);
        if s.detail->0.len() > 0 && !text::is_white(s.detail->0.last()) {
            assert(p.last() == s.detail->0.last());
            trimmed_says(whole, p);
        }
    }
    if s.kind.len() > 0 && !text::is_white(s.kind.last()) {
        trimmed_says(whole, s.kind);
    }
    if s.label is Some && s.label->0.len() > 0 && !text::is_white(s.label->0.last()) {
        assert(end.last() == s.label->0.last());
        trimmed_says(whole, end);
    }
}

proof fn standard_tells_source(r: TargetReportView, on: bool, c: Clock)
    requires
        r.found,
        r.matches.len() > 0,
        r.source is Some,
    ensures
        ({
            let s = r.source->0;
            let t = report::standard_text(r, on, c);
            &&& s.kind.len() > 0 && !text::is_white(s.kind.last()) ==> says(t, s.kind)
            &&& s.label matches Some(l) ==> (l.len() > 0 && !text::is_white(l.last())
                ==> says(t, " "@ + l))
            &&& s.detail matches Some(d) ==> (d.len() > 0 && !text::is_white(d.last())
                ==> says(t, " — "@ + d))
        }),
{
    let s = r.source->0;
    let head = "\n"@ + "  "@ + render::green(on, "started by:"@) + "\n"@;
    let line = report::source_line("    "@, s);
    source_line_says("    "@, s);
    if s.kind.len() > 0 && !text::is_white(s.kind.last()) {
        grow(head, line, s.kind);
        grow(head + line, "\n"@, s.kind);
        match_part_is_told(r, on, c, 0, s.kind);
    }
    if s.label is Some && s.label->0.len() > 0 && !text::is_white(s.label->0.last()) {
        let p = " "@ + s.label->0;
        grow(head, line, p);
        grow(head + line, "\n"@, p);
        assert(p.last() == s.label->0.last());
        match_part_is_told(r, on, c, 0, p);
    }
    if s.detail is Some && s.detail->0.len() > 0 && !text::is_white(s.detail->0.last()) {
        let p = " — "@ + s.detail->0;
        grow(head, line, p);
        grow(head + line, "\n"@, p);
        assert(p.last() == s.detail->0.last());
        match_part_is_told(r, on, c, 0, p);
    }
}

/// Every form of a report without a match tells the error.
pub proof fn missing_target_tells_the_error(r: TargetReportView, on: bool, c: Clock, e: Seq<char>)
    requires
        !r.found,
        r.error == Some(e),
    ensures
        says(report::standard_text(r, on, c), e),
        says(report::tree_text(r, on), e),
        says(report::short_text(r, on, c), e),
{
    holds_both(e, e);
    bold_keeps(on, e, e);
    let h = report::heading(r, on) + "\n"@ + "  "@;
    let y = render::yellow(on, e);
    grow(h, y, e);
    grow(h + y, "\n"@, e);
    grow(report::heading(r, on) + " "@, y, e);
}

// ---------- the short form ----------

proof fn joined_says(parts: Seq<Seq<char>>, sep: Seq<char>, i: int)
    requires
        0 <= i < parts.len(),
    ensures
        says(text::join(parts, sep), parts[i]),
{
    says_is_contains(text::join(parts, sep), parts[i]);
    text::joined_text_holds_its_parts(parts, sep, i);
}

proof fn neighbours_are_joined(parts: Seq<Seq<char>>, sep: Seq<char>, i: int)
    requires
        0 <= i,
        i + 1 < parts.len(),
    ensures
        says(text::join(parts, sep), parts[i] + sep + parts[i + 1]),
    decreases parts.len(),
{
    let n = parts.len() as int;
    let d = parts.drop_last();
    let before = text::join(d, sep);
    let p = parts[i] + sep + parts[i + 1];
    if i + 1 < n - 1 {
        neighbours_are_joined(d, sep, i);
        assert(d[i] == parts[i] && d[i + 1] == parts[i + 1]);
        grow(before, sep, p);
        grow(before + sep, parts.last(), p);
    } else if n == 2 {
        assert(before == parts[0]);
        says_itself(p);
    } else {
        let front = text::join(d.drop_last(), sep) + sep;
        assert(before == front + d.last());
        assert(d.last() == parts[i]);
        assert(before + sep + parts.last() =~= front + p);
        holds_both(front, p);
    }
}

proof fn short_parts_say(r: TargetReportView, m: ProcessView, c: Clock, p: Seq<char>, k: int)
    requires
        0 <= k < report::short_parts(r, m, c).len(),
        says(report::short_parts(r, m, c)[k], p),
    ensures
        says(text::join(report::short_parts(r, m, c), " · "@), p),
{
    let parts = report::short_parts(r, m, c);
    joined_says(parts, " · "@, k);
    says_on(text::join(parts, " · "@), parts[k], p);
}

proof fn short_line_is_told(r: TargetReportView, on: bool, c: Clock, i: int, p: Seq<char>)
    requires
        r.found,
        0 <= i < r.matches.len(),
        says(text::join(report::short_parts(r, r.matches[i], c), " · "@), p) || says(
            report::warning_count(r, on),
            p,
        ),
    ensures
        says(report::short_text(r, on, c), p),
{
    let head = report::heading(r, on) + " "@;
    let mid = text::join(report::short_parts(r, r.matches[i], c), " · "@);
    let lines = report::short_lines(r, on, c);
    says_more(head, mid, p);
    grow(head + mid, report::warning_count(r, on), p);
    joined_says(lines, "\n"@, i);
    says_on(text::join(lines, "\n"@), lines[i], p);
}

/// The short form tells of each match its name and pid, its user, the links of
/// its chain from the root on, what started it and when, and how many warnings
/// there are.
pub proof fn short_tells_the_match(r: TargetReportView, on: bool, c: Clock, i: int, j: int)
    requires
        r.found,
        0 <= i < r.matches.len(),
        0 <= j,
    ensures
        ({
            let m = r.matches[i];
            let t = report::short_text(r, on, c);
            let link = |k: int|
                r.ancestry[k].name + "("@ + num::dec(r.ancestry[k].pid as int) + ")"@;
            &&& says(t, m.name + " (pid "@ + num::dec(m.pid as int) + ")"@)
            &&& m.user matches Some(u) ==> says(t, "user "@ + u)
            &&& j + 1 < r.ancestry.len() ==> says(t, link(j) + " ← "@ + link(j + 1))
            &&& r.source matches Some(s) ==> says(t, "source: "@ + s.kind)
            &&& r.source matches Some(s) ==> (s.label matches Some(l) ==> says(
                t,
                "source: "@ + s.kind + "/"@ + l,
            ))
            &&& m.started matches Some(s) ==> says(
                t,
                "started "@ + util::age_text(util::elapsed(c.now as int, s as int)) + " ago"@,
            )
            &&& r.warnings.len() > 0 ==> says(
                t,
                num::dec(r.warnings.len() as int) + " warning(s)"@,
            )
        }),
{
    let m = r.matches[i];
    let parts = report::short_parts(r, m, c);
    let id = m.name + " (pid "@ + num::dec(m.pid as int) + ")"@;
    says_itself(id);
    assert(parts[0] == id);
    short_parts_say(r, m, c, id, 0);
    short_line_is_told(r, on, c, i, id);
    let u: int = if m.user is Some {
        1
    } else {
        0
    };
    if m.user is Some {
        says_itself(parts[1]);
        short_parts_say(r, m, c, "user "@ + m.user->0, 1);
        short_line_is_told(r, on, c, i, "user "@ + m.user->0);
    }
    let links = report::links(r.ancestry);
    assert(parts[u + 1] == "chain: "@ + text::join(links, " ← "@));
    if j + 1 < r.ancestry.len() {
        let p = links[j] + " ← "@ + links[j + 1];
        neighbours_are_joined(links, " ← "@, j);
        grow("chain: "@, text::join(links, " ← "@), p);
        short_parts_say(r, m, c, p, u + 1);
        short_line_is_told(r, on, c, i, p);
    }
    let v = if r.source is Some {
        u + 2
    } else {
        u + 1
    };
    if r.source is Some {
        let s = r.source->0;
        let mark = report::source_mark(s);
        assert(parts[u + 2] == mark);
        says_itself(mark);
        short_parts_say(r, m, c, mark, u + 2);
        short_line_is_told(r, on, c, i, mark);
        if s.label is Some {
            let a = "source: "@ + s.kind;
            assert(mark =~= a + ("/"@ + s.label->0));
            holds_both(a, "/"@ + s.label->0);
            says_on(report::short_text(r, on, c), mark, a);
        }
    }
    if m.started is Some {
        assert(parts[v + 1] == "started "@ + render::age(c, m.started->0) + " ago"@);
        says_itself(parts[v + 1]);
        short_parts_say(r, m, c, parts[v + 1], v + 1);
        short_line_is_told(r, on, c, i, parts[v + 1]);
    }
    if r.warnings.len() > 0 {
        let n = num::dec(r.warnings.len() as int) + " warning(s)"@;
        let whole = "⚠ "@ + num::dec(r.warnings.len() as int) + " warning(s)"@;
        assert(whole =~= "⚠ "@ + n);
        holds_both("⚠ "@, n);
        bold_keeps(on, whole, n);
        grow(" "@, render::yellow(on, whole), n);
        short_line_is_told(r, on, c, i, n);
    }
}

// ---------- the tree form ----------

proof fn twigs_say(r: TargetReportView, on: bool, n: int, i: int)
    requires
        0 <= i < n,
    ensures
        says(report::twigs(r, on, n), report::twig(r, i, on)),
    decreases n,
{
    let last = report::twig(r, n - 1, on);
    if i < n - 1 {
        twigs_say(r, on, n - 1, i);
    } else {
        says_itself(last);
    }
    grow(report::twigs(r, on, n - 1), last, report::twig(r, i, on));
}

proof fn leaves_say(r: TargetReportView, on: bool, n: int, i: int)
    requires
        0 <= i < n,
    ensures
        says(
            report::leaves(r, on, n),
            r.children[i].name + " (pid "@ + num::dec(r.children[i].pid as int) + ")"@,
        ),
    decreases n,
{
    let p = r.children[i].name + " (pid "@ + num::dec(r.children[i].pid as int) + ")"@;
    let k = r.children[n - 1];
    let last = k.name + " (pid "@ + num::dec(k.pid as int) + ")"@;
    let before = report::leaves(r, on, n - 1);
    let joint = render::dim(
        on,
        if n == r.children.len() {
            "└─ "@
        } else {
            "├─ "@
        },
    );
    let indent = num::repeat("  "@, r.ancestry.len()) + "  "@;
    let a = before + indent + joint;
    if i < n - 1 {
        leaves_say(r, on, n - 1, i);
        grow(before, indent, p);
        grow(before + indent, joint, p);
    } else {
        says_itself(last);
    }
    grow(a, last, p);
    assert(a + k.name + " (pid "@ + num::dec(k.pid as int) + ")"@ =~= a + last);
    grow(a + last, "\n"@, p);
}

/// The tree form tells every link of the chain with its pid and user, a star on
/// those that match and on no others, every child, and every warning.
pub proof fn tree_tells_the_chain(r: TargetReportView, on: bool, j: int)
    requires
        r.found,
        0 <= j,
    ensures
        ({
            let t = report::tree_text(r, on);
            &&& j < r.ancestry.len() ==> ({
                let a = r.ancestry[j];
                let user = if a.user is Some {
                    a.user->0
                } else {
                    "?"@
                };
                &&& says(t, a.name)
                &&& says(t, " (pid "@ + num::dec(a.pid as int) + ", "@ + user + ")"@)
                &&& (exists|i: int| 0 <= i < r.matches.len() && (#[trigger] r.matches[i]).pid
                    == a.pid) ==> says(t, " ★"@)
            })
            &&& j < r.children.len() ==> says(
                t,
                r.children[j].name + " (pid "@ + num::dec(r.children[j].pid as int) + ")"@,
            )
            &&& j < r.warnings.len() ==> says(t, " "@ + r.warnings[j])
        }),
{
    let h = report::heading(r, on) + "\n"@;
    let tw = report::twigs(r, on, r.ancestry.len() as int);
    let lv = report::leaves(r, on, r.children.len() as int);
    let ws = report::tree_warnings(r, on);
    if j < r.ancestry.len() {
        let a = r.ancestry[j];
        let user = render::or(a.user, "?"@);
        let end = " (pid "@ + num::dec(a.pid as int) + ", "@ + user + ")"@;
        let joint = "  "@ + render::dim(on, report::chain_joint("  "@, j));
        let name = render::bold(on, a.name);
        let star = if report::is_match(r, a.pid) {
            render::green(on, " ★"@)
        } else {
            ""@
        };
        let front = joint + name + star;
        let line = report::twig(r, j, on);
        says_itself(a.name);
        bold_keeps(on, a.name, a.name);
        says_itself(" ★"@);
        bold_keeps(on, " ★"@, " ★"@);
        grow(joint, name, a.name);
        grow(joint + name, star, a.name);
        assert(front + " (pid "@ + num::dec(a.pid as int) + ", "@ + user + ")"@ =~= front + end);
        assert(line == front + end + "\n"@);
        holds_both(front, end);
        grow(front, end, a.name);
        grow(front + end, "\n"@, a.name);
        grow(front + end, "\n"@, end);
        twigs_say(r, on, r.ancestry.len() as int, j);
        tree_says(r, on, line);
        says_on(report::tree_text(r, on), line, a.name);
        says_on(report::tree_text(r, on), line, end);
        if exists|i: int| 0 <= i < r.matches.len() && (#[trigger] r.matches[i]).pid == a.pid {
            grow(joint + name, star, " ★"@);
            grow(front, end, " ★"@);
            grow(front + end, "\n"@, " ★"@);
            says_on(report::tree_text(r, on), line, " ★"@);
        }
    }
    if j < r.children.len() {
        leaves_say(r, on, r.children.len() as int, j);
        tree_says(
            r,
            on,
            r.children[j].name + " (pid "@ + num::dec(r.children[j].pid as int) + ")"@,
        );
    }
    if j < r.warnings.len() {
        let p = " "@ + r.warnings[j];
        warning_lines_say(r.warnings, on, r.warnings.len() as int, j);
        grow("\n"@, report::warning_lines(r.warnings, on, r.warnings.len() as int), p);
        tree_says(r, on, p);
    }
}

proof fn tree_says(r: TargetReportView, on: bool, p: Seq<char>)
    requires
        r.found,
        says(report::twigs(r, on, r.ancestry.len() as int), p) || says(
            report::leaves(r, on, r.children.len() as int),
            p,
        ) || says(report::tree_warnings(r, on), p),
    ensures
        says(report::tree_text(r, on), p),
{
    let h = report::heading(r, on) + "\n"@;
    let tw = report::twigs(r, on, r.ancestry.len() as int);
    let lv = report::leaves(r, on, r.children.len() as int);
    let ws = report::tree_warnings(r, on);
    says_more(h, tw, p);
    says_more(h + tw, lv, p);
    says_more(h + tw + lv, ws, p);
}

// ---------- the export ----------

proof fn pair_says(k: Seq<char>, v: Seq<char>)
    ensures
        says(report::pair_line(k, v), v),
        says(report::pair_line(k, v), k + ":"@),
{
    let a = num::pad_right(k + ":"@, 10);
    padding_keeps(k + ":"@, 10);
    holds_both(a, v);
    grow(a, v, k + ":"@);
    grow(a + v, "\n"@, v);
    grow(a + v, "\n"@, k + ":"@);
}

proof fn export_says(
    rs: Seq<TargetReportView>,
    files: Seq<(Pid, Seq<Seq<char>>)>,
    c: Clock,
    n: int,
    i: int,
    p: Seq<char>,
)
    requires
        0 <= i < n,
        says(report::export_one(rs[i], files, c), p),
    ensures
        says(report::export_text(rs, files, c, n), p),
    decreases n,
{
    if i < n - 1 {
        export_says(rs, files, c, n - 1, i, p);
    }
    grow(report::export_text(rs, files, c, n - 1), report::export_one(rs[n - 1], files, c), p);
}

proof fn export_one_says(
    r: TargetReportView,
    files: Seq<(Pid, Seq<Seq<char>>)>,
    c: Clock,
    p: Seq<char>,
)
    requires
        r.found,
        says(report::export_identity(r.matches[0], c), p) || says(report::export_origin(r), p)
            || says(report::export_remarks(r), p) || says(report::export_env(r.matches[0].env), p)
            || says(report::export_files(report::files_for(files, r.matches[0].pid, 0)), p),
    ensures
        says(report::export_one(r, files, c), p),
{
    let m = r.matches[0];
    let h = "== witr-rs report: "@ + r.target.words() + " =="@ + "\n"@;
    let (a, b, d) = (
        report::export_identity(m, c),
        report::export_origin(r),
        report::export_remarks(r),
    );
    let e = report::export_env(m.env);
    let f = report::export_files(report::files_for(files, m.pid, 0));
    says_more(h, a, p);
    says_more(h + a, b, p);
    says_more(h + a + b, d, p);
    says_more(h + a + b + d, e, p);
    says_more(h + a + b + d + e, f, p);
    says_more(h + a + b + d + e + f, "\n"@, p);
}

proof fn identity_says(m: ProcessView, c: Clock, p: Seq<char>)
    ensures
        says(report::pair_line("pid"@, num::dec(m.pid as int)), p) || (m.ppid matches Some(q)
            && says(report::pair_line("ppid"@, num::dec(q as int)), p)) || (m.user matches Some(u)
            && says(report::pair_line("user"@, u), p)) || (m.started matches Some(t) && says(
            report::pair_line("started"@, render::started_text(c, t)),
            p,
        )) || (m.cwd matches Some(w) && says(report::pair_line("cwd"@, w), p)) || (
        m.exe matches Some(e) && says(
            report::pair_line(
                "exe"@,
                if m.exe_deleted {
                    e + "  [deleted from disk]"@
                } else {
                    e
                },
            ),
            p,
        )) || (m.cmdline.len() > 0 && says(report::pair_line("cmd"@, m.command()), p)) ==> says(
            report::export_identity(m, c),
            p,
        ),
{
    let a0 = report::pair_line("pid"@, num::dec(m.pid as int));
    let a1 = match m.ppid {
        Some(pp) => report::pair_line("ppid"@, num::dec(pp as int)),
        None => ""@,
    };
    let a2 = report::known_pair("user"@, m.user);
    let a3 = match m.started {
        Some(t) => report::pair_line("started"@, render::started_text(c, t)),
        None => ""@,
    };
    let a4 = report::known_pair("cwd"@, m.cwd);
    let a5 = match m.exe {
        Some(e) => report::pair_line(
            "exe"@,
            if m.exe_deleted {
                e + "  [deleted from disk]"@
            } else {
                e
            },
        ),
        None => ""@,
    };
    let a6 = if m.cmdline.len() == 0 {
        ""@
    } else {
        report::pair_line("cmd"@, m.command())
    };
    says_more(a0, a1, p);
    says_more(a0 + a1, a2, p);
    says_more(a0 + a1 + a2, a3, p);
    says_more(a0 + a1 + a2 + a3, a4, p);
    says_more(a0 + a1 + a2 + a3 + a4, a5, p);
    says_more(a0 + a1 + a2 + a3 + a4 + a5, a6, p);
}

/// An export tells who the process is: its pid, and where they are known its
/// parent, user, start, directory, image and command line.
pub proof fn export_tells_who_it_is(
    rs: Seq<TargetReportView>,
    files: Seq<(Pid, Seq<Seq<char>>)>,
    c: Clock,
    i: int,
)
    requires
        0 <= i < rs.len(),
        rs[i].found,
        rs[i].matches.len() > 0,
    ensures
        ({
            let m = rs[i].matches[0];
            let t = report::export_text(rs, files, c, rs.len() as int);
            &&& says(t, num::dec(m.pid as int))
            &&& m.ppid matches Some(q) ==> says(t, num::dec(q as int))
            &&& m.user matches Some(u) ==> says(t, u)
            &&& m.started matches Some(s) ==> says(t, render::started_text(c, s))
            &&& m.cwd matches Some(w) ==> says(t, w)
            &&& m.exe matches Some(e) ==> says(t, e)
            &&& m.cmdline.len() > 0 ==> says(t, m.command())
        }),
{
    let r = rs[i];
    let m = r.matches[0];
    let n = rs.len() as int;
    let pid = num::dec(m.pid as int);
    pair_says("pid"@, pid);
    identity_says(m, c, pid);
    export_one_says(r, files, c, pid);
    export_says(rs, files, c, n, i, pid);
    if m.ppid is Some {
        let q = num::dec(m.ppid->0 as int);
        pair_says("ppid"@, q);
        identity_says(m, c, q);
        export_one_says(r, files, c, q);
        export_says(rs, files, c, n, i, q);
    }
    if m.user is Some {
        pair_says("user"@, m.user->0);
        identity_says(m, c, m.user->0);
        export_one_says(r, files, c, m.user->0);
        export_says(rs, files, c, n, i, m.user->0);
    }
    if m.started is Some {
        let s = render::started_text(c, m.started->0);
        pair_says("started"@, s);
        identity_says(m, c, s);
        export_one_says(r, files, c, s);
        export_says(rs, files, c, n, i, s);
    }
    if m.cwd is Some {
        pair_says("cwd"@, m.cwd->0);
        identity_says(m, c, m.cwd->0);
        export_one_says(r, files, c, m.cwd->0);
        export_says(rs, files, c, n, i, m.cwd->0);
    }
    if m.exe is Some {
        let v = if m.exe_deleted {
            m.exe->0 + "  [deleted from disk]"@
        } else {
            m.exe->0
        };
        pair_says("exe"@, v);
        holds_both(m.exe->0, "  [deleted from disk]"@);
        says_on(report::pair_line("exe"@, v), v, m.exe->0);
        identity_says(m, c, m.exe->0);
        export_one_says(r, files, c, m.exe->0);
        export_says(rs, files, c, n, i, m.exe->0);
    }
    if m.cmdline.len() > 0 {
        pair_says("cmd"@, m.command());
        identity_says(m, c, m.command());
        export_one_says(r, files, c, m.command());
        export_says(rs, files, c, n, i, m.command());
    }
}

proof fn vars_say(env: Seq<(Seq<char>, Seq<char>)>, n: int, i: int)
    requires
        0 <= i < n,
    ensures
        says(report::export_vars(env, n), env[i].0 + "="@ + env[i].1),
    decreases n,
{
    let p = env[i].0 + "="@ + env[i].1;
    let last = env[n - 1].0 + "="@ + env[n - 1].1;
    let a = report::export_vars(env, n - 1) + "  "@;
    if i < n - 1 {
        vars_say(env, n - 1, i);
        grow(report::export_vars(env, n - 1), "  "@, p);
    } else {
        says_itself(last);
    }
    grow(a, last, p);
    assert(a + env[n - 1].0 + "="@ + env[n - 1].1 =~= a + last);
    grow(a + last, "\n"@, p);
}

proof fn files_say(fs: Seq<Seq<char>>, n: int, i: int)
    requires
        0 <= i < n,
    ensures
        says(report::export_file_lines(fs, n), fs[i]),
    decreases n,
{
    let a = report::export_file_lines(fs, n - 1) + "  "@;
    if i < n - 1 {
        files_say(fs, n - 1, i);
        grow(report::export_file_lines(fs, n - 1), "  "@, fs[i]);
    } else {
        says_itself(fs[n - 1]);
    }
    grow(a, fs[n - 1], fs[i]);
    grow(a + fs[n - 1], "\n"@, fs[i]);
}

proof fn files_are_where(v: Seq<(Pid, Seq<Seq<char>>)>, pid: Pid, at: int, i: int)
    requires
        0 <= i <= at < v.len(),
        forall|j: int| 0 <= j < at ==> (#[trigger] v[j]).0 != pid,
        v[at].0 == pid,
    ensures
        report::files_for(v, pid, i) == v[at].1,
    decreases at - i,
{
    if i < at {
        files_are_where(v, pid, at, i + 1);
    }
}

/// An export shows up to sixty variables with their values and up to fifty open
/// files of the process, and says how many more there are.
pub proof fn export_tells_variables_and_files(
    rs: Seq<TargetReportView>,
    files: Seq<(Pid, Seq<Seq<char>>)>,
    c: Clock,
    i: int,
    at: int,
    j: int,
)
    requires
        0 <= i < rs.len(),
        rs[i].found,
        rs[i].matches.len() > 0,
        0 <= j,
        0 <= at < files.len(),
        files[at].0 == rs[i].matches[0].pid,
        forall|k: int| 0 <= k < at ==> (#[trigger] files[k]).0 != rs[i].matches[0].pid,
    ensures
        ({
            let m = rs[i].matches[0];
            let t = report::export_text(rs, files, c, rs.len() as int);
            &&& m.env matches Some(env) ==> (j < env.len() && j < 60 ==> says(
                t,
                env[j].0 + "="@ + env[j].1,
            )) && (env.len() > 60 ==> says(t, num::dec(env.len() - 60) + " more"@))
            &&& j < files[at].1.len() && j < 50 ==> says(t, files[at].1[j])
            &&& files[at].1.len() > 50 ==> says(t, num::dec(files[at].1.len() - 50) + " more"@)
        }),
{
    let r = rs[i];
    let m = r.matches[0];
    let n = rs.len() as int;
    if m.env is Some && m.env->0.len() > 0 {
        let env = m.env->0;
        let k = report::least(env.len() as int, 60);
        let a = report::pair_line("environment"@, num::dec(env.len() as int) + " variables"@);
        let b = report::export_vars(env, k);
        let d = report::and_more(env.len() as int, 60);
        if j < env.len() && j < 60 {
            let p = env[j].0 + "="@ + env[j].1;
            vars_say(env, k, j);
            grow(a, b, p);
            grow(a + b, d, p);
            export_one_says(r, files, c, p);
            export_says(rs, files, c, n, i, p);
        }
        if env.len() > 60 {
            let p = num::dec(env.len() - 60) + " more"@;
            more_says(env.len() as int, 60);
            grow(a + b, d, p);
            export_one_says(r, files, c, p);
            export_says(rs, files, c, n, i, p);
        }
    }
    let fs = files[at].1;
    files_are_where(files, m.pid, at, 0);
    if fs.len() > 0 {
        let k = report::least(fs.len() as int, 50);
        let a = report::pair_line("open files"@, num::dec(fs.len() as int));
        let b = report::export_file_lines(fs, k);
        let d = report::and_more(fs.len() as int, 50);
        if j < fs.len() && j < 50 {
            files_say(fs, k, j);
            grow(a, b, fs[j]);
            grow(a + b, d, fs[j]);
            export_one_says(r, files, c, fs[j]);
            export_says(rs, files, c, n, i, fs[j]);
        }
        if fs.len() > 50 {
            let p = num::dec(fs.len() - 50) + " more"@;
            more_says(fs.len() as int, 50);
            grow(a + b, d, p);
            export_one_says(r, files, c, p);
            export_says(rs, files, c, n, i, p);
        }
    }
}

proof fn more_says(total: int, shown: int)
    requires
        total > shown,
    ensures
        says(report::and_more(total, shown), num::dec(total - shown) + " more"@),
{
    let p = num::dec(total - shown) + " more"@;
    assert("  … "@ + num::dec(total - shown) + " more"@ =~= "  … "@ + p);
    holds_both("  … "@, p);
    grow("  … "@ + p, "\n"@, p);
}

proof fn links_say(chain: Seq<ProcessView>, n: int, i: int)
    requires
        0 <= i < n,
    ensures
        says(
            report::export_links(chain, n),
            chain[i].name + " (pid "@ + num::dec(chain[i].pid as int) + ")"@,
        ),
    decreases n,
{
    let p = chain[i].name + " (pid "@ + num::dec(chain[i].pid as int) + ")"@;
    let x = chain[n - 1];
    let last = x.name + " (pid "@ + num::dec(x.pid as int) + ")"@;
    let before = report::export_links(chain, n - 1);
    let joint = report::chain_joint("   "@, n - 1);
    let a = before + "  "@ + joint;
    if i < n - 1 {
        links_say(chain, n - 1, i);
        grow(before, "  "@, p);
        grow(before + "  "@, joint, p);
    } else {
        says_itself(last);
    }
    grow(a, last, p);
    assert(a + x.name + " (pid "@ + num::dec(x.pid as int) + ")"@ =~= a + last);
    let mark = if n == chain.len() {
        "  ← this"@
    } else {
        ""@
    };
    grow(a + last, mark, p);
    grow(a + last + mark, "\n"@, p);
}

proof fn export_warnings_say(ws: Seq<Seq<char>>, n: int, i: int)
    requires
        0 <= i < n,
    ensures
        says(report::export_warnings(ws, n), ws[i]),
    decreases n,
{
    let a = report::export_warnings(ws, n - 1) + "  ⚠ "@;
    if i < n - 1 {
        export_warnings_say(ws, n - 1, i);
        grow(report::export_warnings(ws, n - 1), "  ⚠ "@, ws[i]);
    } else {
        says_itself(ws[n - 1]);
    }
    grow(a, ws[n - 1], ws[i]);
    grow(a + ws[n - 1], "\n"@, ws[i]);
}

/// An export tells what started the process, every link of its chain, its risk
/// and every warning.
pub proof fn export_tells_where_it_comes_from(
    rs: Seq<TargetReportView>,
    files: Seq<(Pid, Seq<Seq<char>>)>,
    c: Clock,
    i: int,
    j: int,
)
    requires
        0 <= i < rs.len(),
        rs[i].found,
        rs[i].matches.len() > 0,
        0 <= j,
    ensures
        ({
            let r = rs[i];
            let t = report::export_text(rs, files, c, rs.len() as int);
            &&& r.source matches Some(s) ==> (s.kind.len() > 0 && !text::is_white(s.kind.last())
                ==> says(t, s.kind))
            &&& r.ancestry.len() > 1 && j < r.ancestry.len() ==> says(
                t,
                r.ancestry[j].name + " (pid "@ + num::dec(r.ancestry[j].pid as int) + ")"@,
            )
            &&& r.risk matches Some(k) ==> (k.score > 0 ==> says(
                t,
                num::dec(k.score as int) + "/10 — "@,
            ))
            &&& j < r.warnings.len() ==> says(t, r.warnings[j])
        }),
{
    let r = rs[i];
    let n = rs.len() as int;
    let (a, b) = (report::export_source(r), report::export_chain(r));
    if r.source is Some && r.source->0.kind.len() > 0 && !text::is_white(
        r.source->0.kind.last(),
    ) {
        let s = r.source->0;
        let line = report::source_line(""@, s);
        source_line_says(""@, s);
        pair_says("started by"@, line);
        says_on(a, line, s.kind);
        grow(a, b, s.kind);
        export_one_says(r, files, c, s.kind);
        export_says(rs, files, c, n, i, s.kind);
    }
    if r.ancestry.len() > 1 && j < r.ancestry.len() {
        let p = r.ancestry[j].name + " (pid "@ + num::dec(r.ancestry[j].pid as int) + ")"@;
        links_say(r.ancestry, r.ancestry.len() as int, j);
        grow(
            report::pair_line("chain"@, "root → this"@),
            report::export_links(r.ancestry, r.ancestry.len() as int),
            p,
        );
        grow(a, b, p);
        export_one_says(r, files, c, p);
        export_says(rs, files, c, n, i, p);
    }
    let (x, y, z) = (report::export_sockets(r), report::export_risk(r), report::export_warned(r));
    if r.risk is Some && r.risk->0.score > 0 {
        let k = r.risk->0;
        let p = num::dec(k.score as int) + "/10 — "@;
        let v = p + text::join(k.signals, "; "@);
        pair_says("risk"@, v);
        holds_both(p, text::join(k.signals, "; "@));
        says_on(y, v, p);
        grow(x, y, p);
        grow(x + y, z, p);
        export_one_says(r, files, c, p);
        export_says(rs, files, c, n, i, p);
    }
    if j < r.warnings.len() {
        let p = r.warnings[j];
        export_warnings_say(r.warnings, r.warnings.len() as int, j);
        grow(
            report::pair_line("warnings"@, ""@),
            report::export_warnings(r.warnings, r.warnings.len() as int),
            p,
        );
        grow(x + y, z, p);
        export_one_says(r, files, c, p);
        export_says(rs, files, c, n, i, p);
    }
}

// ---------- several reports ----------

proof fn tree_lines_say(procs: Seq<ProcessView>, on: bool, rows: Seq<render::TreeRow>, i: int)
    requires
        0 <= i < rows.len(),
    ensures
        says(render::tree_lines(procs, on, rows), render::tree_line(procs, on, rows[i])),
    decreases rows.len(),
{
    let line = render::tree_line(procs, on, rows[i]);
    let last = render::tree_line(procs, on, rows.last());
    if i < rows.len() - 1 {
        tree_lines_say(procs, on, rows.drop_last(), i);
        assert(rows.drop_last()[i] == rows[i]);
    } else {
        says_itself(last);
    }
    grow(render::tree_lines(procs, on, rows.drop_last()), last, line);
}

/// The forest has a line for each of its rows, and ends with the number of
/// processes.
pub proof fn forest_has_a_line_for_each_row(procs: Seq<ProcessView>, on: bool, i: int)
    requires
        0 <= i < render::forest_rows(procs).len(),
    ensures
        says(
            render::forest_text(procs, on),
            render::tree_line(procs, on, render::forest_rows(procs)[i]),
        ),
        text::ends_with(
            render::forest_text(procs, on),
            "\n"@ + num::dec(procs.len() as int) + " process(es)"@ + "\n"@,
        ),
{
    let rows = render::forest_rows(procs);
    let p = render::tree_line(procs, on, rows[i]);
    let body = render::tree_lines(procs, on, rows);
    let count = num::dec(procs.len() as int);
    tree_lines_say(procs, on, rows, i);
    grow(body, "\n"@, p);
    grow(body + "\n"@, count, p);
    grow(body + "\n"@ + count, " process(es)"@, p);
    grow(body + "\n"@ + count + " process(es)"@, "\n"@, p);
    let end = "\n"@ + count + " process(es)"@ + "\n"@;
    assert(render::forest_text(procs, on) =~= body + end);
    text::holding_is_standing_between(render::forest_text(procs, on), end);
}

/// Reports are printed in the form that was asked for, one behind the other:
/// short ones on lines of their own, others with an empty line between them.
pub proof fn reports_follow_each_other(
    rs: Seq<TargetReportView>,
    format: render::Format,
    on: bool,
    c: Clock,
    i: int,
)
    requires
        0 <= i < rs.len(),
    ensures
        ({
            let one = |k: int|
                match format {
                    render::Format::Short => report::short_text(rs[k], on, c),
                    render::Format::Tree => report::tree_text(rs[k], on),
                    _ => report::standard_text(rs[k], on, c),
                };
            let gap = if format == render::Format::Short {
                "\n"@
            } else {
                "\n\n"@
            };
            let t = text::join(
                render::report_texts(rs, format, on, c),
                render::report_gap(format),
            );
            &&& says(t, one(i))
            &&& i + 1 < rs.len() ==> says(t, one(i) + gap + one(i + 1))
            &&& rs.len() == 1 ==> t == one(i)
        }),
{
    let parts = render::report_texts(rs, format, on, c);
    let gap = render::report_gap(format);
    joined_says(parts, gap, i);
    if i + 1 < rs.len() {
        neighbours_are_joined(parts, gap, i);
    }
}

// ---------- drawing ----------

proof fn branch_begins_with(
    procs: Seq<ProcessView>,
    ks: Seq<Pid>,
    prefix: Seq<char>,
    depth: nat,
    n: nat,
    k: int,
)
    requires
        depth > 0,
        0 <= k < n <= ks.len(),
    ensures
        exists|i: int|
            0 <= i < render::branches(procs, ks, prefix, depth, n).len()
                && #[trigger] render::branches(procs, ks, prefix, depth, n)[i] == (
            render::TreeRow { pid: ks[k], prefix, is_root: false, is_last: k + 1 == ks.len() }),
    decreases n,
{
    let before = render::branches(procs, ks, prefix, depth, (n - 1) as nat);
    let last = render::branch(procs, ks[n - 1], prefix, false, n == ks.len(), depth);
    let all = render::branches(procs, ks, prefix, depth, n);
    let row = render::TreeRow { pid: ks[k], prefix, is_root: false, is_last: k + 1 == ks.len() };
    if k < n - 1 {
        branch_begins_with(procs, ks, prefix, depth, (n - 1) as nat, k);
        let i = choose|i: int| 0 <= i < before.len() && #[trigger] before[i] == row;
        assert(all[i] == row);
    } else {
        assert(last[0] == row);
        assert(all[before.len() as int] == row);
    }
}

/// Below a process stand its children: those of a process at the top begin at
/// the margin, those of the last child are moved in by three spaces, and those
/// of any other by a bar and two spaces. Only the last of them is marked as the
/// last.
pub proof fn children_are_drawn_below(
    procs: Seq<ProcessView>,
    pid: Pid,
    prefix: Seq<char>,
    is_root: bool,
    is_last: bool,
    depth: nat,
    k: int,
)
    requires
        depth >= 2,
        0 <= k < render::kids(procs, pid).len(),
    ensures
        ({
            let ks = render::kids(procs, pid);
            let rows = render::branch(procs, pid, prefix, is_root, is_last, depth);
            let moved = if is_root {
                ""@
            } else if is_last {
                prefix + "   "@
            } else {
                prefix + "│  "@
            };
            &&& rows[0] == (render::TreeRow { pid, prefix, is_root, is_last })
            &&& exists|i: int|
                1 <= i < rows.len() && #[trigger] rows[i] == (render::TreeRow {
                    pid: ks[k],
                    prefix: moved,
                    is_root: false,
                    is_last: k + 1 == ks.len(),
                })
        }),
{
    let ks = render::kids(procs, pid);
    let moved = render::deeper(prefix, is_root, is_last);
    let rows = render::branch(procs, pid, prefix, is_root, is_last, depth);
    let below = render::branches(procs, ks, moved, (depth - 1) as nat, ks.len());
    branch_begins_with(procs, ks, moved, (depth - 1) as nat, ks.len(), k);
    let row = render::TreeRow {
        pid: ks[k],
        prefix: moved,
        is_root: false,
        is_last: k + 1 == ks.len(),
    };
    let i = choose|i: int| 0 <= i < below.len() && #[trigger] below[i] == row;
    assert(rows[i + 1] == row);
}

/// A row begins with its prefix and its joint: a corner for the last child, a
/// fork for any other, and nothing at the top.
pub proof fn rows_have_their_joints(procs: Seq<ProcessView>, row: render::TreeRow)
    ensures
        text::starts_with(
            render::tree_line(procs, false, row),
            row.prefix + (if row.is_root {
                ""@
            } else if row.is_last {
                "└─ "@
            } else {
                "├─ "@
            }),
        ),
{
    let joint = render::joint(row.is_root, row.is_last);
    let t = render::tree_line(procs, false, row);
    let front = row.prefix + joint;
    let l = render::label(procs, row.pid);
    assert(t =~= front + (l + "\n"@));
    text::holding_is_standing_between(t, front);
}

/// Each link of a chain is moved in one step further than the one above it, and
/// the first not at all.
pub proof fn links_are_moved_in(step: Seq<char>, depth: int)
    requires
        depth >= 1,
    ensures
        report::chain_joint(step, 0) == ""@,
        report::chain_joint(step, 1) == "└─ "@,
        report::chain_joint(step, depth + 1) == step + report::chain_joint(step, depth),
{
    let n = (depth - 1) as nat;
    repeated_in_front(step, n);
    assert(num::repeat(step, depth as nat) == step + num::repeat(step, n));
    assert(step + num::repeat(step, n) + "└─ "@ =~= step + (num::repeat(step, n) + "└─ "@));
    assert(num::repeat(step, 0) =~= seq![]);
    assert(num::repeat(step, 0) + "└─ "@ =~= "└─ "@);
}

proof fn repeated_in_front(s: Seq<char>, k: nat)
    ensures
        num::repeat(s, k + 1) == s + num::repeat(s, k),
    decreases k,
{
    if k == 0 {
        reveal_with_fuel(num::repeat, 2);
        assert(num::repeat(s, 1) =~= s + num::repeat(s, 0));
    } else {
        repeated_in_front(s, (k - 1) as nat);
        assert(num::repeat(s, k + 1) == num::repeat(s, k) + s);
        assert(s + num::repeat(s, (k - 1) as nat) + s =~= s + (num::repeat(s, (k - 1) as nat) + s));
    }
}

} // verus!
