//! The texts that the program prints: process table and forest, and the
//! short, standard, tree and export forms of reports.

use vstd::prelude::*;
use vstd::string::*;

use crate::model::{Pid, Process, TargetReport};
use crate::model::{ProcessView, TargetReportView};
use crate::num::{dec_i32, dec_usize, padded_left, padded_right, width};
use crate::order::{field_of_number, key_of_one, positions, sort};
use crate::text::{joined, text};
use crate::util::{fmt_age, fmt_time, since};
use crate::{num, order, text, util};

pub mod contents;
pub mod forest;
pub mod report;

use report::{render_short, render_standard, render_tree};

verus! {

// ---------- paint ----------

#[derive(Debug, Clone, Copy, PartialEq, Eq, Structural)]
pub enum Format {
    Standard,
    Tree,
    Short,
    Json,
}

/// Minimal ANSI painter; every method degrades to plain text when disabled.
pub struct Painter {
    enabled: bool,
}

/// `s` between the escape sequences for `code`, or plain.
pub open spec fn painted(on: bool, code: Seq<char>, s: Seq<char>) -> Seq<char> {
    if on {
        "\x1b["@ + code + "m"@ + s + "\x1b[0m"@
    } else {
        s
    }
}

pub open spec fn bold(on: bool, s: Seq<char>) -> Seq<char> {
    painted(on, "1"@, s)
}

pub open spec fn dim(on: bool, s: Seq<char>) -> Seq<char> {
    painted(on, "2"@, s)
}

pub open spec fn yellow(on: bool, s: Seq<char>) -> Seq<char> {
    painted(on, "33"@, s)
}

pub open spec fn green(on: bool, s: Seq<char>) -> Seq<char> {
    painted(on, "32"@, s)
}

impl View for Painter {
    type V = bool;

    closed spec fn view(&self) -> bool {
        self.enabled
    }
}

impl Painter {
    pub fn new(enabled: bool) -> (r: Painter)
        ensures
            r@ == enabled,
    {
        Painter { enabled }
    }

    fn wrap(&self, code: &str, s: &str) -> (r: String)
        ensures
            r@ == painted(self@, code@, s@),
    {
        if self.enabled {
            let mut out = text("\x1b[");
            out.append(code);
            out.append("m");
            out.append(s);
            out.append("\x1b[0m");
            out
        } else {
            text(s)
        }
    }

    pub fn bold(&self, s: &str) -> (r: String)
        ensures
            r@ == bold(self@, s@),
    {
        self.wrap("1", s)
    }

    pub fn dim(&self, s: &str) -> (r: String)
        ensures
            r@ == dim(self@, s@),
    {
        self.wrap("2", s)
    }

    pub fn yellow(&self, s: &str) -> (r: String)
        ensures
            r@ == yellow(self@, s@),
    {
        self.wrap("33", s)
    }

    pub fn green(&self, s: &str) -> (r: String)
        ensures
            r@ == green(self@, s@),
    {
        self.wrap("32", s)
    }
}

/// Disabled painting changes nothing.
pub proof fn plain_when_disabled(code: Seq<char>, s: Seq<char>)
    ensures
        painted(false, code, s) == s,
{
}

// ---------- times ----------

/// The time of day to render against, in seconds since 1970, and the seconds
/// that local time is ahead of UTC.
#[derive(Debug, Clone, Copy, PartialEq, Eq, Structural)]
pub struct Clock {
    pub now: i64,
    pub offset: i64,
}

/// How long ago a time was.
pub open spec fn age(c: Clock, t: i64) -> Seq<char> {
    util::age_text(util::elapsed(c.now as int, t as int))
}

fn age_of(c: Clock, t: i64) -> (r: String)
    ensures
        r@ == age(c, t),
{
    fmt_age(since(c.now, t))
}

/// A start time and how long ago it was.
pub open spec fn started_text(c: Clock, t: i64) -> Seq<char> {
    util::time_text(util::in_range(t + c.offset)) + " ("@ + age(c, t) + " ago)"@
}

/// See the spec function `started_text`.
pub fn fmt_started_line(c: Clock, t: i64) -> (r: String)
    ensures
        r@ == started_text(c, t),
{
    let mut out = fmt_time(t, c.offset);
    out.append(" (");
    out.append(age_of(c, t).as_str());
    out.append(" ago)");
    out
}

/// An optional text, or what stands in for it.
pub open spec fn or(o: Option<Seq<char>>, other: Seq<char>) -> Seq<char> {
    match o {
        Some(t) => t,
        None => other,
    }
}

/// See the spec function `or`.
pub fn text_or(o: &Option<String>, other: &str) -> (r: String)
    ensures
        r@ == or(text::opt(*o), other@),
{
    match o {
        Some(t) => t.clone(),
        None => text(other),
    }
}

// ---------- the process table ----------

/// The sort keys of some pids.
pub open spec fn pid_keys(pids: Seq<Pid>) -> Seq<order::Key> {
    Seq::new(pids.len(), |i: int| seq![seq![pids[i] as i64]])
}

/// The positions of some pids from the lowest to the highest; the same pid
/// keeps its order.
pub open spec fn pid_order(pids: Seq<Pid>) -> Seq<usize> {
    order::sorted(order::all_positions(pids.len()), pid_keys(pids), false)
}

/// See the spec function `pid_order`.
pub fn order_of_pids(pids: &Vec<Pid>) -> (r: Vec<usize>)
    ensures
        r@ == pid_order(pids@),
        r@.len() == pids@.len(),
        forall|i: int| 0 <= i < r@.len() ==> #[trigger] r@[i] < pids@.len(),
{
    broadcast use crate::order::keys_view_push;

    let mut keys: Vec<Vec<Vec<i64>>> = Vec::new();
    let mut i: usize = 0;
    assert(order::keys_view(keys@) =~= pid_keys(pids@).take(0));
    while i < pids.len()
        invariant
            i <= pids@.len(),
            keys@.len() == i,
            order::keys_view(keys@) == pid_keys(pids@).take(i as int),
        decreases pids@.len() - i,
    {
        keys.push(key_of_one(field_of_number(pids[i] as i64)));
        assert(pid_keys(pids@).take(i + 1) =~= pid_keys(pids@).take(i as int).push(
            pid_keys(pids@)[i as int],
        ));
        i += 1;
    }
    assert(pid_keys(pids@).take(i as int) =~= pid_keys(pids@));
    let idx = positions(pids.len());
    sort(&idx, &keys, false)
}

/// The pids of some processes.
pub open spec fn pids_of(procs: Seq<ProcessView>) -> Seq<Pid> {
    Seq::new(procs.len(), |i: int| procs[i].pid)
}

/// The processes by pid.
pub open spec fn by_pid(procs: Seq<ProcessView>) -> Seq<ProcessView> {
    order::arranged(procs, pid_order(pids_of(procs)))
}

/// The cells of a row: pid, parent, user, age and name.
pub open spec fn cells(p: ProcessView, c: Clock) -> Seq<Seq<char>> {
    seq![
        num::dec(p.pid as int),
        match p.ppid {
            Some(x) => num::dec(x as int),
            None => "-"@,
        },
        or(p.user, "-"@),
        match p.started {
            Some(t) => age(c, t),
            None => "-"@,
        },
        p.name,
    ]
}

/// The cells of the header.
pub open spec fn header_cells() -> Seq<Seq<char>> {
    seq!["PID"@, "PPID"@, "USER"@, "AGE"@, "NAME"@]
}

/// The width of a column over the first `n` rows: its widest cell.
pub open spec fn column_width(rows: Seq<Seq<Seq<char>>>, k: int, n: int) -> int
    decreases n,
{
    if n <= 0 {
        0
    } else {
        let w = column_width(rows, k, n - 1);
        if rows[n - 1][k].len() > w {
            rows[n - 1][k].len() as int
        } else {
            w
        }
    }
}

/// A row of the table: every column but the last is padded, the user on the
/// right and the others on the left.
pub open spec fn table_row(row: Seq<Seq<char>>, w: Seq<int>) -> Seq<char> {
    num::pad_left(row[0], w[0]) + "  "@ + num::pad_left(row[1], w[1]) + "  "@ + num::pad_right(
        row[2],
        w[2],
    ) + "  "@ + num::pad_left(row[3], w[3]) + "  "@ + row[4] + "\n"@
}

/// The first `n` rows.
pub open spec fn table_rows(rows: Seq<Seq<Seq<char>>>, w: Seq<int>, n: int) -> Seq<char>
    decreases n,
{
    if n <= 0 {
        seq![]
    } else {
        table_rows(rows, w, n - 1) + table_row(rows[n - 1], w)
    }
}

/// The header and the rows.
pub open spec fn grid(procs: Seq<ProcessView>, c: Clock) -> Seq<Seq<Seq<char>>> {
    seq![header_cells()] + Seq::new(procs.len(), |i: int| cells(procs[i], c))
}

/// The widths of the padded columns.
pub open spec fn grid_widths(rows: Seq<Seq<Seq<char>>>) -> Seq<int> {
    Seq::new(4, |k: int| column_width(rows, k, rows.len() as int))
}

/// The cells of the header, painted.
pub open spec fn painted_header(on: bool) -> Seq<Seq<char>> {
    Seq::new(5, |k: int| bold(on, header_cells()[k]))
}

/// The process table.
pub open spec fn table_text(procs: Seq<ProcessView>, on: bool, c: Clock) -> Seq<char> {
    let sorted = by_pid(procs);
    let rows = grid(sorted, c);
    let w = grid_widths(rows);
    table_row(painted_header(on), w) + table_rows(rows.skip(1), w, procs.len() as int) + "\n"@
        + num::dec(procs.len() as int) + " process(es)"@ + "\n"@
}

fn cells_of(p: &Process, c: Clock) -> (r: Vec<String>)
    ensures
        text::texts(r@) == cells(p@, c),
        r@.len() == 5,
{
    let mut v: Vec<String> = Vec::new();
    v.push(dec_i32(p.pid));
    v.push(
        match p.ppid {
            Some(x) => dec_i32(x),
            None => text("-"),
        },
    );
    v.push(text_or(&p.user, "-"));
    v.push(
        match p.started {
            Some(t) => age_of(c, t),
            None => text("-"),
        },
    );
    v.push(p.name.clone());
    assert(text::texts(v@) =~= cells(p@, c));
    v
}

fn header_row() -> (r: Vec<String>)
    ensures
        text::texts(r@) == header_cells(),
        r@.len() == 5,
{
    let mut v: Vec<String> = Vec::new();
    v.push(text("PID"));
    v.push(text("PPID"));
    v.push(text("USER"));
    v.push(text("AGE"));
    v.push(text("NAME"));
    assert(text::texts(v@) =~= header_cells());
    v
}

fn painted_header_row(p: &Painter) -> (r: Vec<String>)
    ensures
        text::texts(r@) == painted_header(p@),
        r@.len() == 5,
{
    let mut v: Vec<String> = Vec::new();
    v.push(p.bold("PID"));
    v.push(p.bold("PPID"));
    v.push(p.bold("USER"));
    v.push(p.bold("AGE"));
    v.push(p.bold("NAME"));
    assert(text::texts(v@) =~= painted_header(p@));
    v
}

/// What the rows of a table show.
pub open spec fn rows_view(rows: Seq<Vec<String>>) -> Seq<Seq<Seq<char>>> {
    Seq::new(rows.len(), |i: int| text::texts(rows[i]@))
}

fn width_of_column(rows: &Vec<Vec<String>>, k: usize) -> (r: usize)
    requires
        k < 5,
        forall|i: int| 0 <= i < rows@.len() ==> (#[trigger] rows@[i])@.len() == 5,
    ensures
        r == column_width(rows_view(rows@), k as int, rows@.len() as int),
{
    let ghost all = rows_view(rows@);
    let mut w: usize = 0;
    let mut i: usize = 0;
    while i < rows.len()
        invariant
            k < 5,
            forall|i: int| 0 <= i < rows@.len() ==> (#[trigger] rows@[i])@.len() == 5,
            all == rows_view(rows@),
            i <= rows@.len(),
            w == column_width(all, k as int, i as int),
        decreases rows@.len() - i,
    {
        assert(all[i as int][k as int] == rows@[i as int]@[k as int]@);
        let x = width(rows[i][k].as_str());
        if x > w {
            w = x;
        }
        i += 1;
    }
    w
}

fn row_text(row: &Vec<String>, w0: usize, w1: usize, w2: usize, w3: usize) -> (r: String)
    requires
        row@.len() == 5,
    ensures
        r@ == table_row(text::texts(row@), seq![w0 as int, w1 as int, w2 as int, w3 as int]),
{
    let mut out = padded_left(row[0].as_str(), w0);
    out.append("  ");
    out.append(padded_left(row[1].as_str(), w1).as_str());
    out.append("  ");
    out.append(padded_right(row[2].as_str(), w2).as_str());
    out.append("  ");
    out.append(padded_left(row[3].as_str(), w3).as_str());
    out.append("  ");
    out.append(row[4].as_str());
    out.append("\n");
    out
}

/// Render the "no target" default view: every process in a table.
pub fn render_process_table(procs: &[Process], p: &Painter, c: Clock) -> (r: String)
    ensures
        r@ == table_text(text::views(procs@), p@, c),
{
    let ghost all = text::views(procs@);
    let ghost sorted = by_pid(all);
    let ghost want = grid(sorted, c);
    let mut pids: Vec<Pid> = Vec::new();
    let mut i: usize = 0;
    while i < procs.len()
        invariant
            all == text::views(procs@),
            i <= procs@.len(),
            pids@.len() == i,
            forall|j: int| 0 <= j < i ==> pids@[j] == all[j].pid,
        decreases procs@.len() - i,
    {
        pids.push(procs[i].pid);
        i += 1;
    }
    assert(pids@ =~= pids_of(all));
    let o = order_of_pids(&pids);
    let mut rows: Vec<Vec<String>> = Vec::new();
    rows.push(header_row());
    let mut j: usize = 0;
    while j < o.len()
        invariant
            all == text::views(procs@),
            o@ == pid_order(pids_of(all)),
            sorted == by_pid(all),
            want == grid(sorted, c),
            forall|x: int| 0 <= x < o@.len() ==> #[trigger] o@[x] < procs@.len(),
            j <= o@.len(),
            rows@.len() == j + 1,
            forall|x: int|
                0 <= x < rows@.len() ==> (#[trigger] rows@[x])@.len() == 5 && text::texts(
                    rows@[x]@,
                ) == want[x],
        decreases o@.len() - j,
    {
        assert(o@[j as int] < procs@.len());
        let q = &procs[o[j]];
        assert(sorted[j as int] == q@);
        assert(want[j + 1] == cells(sorted[j as int], c));
        rows.push(cells_of(q, c));
        j += 1;
    }
    assert(rows_view(rows@) =~= want);
    let w0 = width_of_column(&rows, 0);
    let w1 = width_of_column(&rows, 1);
    let w2 = width_of_column(&rows, 2);
    let w3 = width_of_column(&rows, 3);
    let ghost w = grid_widths(want);
    assert(w =~= seq![w0 as int, w1 as int, w2 as int, w3 as int]);
    let mut out = row_text(&painted_header_row(p), w0, w1, w2, w3);
    let ghost head = out@;
    let ghost body = want.skip(1);
    let mut k: usize = 1;
    assert(head + table_rows(body, w, 0) =~= head);
    while k < rows.len()
        invariant
            w == seq![w0 as int, w1 as int, w2 as int, w3 as int],
            rows_view(rows@) == want,
            body == want.skip(1),
            1 <= k <= rows@.len(),
            forall|x: int| 0 <= x < rows@.len() ==> (#[trigger] rows@[x])@.len() == 5,
            out@ == head + table_rows(body, w, k - 1),
        decreases rows@.len() - k,
    {
        assert(rows@[k as int]@.len() == 5);
        assert(body[k - 1] == text::texts(rows@[k as int]@)) by {
            assert(want[k as int] == rows_view(rows@)[k as int]);
        }
        let ghost before = out@;
        let line = row_text(&rows[k], w0, w1, w2, w3);
        out.append(line.as_str());
        assert(before + line@ =~= head + (table_rows(body, w, k - 1) + line@));
        k += 1;
    }
    out.append("\n");
    out.append(dec_usize(procs.len()).as_str());
    out.append(" process(es)");
    out.append("\n");
    out
}

// ---------- the process forest ----------

/// Whether some process has this pid.
pub open spec fn has_pid(procs: Seq<ProcessView>, pid: Pid) -> bool {
    exists|i: int| 0 <= i < procs.len() && (#[trigger] procs[i]).pid == pid
}

/// Whether `pid` is the parent of a process, another one and listed.
pub open spec fn is_parent(procs: Seq<ProcessView>, p: ProcessView, pid: Pid) -> bool {
    p.ppid == Some(pid) && p.pid != pid && has_pid(procs, pid)
}

/// The position of the last of the first `n` processes with this pid, or -1.
pub open spec fn last_with(procs: Seq<ProcessView>, pid: Pid, n: int) -> int
    decreases n,
{
    if n <= 0 {
        -1
    } else if procs[n - 1].pid == pid {
        n - 1
    } else {
        last_with(procs, pid, n - 1)
    }
}

/// The parent of the process with this pid, where it is listed.
pub open spec fn parent_of(procs: Seq<ProcessView>, pid: Pid) -> Option<Pid> {
    let i = last_with(procs, pid, procs.len() as int);
    if i >= 0 {
        match procs[i].ppid {
            Some(pp) => if is_parent(procs, procs[i], pp) {
                Some(pp)
            } else {
                None
            },
            None => None,
        }
    } else {
        None
    }
}

/// Whether the way up from `at`, past pids higher than `head` alone, comes to
/// `head`.
pub open spec fn comes_to(procs: Seq<ProcessView>, head: Pid, at: Pid, steps: nat) -> bool
    decreases steps,
{
    match parent_of(procs, at) {
        Some(q) => if q == head {
            true
        } else if q < head || steps == 0 {
            false
        } else {
            comes_to(procs, head, q, (steps - 1) as nat)
        },
        None => false,
    }
}

/// Whether parents lead round from `pid` to itself, and it is the lowest of
/// the pids on the way. Such a process stands at the top of its tree, which
/// would have none otherwise.
pub open spec fn heads_circle(procs: Seq<ProcessView>, pid: Pid) -> bool {
    comes_to(procs, pid, pid, procs.len())
}

/// Whether a process hangs under `pid`, its parent.
pub open spec fn hangs_under(procs: Seq<ProcessView>, p: ProcessView, pid: Pid) -> bool {
    is_parent(procs, p, pid) && !heads_circle(procs, p.pid)
}

/// Whether a process hangs under no other.
pub open spec fn is_root(procs: Seq<ProcessView>, p: ProcessView) -> bool {
    match p.ppid {
        Some(pp) => !hangs_under(procs, p, pp),
        None => true,
    }
}

/// The pids of those among the first `n` processes that hang under `pid`.
pub open spec fn kids_among(procs: Seq<ProcessView>, pid: Pid, n: int) -> Seq<Pid>
    decreases n,
{
    if n <= 0 {
        seq![]
    } else if hangs_under(procs, procs[n - 1], pid) {
        kids_among(procs, pid, n - 1).push(procs[n - 1].pid)
    } else {
        kids_among(procs, pid, n - 1)
    }
}

/// The pids of the roots among the first `n` processes.
pub open spec fn roots_among(procs: Seq<ProcessView>, n: int) -> Seq<Pid>
    decreases n,
{
    if n <= 0 {
        seq![]
    } else if is_root(procs, procs[n - 1]) {
        roots_among(procs, n - 1).push(procs[n - 1].pid)
    } else {
        roots_among(procs, n - 1)
    }
}

/// Some pids from the lowest to the highest.
pub open spec fn ascending(pids: Seq<Pid>) -> Seq<Pid> {
    order::arranged(pids, pid_order(pids))
}

/// The children of `pid` from the lowest to the highest.
pub open spec fn kids(procs: Seq<ProcessView>, pid: Pid) -> Seq<Pid> {
    ascending(kids_among(procs, pid, procs.len() as int))
}

/// The roots from the lowest to the highest.
pub open spec fn roots(procs: Seq<ProcessView>) -> Seq<Pid> {
    ascending(roots_among(procs, procs.len() as int))
}

/// A process in the forest.
pub open spec fn label(procs: Seq<ProcessView>, pid: Pid) -> Seq<char> {
    let i = last_with(procs, pid, procs.len() as int);
    if i >= 0 {
        procs[i].name + " (pid "@ + num::dec(procs[i].pid as int) + ", "@ + or(
            procs[i].user,
            "-"@,
        ) + ")"@
    } else {
        "pid "@ + num::dec(pid as int)
    }
}

/// What joins a process to the one above it.
pub open spec fn joint(is_root: bool, is_last: bool) -> Seq<char> {
    if is_root {
        ""@
    } else if is_last {
        "└─ "@
    } else {
        "├─ "@
    }
}

/// What stands before the children of a process.
pub open spec fn deeper(prefix: Seq<char>, is_root: bool, is_last: bool) -> Seq<char> {
    if is_root {
        ""@
    } else if is_last {
        prefix + "   "@
    } else {
        prefix + "│  "@
    }
}

/// A row of the forest: a process, and what it needs to be drawn.
pub struct TreeRow {
    pub pid: Pid,
    pub prefix: Seq<char>,
    pub is_root: bool,
    pub is_last: bool,
}

/// The line of one process.
pub open spec fn tree_line(procs: Seq<ProcessView>, on: bool, row: TreeRow) -> Seq<char> {
    dim(on, row.prefix) + bold(on, joint(row.is_root, row.is_last)) + label(procs, row.pid) + "\n"@
}

/// The lines of some rows.
pub open spec fn tree_lines(procs: Seq<ProcessView>, on: bool, rows: Seq<TreeRow>) -> Seq<char>
    decreases rows.len(),
{
    if rows.len() == 0 {
        seq![]
    } else {
        tree_lines(procs, on, rows.drop_last()) + tree_line(procs, on, rows.last())
    }
}

/// The rows of a process and all below it, as far as `depth` levels go.
pub open spec fn branch(
    procs: Seq<ProcessView>,
    pid: Pid,
    prefix: Seq<char>,
    is_root: bool,
    is_last: bool,
    depth: nat,
) -> Seq<TreeRow>
    decreases depth, 0nat,
{
    if depth == 0 {
        seq![]
    } else {
        let ks = kids(procs, pid);
        seq![TreeRow { pid, prefix, is_root, is_last }] + branches(
            procs,
            ks,
            deeper(prefix, is_root, is_last),
            (depth - 1) as nat,
            ks.len(),
        )
    }
}

/// The rows of the first `n` of these children and all below them.
pub open spec fn branches(
    procs: Seq<ProcessView>,
    ks: Seq<Pid>,
    prefix: Seq<char>,
    depth: nat,
    n: nat,
) -> Seq<TreeRow>
    decreases depth, n,
{
    if n == 0 {
        seq![]
    } else {
        branches(procs, ks, prefix, depth, (n - 1) as nat) + branch(
            procs,
            ks[n - 1],
            prefix,
            false,
            n == ks.len(),
            depth,
        )
    }
}

/// The rows of the first `n` trees.
pub open spec fn trees(procs: Seq<ProcessView>, rs: Seq<Pid>, n: int) -> Seq<TreeRow>
    decreases n,
{
    if n <= 0 {
        seq![]
    } else {
        trees(procs, rs, n - 1) + branch(procs, rs[n - 1], ""@, true, true, procs.len())
    }
}

/// The rows of the process forest. No tree is deeper than there are processes.
pub open spec fn forest_rows(procs: Seq<ProcessView>) -> Seq<TreeRow> {
    trees(procs, roots(procs), roots(procs).len() as int)
}

/// The process forest.
pub open spec fn forest_text(procs: Seq<ProcessView>, on: bool) -> Seq<char> {
    tree_lines(procs, on, forest_rows(procs)) + "\n"@ + num::dec(procs.len() as int)
        + " process(es)"@ + "\n"@
}

fn has_pid_of(procs: &[Process], pid: Pid) -> (r: bool)
    ensures
        r == has_pid(text::views(procs@), pid),
{
    let ghost all = text::views(procs@);
    let mut i: usize = 0;
    while i < procs.len()
        invariant
            all == text::views(procs@),
            i <= procs@.len(),
            forall|j: int| 0 <= j < i ==> (#[trigger] all[j]).pid != pid,
        decreases procs@.len() - i,
    {
        assert(all[i as int] == procs@[i as int]@);
        if procs[i].pid == pid {
            return true;
        }
        i += 1;
    }
    false
}

fn ascending_of(pids: &Vec<Pid>) -> (r: Vec<Pid>)
    ensures
        r@ == ascending(pids@),
{
    let o = order_of_pids(pids);
    let mut out: Vec<Pid> = Vec::new();
    let mut i: usize = 0;
    while i < o.len()
        invariant
            forall|x: int| 0 <= x < o@.len() ==> #[trigger] o@[x] < pids@.len(),
            i <= o@.len(),
            out@.len() == i,
            forall|x: int| 0 <= x < i ==> out@[x] == pids@[o@[x] as int],
        decreases o@.len() - i,
    {
        assert(o@[i as int] < pids@.len());
        out.push(pids[o[i]]);
        i += 1;
    }
    assert(out@ =~= ascending(pids@));
    out
}

fn last_with_of(procs: &[Process], pid: Pid) -> (r: Option<usize>)
    ensures
        match r {
            Some(i) => i < procs@.len() && i == last_with(
                text::views(procs@),
                pid,
                procs@.len() as int,
            ),
            None => last_with(text::views(procs@), pid, procs@.len() as int) == -1,
        },
{
    let ghost all = text::views(procs@);
    let mut n: usize = procs.len();
    while n > 0
        invariant
            all == text::views(procs@),
            n <= procs@.len(),
            last_with(all, pid, all.len() as int) == last_with(all, pid, n as int),
        decreases n,
    {
        assert(all[n - 1] == procs@[n - 1]@);
        if procs[n - 1].pid == pid {
            return Some(n - 1);
        }
        n -= 1;
    }
    None
}

fn parent_by_pid(procs: &[Process], pid: Pid) -> (r: Option<Pid>)
    ensures
        r == parent_of(text::views(procs@), pid),
{
    match last_with_of(procs, pid) {
        Some(i) => {
            assert(text::views(procs@)[i as int] == procs@[i as int]@);
            match procs[i].ppid {
                Some(pp) => if procs[i].pid != pp && has_pid_of(procs, pp) {
                    Some(pp)
                } else {
                    None
                },
                None => None,
            }
        },
        None => None,
    }
}

fn is_circle_head(procs: &[Process], pid: Pid) -> (r: bool)
    ensures
        r == heads_circle(text::views(procs@), pid),
{
    let ghost all = text::views(procs@);
    let mut at: Pid = pid;
    let mut steps: usize = procs.len();
    loop
        invariant
            all == text::views(procs@),
            heads_circle(all, pid) == comes_to(all, pid, at, steps as nat),
        decreases steps,
    {
        match parent_by_pid(procs, at) {
            Some(q) => {
                if q == pid {
                    return true;
                }
                if q < pid || steps == 0 {
                    return false;
                }
                at = q;
                steps -= 1;
            },
            None => {
                return false;
            },
        }
    }
}

fn kids_of(procs: &[Process], pid: Pid) -> (r: Vec<Pid>)
    ensures
        r@ == kids(text::views(procs@), pid),
{
    let ghost all = text::views(procs@);
    let known = has_pid_of(procs, pid);
    let mut v: Vec<Pid> = Vec::new();
    let mut i: usize = 0;
    assert(v@ =~= seq![]);
    while i < procs.len()
        invariant
            all == text::views(procs@),
            known == has_pid(all, pid),
            i <= procs@.len(),
            v@ == kids_among(all, pid, i as int),
        decreases procs@.len() - i,
    {
        assert(all[i as int] == procs@[i as int]@);
        if procs[i].ppid == Some(pid) && procs[i].pid != pid && known && !is_circle_head(
            procs,
            procs[i].pid,
        ) {
            v.push(procs[i].pid);
        }
        i += 1;
    }
    ascending_of(&v)
}

fn roots_of(procs: &[Process]) -> (r: Vec<Pid>)
    ensures
        r@ == roots(text::views(procs@)),
{
    let ghost all = text::views(procs@);
    let mut v: Vec<Pid> = Vec::new();
    let mut i: usize = 0;
    assert(v@ =~= seq![]);
    while i < procs.len()
        invariant
            all == text::views(procs@),
            i <= procs@.len(),
            v@ == roots_among(all, i as int),
        decreases procs@.len() - i,
    {
        assert(all[i as int] == procs@[i as int]@);
        let root = match procs[i].ppid {
            Some(pp) => procs[i].pid == pp || !has_pid_of(procs, pp) || is_circle_head(
                procs,
                procs[i].pid,
            ),
            None => true,
        };
        if root {
            v.push(procs[i].pid);
        }
        i += 1;
    }
    ascending_of(&v)
}

fn label_of(procs: &[Process], pid: Pid) -> (r: String)
    ensures
        r@ == label(text::views(procs@), pid),
{
    match last_with_of(procs, pid) {
        Some(i) => {
            let q = &procs[i];
            assert(text::views(procs@)[i as int] == q@);
            let mut out = q.name.clone();
            out.append(" (pid ");
            out.append(dec_i32(q.pid).as_str());
            out.append(", ");
            out.append(text_or(&q.user, "-").as_str());
            out.append(")");
            out
        },
        None => {
            let mut out = text("pid ");
            out.append(dec_i32(pid).as_str());
            out
        },
    }
}

proof fn lines_of_both(procs: Seq<ProcessView>, on: bool, a: Seq<TreeRow>, b: Seq<TreeRow>)
    ensures
        tree_lines(procs, on, a + b) == tree_lines(procs, on, a) + tree_lines(procs, on, b),
    decreases b.len(),
{
    if b.len() == 0 {
        assert(a + b =~= a);
        assert(tree_lines(procs, on, a) + seq![] =~= tree_lines(procs, on, a));
    } else {
        lines_of_both(procs, on, a, b.drop_last());
        assert((a + b).drop_last() =~= a + b.drop_last());
        assert((a + b).last() == b.last());
        assert(tree_lines(procs, on, a) + tree_lines(procs, on, b.drop_last()) + tree_line(
            procs,
            on,
            b.last(),
        ) =~= tree_lines(procs, on, a) + (tree_lines(procs, on, b.drop_last()) + tree_line(
            procs,
            on,
            b.last(),
        )));
    }
}

fn walk(
    procs: &[Process],
    p: &Painter,
    pid: Pid,
    prefix: &str,
    is_root: bool,
    is_last: bool,
    depth: usize,
    out: &mut String,
)
    ensures
        final(out)@ == old(out)@ + tree_lines(
            text::views(procs@),
            p@,
            branch(text::views(procs@), pid, prefix@, is_root, is_last, depth as nat),
        ),
    decreases depth,
{
    let ghost all = text::views(procs@);
    let ghost start = out@;
    if depth == 0 {
        assert(out@ =~= start + seq![]);
        return;
    }
    let b: &str = if is_root {
        ""
    } else if is_last {
        "└─ "
    } else {
        "├─ "
    };
    let mut line = p.dim(prefix);
    line.append(p.bold(b).as_str());
    line.append(label_of(procs, pid).as_str());
    line.append("\n");
    out.append(line.as_str());
    let below: String = if is_root {
        text("")
    } else {
        let mut s = text(prefix);
        s.append(
            if is_last {
                "   "
            } else {
                "│  "
            },
        );
        s
    };
    let ks = kids_of(procs, pid);
    let ghost row = TreeRow { pid, prefix: prefix@, is_root, is_last };
    let ghost first = seq![row];
    proof {
        assert(first.drop_last() =~= seq![]);
        assert(first.last() == row);
        assert(tree_line(all, p@, row) == line@);
        assert(tree_lines(all, p@, first.drop_last()).len() == 0);
        assert(tree_lines(all, p@, first) =~= line@);
        assert(first + branches(all, ks@, below@, (depth - 1) as nat, 0) =~= first);
    }
    let mut i: usize = 0;
    while i < ks.len()
        invariant
            all == text::views(procs@),
            depth > 0,
            i <= ks@.len(),
            out@ == start + tree_lines(
                all,
                p@,
                first + branches(all, ks@, below@, (depth - 1) as nat, i as nat),
            ),
        decreases ks@.len() - i,
    {
        let ghost before = first + branches(all, ks@, below@, (depth - 1) as nat, i as nat);
        let ghost kid = branch(
            all,
            ks@[i as int],
            below@,
            false,
            i + 1 == ks@.len(),
            (depth - 1) as nat,
        );
        let last_kid = i == ks.len() - 1;
        walk(procs, p, ks[i], below.as_str(), false, last_kid, depth - 1, out);
        proof {
            lines_of_both(all, p@, before, kid);
            assert(start + tree_lines(all, p@, before) + tree_lines(all, p@, kid) =~= start + (
            tree_lines(all, p@, before) + tree_lines(all, p@, kid)));
            assert(before + kid =~= first + branches(
                all,
                ks@,
                below@,
                (depth - 1) as nat,
                (i + 1) as nat,
            ));
        }
        i += 1;
    }
}

/// Render the "no target" `--tree` view: the full process forest.
pub fn render_process_forest(procs: &[Process], p: &Painter) -> (r: String)
    ensures
        r@ == forest_text(text::views(procs@), p@),
{
    let ghost all = text::views(procs@);
    let rs = roots_of(procs);
    let mut out = String::new();
    let mut i: usize = 0;
    assert(out@ =~= tree_lines(all, p@, trees(all, rs@, 0)));
    while i < rs.len()
        invariant
            all == text::views(procs@),
            i <= rs@.len(),
            out@ == tree_lines(all, p@, trees(all, rs@, i as int)),
        decreases rs@.len() - i,
    {
        walk(procs, p, rs[i], "", true, true, procs.len(), &mut out);
        proof {
            lines_of_both(
                all,
                p@,
                trees(all, rs@, i as int),
                branch(all, rs@[i as int], ""@, true, true, all.len()),
            );
        }
        i += 1;
    }
    out.append("\n");
    out.append(dec_usize(procs.len()).as_str());
    out.append(" process(es)");
    out.append("\n");
    out
}

// ---------- reports ----------

/// The reports in one of the text forms.
pub open spec fn report_texts(
    rs: Seq<TargetReportView>,
    format: Format,
    on: bool,
    c: Clock,
) -> Seq<Seq<char>> {
    Seq::new(
        rs.len(),
        |i: int|
            match format {
                Format::Short => report::short_text(rs[i], on, c),
                Format::Tree => report::tree_text(rs[i], on),
                _ => report::standard_text(rs[i], on, c),
            },
    )
}

/// What stands between two reports.
pub open spec fn report_gap(format: Format) -> Seq<char> {
    match format {
        Format::Short => "\n"@,
        _ => "\n\n"@,
    }
}

/// Render reports as text; None for JSON, which is left to a serializer.
pub fn render(reports: &[TargetReport], format: Format, color: bool, c: Clock) -> (r: Option<
    String,
>)
    ensures
        r is None <==> format == Format::Json,
        r matches Some(s) ==> s@ == text::join(
            report_texts(text::views(reports@), format, color, c),
            report_gap(format),
        ),
{
    if format == Format::Json {
        return None;
    }
    let p = Painter::new(color);
    let ghost all = text::views(reports@);
    let mut v: Vec<String> = Vec::new();
    let mut i: usize = 0;
    while i < reports.len()
        invariant
            all == text::views(reports@),
            p@ == color,
            i <= reports@.len(),
            v@.len() == i,
            forall|j: int|
                0 <= j < i ==> (#[trigger] v@[j])@ == report_texts(all, format, color, c)[j],
        decreases reports@.len() - i,
    {
        assert(all[i as int] == reports@[i as int]@);
        let t = match format {
            Format::Short => render_short(&reports[i], &p, c),
            Format::Tree => render_tree(&reports[i], &p),
            _ => render_standard(&reports[i], &p, c),
        };
        v.push(t);
        i += 1;
    }
    assert(text::texts(v@) =~= report_texts(all, format, color, c));
    let gap: &str = match format {
        Format::Short => "\n",
        _ => "\n\n",
    };
    Some(joined(&v, gap))
}

} // verus!
