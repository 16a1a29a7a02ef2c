//! What holds of reading procfs, cgroups and `systemctl status`: written in
//! the form that the kernel and the tools give it, a fact is read as it was.

use vstd::prelude::*;
use vstd::string::*;

use crate::model::{Pid, ProcessView, SourceView};
use crate::platform::linux;
use crate::platform::linux::UnitView;
use crate::text::Class;
use crate::{num, text};

verus! {

// ---------- stat ----------

proof fn not_among(s: Seq<char>, c: char)
    requires
        !s.contains(c),
    ensures
        forall|i: int| 0 <= i < s.len() ==> !Class::Is(c).holds(#[trigger] s[i]),
{
    assert forall|i: int| 0 <= i < s.len() implies !Class::Is(c).holds(#[trigger] s[i]) by {
        if s[i] == c {
            assert(s.contains(c));
        }
    }
}

proof fn comm_stands_in_brackets(head: Seq<char>, comm: Seq<char>, tail: Seq<char>)
    requires
        !head.contains('('),
        !tail.contains(')'),
    ensures
        ({
            let raw = head + seq!['('] + comm + seq![')'] + tail;
            &&& text::next_in(raw, Class::Is('('), 0) == head.len()
            &&& text::last_in(raw, Class::Is(')'), raw.len() as int) == head.len() + 1 + comm.len()
        }),
{
    let raw = head + seq!['('] + comm + seq![')'] + tail;
    not_among(head, '(');
    not_among(tail, ')');
    text::next_in_is_where(head, '(', comm + seq![')'] + tail, Class::Is('('), 0);
    assert(raw =~= head + seq!['('] + (comm + seq![')'] + tail));
    let before = head + seq!['('] + comm;
    assert(raw =~= before + seq![')'] + tail);
    text::rcut_once_is_at_the_last(before, ')', tail, Class::Is(')'));
    text::last_in_is_last(raw, Class::Is(')'), raw.len() as int);
    let i = text::last_in(raw, Class::Is(')'), raw.len() as int);
    assert(raw[before.len() as int] == ')');
    if i < before.len() {
        assert(Class::Is(')').holds(raw[before.len() as int]));
    } else if i > before.len() {
        assert(raw[i] == tail[i - before.len() - 1]);
    }
}

/// A stat line gives back what was written into it: the command name between
/// its brackets, spaces and further brackets included, then the state, the
/// parent, user and system time, start time and resident pages, each in its
/// column.
pub proof fn stat_line_is_read(
    head: Seq<char>,
    comm: Seq<char>,
    fields: Seq<Seq<char>>,
    state: char,
    ppid: Pid,
    utime: u64,
    stime: u64,
    start: u64,
    rss: i64,
)
    requires
        !head.contains('('),
        fields.len() >= 22,
        forall|i: int|
            0 <= i < fields.len() ==> text::is_word(#[trigger] fields[i]) && !fields[i].contains(
                ')',
            ),
        fields[0] == seq![state],
        fields[1] == num::dec(ppid as int),
        fields[11] == num::dec(utime as int),
        fields[12] == num::dec(stime as int),
        fields[19] == num::dec(start as int),
        fields[21] == num::dec(rss as int),
        utime + stime <= u64::MAX,
    ensures
        linux::stat_line(
            head + seq!['('] + comm + seq![')'] + seq![' '] + text::join(fields, seq![' ']),
        ) == Some(
            (
                comm,
                ppid as int,
                state,
                start as int,
                utime + stime,
                if rss < 0 {
                    0
                } else {
                    rss as int
                },
            ),
        ),
{
    let body = text::join(fields, seq![' ']);
    let tail = seq![' '] + body;
    joined_has_not(fields, ')');
    assert(!tail.contains(')')) by {
        if tail.contains(')') {
            let i = choose|i: int| 0 <= i < tail.len() && tail[i] == ')';
            assert(body[i - 1] == ')');
            assert(body.contains(')'));
        }
    }
    comm_stands_in_brackets(head, comm, tail);
    let raw = head + seq!['('] + comm + seq![')'] + tail;
    assert(raw =~= head + seq!['('] + comm + seq![')'] + seq![' '] + body);
    let open = head.len() as int;
    let close = open + 1 + comm.len();
    assert(raw.subrange(open + 1, close) =~= comm);
    assert(raw.subrange(close + 2, raw.len() as int) =~= body);
    text::words_undo_join(fields);
    num::printed_number_reads_back(ppid as int, i32::MIN as int, i32::MAX as int);
    num::printed_natural_reads_back(utime as int, u64::MAX as int);
    num::printed_natural_reads_back(stime as int, u64::MAX as int);
    num::printed_natural_reads_back(start as int, u64::MAX as int);
    num::printed_number_reads_back(rss as int, i64::MIN as int, i64::MAX as int);
    assert(fields[0][0] == state);
}

proof fn joined_has_not(ws: Seq<Seq<char>>, c: char)
    requires
        c != ' ',
        forall|i: int| 0 <= i < ws.len() ==> !(#[trigger] ws[i]).contains(c),
    ensures
        !text::join(ws, seq![' ']).contains(c),
    decreases ws.len(),
{
    let s = text::join(ws, seq![' ']);
    if ws.len() > 1 {
        let h = ws.drop_last();
        assert forall|i: int| 0 <= i < h.len() implies !(#[trigger] h[i]).contains(c) by {
            assert(h[i] == ws[i]);
        }
        joined_has_not(h, c);
        let a = text::join(h, seq![' ']);
        let l = ws.last();
        assert(l == ws[ws.len() - 1]);
        if s.contains(c) {
            let i = choose|i: int| 0 <= i < s.len() && s[i] == c;
            if i < a.len() {
                assert(a[i] == c);
                assert(a.contains(c));
            } else if i > a.len() {
                assert(l[i - a.len() - 1] == c);
                assert(l.contains(c));
            }
        }
    }
}

/// The entry of the process table keeps what the stat line says. A process
/// started to the nearest second, at 100 ticks each after boot; its memory is
/// 4 KiB for a page and its CPU time 10 ms for a tick. The kernel threads,
/// pid 2 and its children, have no times.
pub proof fn listed_process_keeps_the_numbers(
    pid: Pid,
    btime: int,
    name: Seq<char>,
    ppid: Pid,
    start: int,
    ticks: int,
    rss: int,
    uid: Option<u32>,
    user: Option<Seq<char>>,
    cpu: Option<u64>,
)
    requires
        i64::MIN <= btime,
        0 <= start,
        btime + start <= i64::MAX,
        0 <= ticks,
        10 * ticks <= u64::MAX,
        0 <= rss,
        4 * rss <= u64::MAX,
    ensures
        ({
            let p = linux::listed(pid, btime, name, ppid, start, ticks, rss, uid, user, cpu);
            let kernel = pid == 2 || ppid == 2;
            &&& p.pid == pid
            &&& p.ppid == Some(ppid)
            &&& p.name == name
            &&& p.uid == uid
            &&& p.user == user
            &&& p.kernel_thread == kernel
            &&& kernel ==> p.started is None && p.cpu is None && p.cpu_time_ms is None
            &&& !kernel ==> {
                &&& p.started matches Some(t) && start - 50 < 100 * (t - btime)
                    && 100 * (t - btime) <= start + 50
                &&& p.cpu == cpu
                &&& ticks > 0 ==> p.cpu_time_ms == Some((10 * ticks) as u64)
                &&& ticks == 0 ==> p.cpu_time_ms is None
            }
            &&& rss > 0 ==> p.mem_kb == Some((4 * rss) as u64)
            &&& rss == 0 ==> p.mem_kb is None
        }),
{
}

// ---------- lines with a key ----------

proof fn line_after_is_first(ls: Seq<Seq<char>>, prefix: Seq<char>, i: int, k: int)
    requires
        0 <= i <= k < ls.len(),
        text::starts_with(ls[k], prefix),
        forall|j: int| i <= j < k ==> !text::starts_with(#[trigger] ls[j], prefix),
    ensures
        linux::line_after(ls, prefix, i) == text::strip_prefix(ls[k], prefix),
    decreases k - i,
{
    if i < k {
        line_after_is_first(ls, prefix, i + 1, k);
    }
}

/// The effective uid is the second number on the first line of the status that
/// begins with `Uid:`.
pub proof fn status_tells_the_effective_uid(
    raw: Seq<char>,
    k: int,
    v: Seq<char>,
    ids: Seq<Seq<char>>,
    euid: u32,
)
    requires
        0 <= k < text::lines(raw).len(),
        text::lines(raw)[k] == "Uid:"@ + v,
        forall|j: int|
            0 <= j < k ==> !text::starts_with(#[trigger] text::lines(raw)[j], "Uid:"@),
        text::words(v) == ids,
        ids.len() >= 2,
        ids[1] == num::dec(euid as int),
    ensures
        linux::status_uid(raw) == Some(euid as int),
{
    let ls = text::lines(raw);
    text::holding_is_standing_between(ls[k], "Uid:"@);
    assert(ls[k] == "Uid:"@ + v);
    line_after_is_first(ls, "Uid:"@, 0, k);
    text::stripping_undoes_adding(v, "Uid:"@);
    num::printed_natural_reads_back(euid as int, u32::MAX as int);
}

proof fn number_is_trim(t: int)
    ensures
        text::trim(num::dec(t), Class::White) == num::dec(t),
{
    let v = num::dec(t);
    num::printed_number_has_no_space(t);
    let e: Seq<char> = seq![];
    text::trimming_takes_the_ends(e, v, e, Class::White);
    assert(e + v + e =~= v);
}

/// The boot time is the number on the first line that begins with `btime `.
pub proof fn stat_tells_the_boot_time(raw: Seq<char>, k: int, t: i64)
    requires
        0 <= k < text::lines(raw).len(),
        text::lines(raw)[k] == "btime "@ + num::dec(t as int),
        forall|j: int|
            0 <= j < k ==> !text::starts_with(#[trigger] text::lines(raw)[j], "btime "@),
    ensures
        linux::btime(raw) == Some(t as int),
{
    let ls = text::lines(raw);
    let v = num::dec(t as int);
    text::holding_is_standing_between(ls[k], "btime "@);
    assert(ls[k] == "btime "@ + v);
    line_after_is_first(ls, "btime "@, 0, k);
    text::stripping_undoes_adding(v, "btime "@);
    num::printed_number_reads_back(t as int, i64::MIN as int, i64::MAX as int);
    number_is_trim(t as int);
}

// ---------- command line and environment ----------

/// Some runs of bytes with a zero behind each.
pub open spec fn zero_ended(args: Seq<Seq<u8>>) -> Seq<u8>
    decreases args.len(),
{
    if args.len() == 0 {
        seq![]
    } else {
        args[0] + seq![0u8] + zero_ended(args.subrange(1, args.len() as int))
    }
}

proof fn next_zero_behind(a: Seq<u8>, b: Seq<u8>, i: int)
    requires
        0 <= i <= b.len(),
    ensures
        linux::next_zero(a + b, a.len() + i) == a.len() + linux::next_zero(b, i),
    decreases b.len() - i,
{
    if i < b.len() {
        assert((a + b)[a.len() + i] == b[i]);
        if b[i] != 0 {
            next_zero_behind(a, b, i + 1);
        }
    }
}

proof fn fields_behind(a: Seq<u8>, b: Seq<u8>, i: int)
    requires
        0 <= i <= b.len(),
    ensures
        linux::fields_from(a + b, a.len() + i) == linux::fields_from(b, i),
    decreases b.len() - i,
{
    next_zero_behind(a, b, i);
    linux::next_zero_in_range(b, i);
    let j = linux::next_zero(b, i);
    assert((a + b).subrange(a.len() + i, a.len() + j) =~= b.subrange(i, j));
    if j < b.len() {
        fields_behind(a, b, j + 1);
    }
}

proof fn zero_is_where(a: Seq<u8>, b: Seq<u8>, i: int)
    requires
        0 <= i <= a.len(),
        forall|j: int| 0 <= j < a.len() ==> #[trigger] a[j] != 0,
    ensures
        linux::next_zero(a + seq![0u8] + b, i) == a.len(),
    decreases a.len() - i,
{
    let s = a + seq![0u8] + b;
    if i < a.len() {
        assert(s[i] == a[i]);
        zero_is_where(a, b, i + 1);
    } else {
        assert(s[i] == 0);
    }
}

proof fn fields_of_zero_ended(args: Seq<Seq<u8>>)
    requires
        forall|i: int|
            0 <= i < args.len() ==> (#[trigger] args[i]).len() > 0 && !args[i].contains(0),
    ensures
        linux::fields_from(zero_ended(args), 0) == args,
    decreases args.len(),
{
    let b = zero_ended(args);
    if args.len() == 0 {
        assert(linux::fields_from(b, 0) =~= args);
    } else {
        let rest = args.subrange(1, args.len() as int);
        assert forall|i: int| 0 <= i < rest.len() implies (#[trigger] rest[i]).len() > 0
            && !rest[i].contains(0) by {
            assert(rest[i] == args[i + 1]);
        }
        fields_of_zero_ended(rest);
        let a = args[0];
        assert(!args[0].contains(0));
        assert forall|j: int| 0 <= j < a.len() implies #[trigger] a[j] != 0 by {
            if a[j] == 0 {
                assert(a.contains(0));
            }
        }
        let r = zero_ended(rest);
        zero_is_where(a, r, 0);
        let h = a + seq![0u8];
        fields_behind(h, r, 0);
        assert(b =~= h + r);
        assert(b.subrange(0, a.len() as int) =~= a);
        assert(linux::fields_from(b, 0) =~= seq![a] + args.subrange(1, args.len() as int));
        assert(args =~= seq![a] + rest);
    }
}

/// The arguments of a command line, each with a zero behind it, are read one
/// by one, in their order.
pub proof fn arguments_are_read_back(args: Seq<Seq<u8>>)
    requires
        forall|i: int|
            0 <= i < args.len() ==> (#[trigger] args[i]).len() > 0 && !args[i].contains(0),
    ensures
        ({
            let r = linux::arguments(zero_ended(args));
            &&& r.len() == args.len()
            &&& forall|i: int| 0 <= i < r.len() ==> #[trigger] r[i] == text::lossy(args[i])
        }),
{
    fields_of_zero_ended(args);
}

proof fn assignments_are_pairs(entries: Seq<Seq<char>>, vars: Seq<(Seq<char>, Seq<char>)>, n: int)
    requires
        0 <= n <= entries.len(),
        vars.len() == entries.len(),
        forall|i: int|
            0 <= i < n ==> !(#[trigger] vars[i]).0.contains('=') && entries[i] == vars[i].0
                + seq!['='] + vars[i].1,
    ensures
        linux::assignments(entries, n) == vars.take(n),
    decreases n,
{
    if n > 0 {
        assignments_are_pairs(entries, vars, n - 1);
        let v = vars[n - 1];
        not_among(v.0, '=');
        text::cut_once_is_at_the_first(v.0, '=', v.1, Class::Is('='));
        assert(vars.take(n) =~= vars.take(n - 1).push(v));
    } else {
        assert(vars.take(0) =~= seq![]);
    }
}

/// The variables of an environment are read one by one, in their order, each
/// parted at its first `=`.
pub proof fn variables_are_read_back(
    b: Seq<u8>,
    vars: Seq<(Seq<char>, Seq<char>)>,
)
    requires
        vars.len() == linux::arguments(b).len(),
        forall|i: int|
            0 <= i < vars.len() ==> !(#[trigger] vars[i]).0.contains('=') && linux::arguments(b)[i]
                == vars[i].0 + seq!['='] + vars[i].1,
    ensures
        linux::environment(b) == vars,
{
    assignments_are_pairs(linux::arguments(b), vars, vars.len() as int);
    assert(vars.take(vars.len() as int) =~= vars);
}

/// The details come from the links and files of the process: the path of its
/// binary, without the mark that it was deleted, which is noted, its working
/// directory, its arguments and its environment. The rest stays as it was.
pub proof fn details_come_from_the_links(
    brief: ProcessView,
    path: Seq<char>,
    cwd: Option<Seq<char>>,
    cmdline: Option<Seq<u8>>,
    environ: Option<Seq<u8>>,
)
    requires
        !(exists|a: Seq<char>| path == #[trigger] (a + " (deleted)"@)),
    ensures
        ({
            let p = linux::detailed(brief, Some(path), cwd, cmdline, environ);
            let q = linux::detailed(brief, Some(path + " (deleted)"@), cwd, cmdline, environ);
            &&& p.exe == Some(path)
            &&& !p.exe_deleted
            &&& q.exe == Some(path)
            &&& q.exe_deleted
            &&& p.cwd == cwd
            &&& p.cmdline == (if cmdline is Some && linux::arguments(cmdline->0).len() > 0 {
                linux::arguments(cmdline->0)
            } else {
                brief.cmdline
            })
            &&& p.env == (if environ is Some {
                Some(linux::environment(environ->0))
            } else {
                brief.env
            })
            &&& p.pid == brief.pid
            &&& p.ppid == brief.ppid
            &&& p.name == brief.name
            &&& p.user == brief.user
            &&& p.uid == brief.uid
            &&& p.started == brief.started
            &&& p.mem_kb == brief.mem_kb
            &&& p.cpu == brief.cpu
            &&& p.cpu_time_ms == brief.cpu_time_ms
        }),
{
    mark_is_taken_off(path);
}

proof fn mark_is_taken_off(path: Seq<char>)
    ensures
        linux::unmarked(path + " (deleted)"@) == path,
        text::ends_with(path + " (deleted)"@, " (deleted)"@),
        !(exists|a: Seq<char>| path == #[trigger] (a + " (deleted)"@)) ==> linux::unmarked(path)
            == path && !text::ends_with(path, " (deleted)"@),
{
    reveal_strlit(" (deleted)");
    let m = " (deleted)"@;
    let s = path + m;
    assert(s.subrange(s.len() - 10, s.len() as int) =~= m);
    assert(s.subrange(0, s.len() - 10) =~= path);
    text::holding_is_standing_between(path, m);
}

// ---------- open files ----------

/// A process holds a file exactly if one of its links leads to the path,
/// marked as deleted or not.
pub proof fn holding_is_having_a_link(links: Seq<Seq<char>>, path: Seq<char>)
    requires
        !(exists|a: Seq<char>| path == #[trigger] (a + " (deleted)"@)),
    ensures
        linux::leads_to(links, path) <==> exists|i: int|
            0 <= i < links.len() && (#[trigger] links[i] == path || links[i] == path
                + " (deleted)"@),
{
    reveal_strlit(" (deleted)");
    if linux::leads_to(links, path) {
        let i = choose|i: int|
            0 <= i < links.len() && linux::unmarked(#[trigger] links[i]) == path;
        if text::ends_with(links[i], " (deleted)"@) {
            assert(links[i] =~= path + " (deleted)"@);
        }
        assert(links[i] == path || links[i] == path + " (deleted)"@);
    }
    mark_is_taken_off(path);
    if exists|i: int|
        0 <= i < links.len() && (#[trigger] links[i] == path || links[i] == path + " (deleted)"@) {
        let i = choose|i: int|
            0 <= i < links.len() && (#[trigger] links[i] == path || links[i] == path
                + " (deleted)"@);
        assert(linux::unmarked(links[i]) == path);
    }
}

/// Whether a link leads to something without a path.
pub open spec fn is_nameless(t: Seq<char>) -> bool {
    ||| exists|rest: Seq<char>| t == #[trigger] ("socket:["@ + rest)
    ||| exists|rest: Seq<char>| t == #[trigger] ("pipe:"@ + rest)
    ||| exists|rest: Seq<char>| t == #[trigger] ("anon_inode:"@ + rest)
}

proof fn links_by_kind(t: Seq<char>)
    ensures
        linux::is_file_link(t) <==> !is_nameless(t),
        linux::is_socket_link(t) <==> exists|rest: Seq<char>| t == #[trigger] ("socket:["@ + rest),
        linux::is_pipe_link(t) <==> exists|rest: Seq<char>| t == #[trigger] ("pipe:"@ + rest),
{
    reveal_strlit("socket:[");
    reveal_strlit("pipe:");
    text::holding_is_standing_between(t, "socket:["@);
    text::holding_is_standing_between(t, "pipe:"@);
    text::holding_is_standing_between(t, "anon_inode:"@);
    if text::starts_with(t, "pipe:"@) {
        assert(t.subrange(0, 5)[0] == 'p');
        if text::starts_with(t, "socket:["@) {
            assert(t.subrange(0, 8)[0] == 's');
        }
    }
}

proof fn files_are_links(links: Seq<Seq<char>>, n: int)
    requires
        0 <= n <= links.len(),
    ensures
        linux::files_among(links, n).no_duplicates(),
        forall|t: Seq<char>| #[trigger]
            linux::files_among(links, n).contains(t) <==> !is_nameless(t) && exists|i: int|
                0 <= i < n && #[trigger] links[i] == t,
        linux::sockets_among(links, n) == links.take(n).filter(
            |t: Seq<char>| exists|rest: Seq<char>| t == #[trigger] ("socket:["@ + rest),
        ).len(),
        linux::pipes_among(links, n) == links.take(n).filter(
            |t: Seq<char>| exists|rest: Seq<char>| t == #[trigger] ("pipe:"@ + rest),
        ).len(),
    decreases n,
{
    reveal(Seq::filter);
    if n > 0 {
        files_are_links(links, n - 1);
        links_by_kind(links[n - 1]);
        assert(links.take(n).drop_last() =~= links.take(n - 1));
        assert(links.take(n).last() == links[n - 1]);
        let a = linux::files_among(links, n - 1);
        let b = linux::files_among(links, n);
        assert forall|t: Seq<char>| #[trigger] b.contains(t) <==> !is_nameless(t) && exists|i: int|
            0 <= i < n && #[trigger] links[i] == t by {
            if b.contains(t) {
                let x = choose|x: int| 0 <= x < b.len() && b[x] == t;
                if x < a.len() {
                    assert(a[x] == t);
                    assert(a.contains(t));
                    let i = choose|i: int| 0 <= i < n - 1 && #[trigger] links[i] == t;
                    assert(links[i] == t);
                } else {
                    assert(links[n - 1] == t);
                }
            }
            if !is_nameless(t) && exists|i: int| 0 <= i < n && #[trigger] links[i] == t {
                let i = choose|i: int| 0 <= i < n && #[trigger] links[i] == t;
                if i < n - 1 || a.contains(t) {
                    assert(a.contains(t));
                    let x = choose|x: int| 0 <= x < a.len() && a[x] == t;
                    assert(b[x] == t);
                } else {
                    assert(b[a.len() as int] == t);
                }
            }
        }
    }
}

/// The lines about open files: every path that a link leads to, once, then how
/// many sockets and how many pipes there are, where there are any. No more
/// than 200 lines are shown.
pub proof fn open_files_are_the_links(links: Seq<Seq<char>>)
    ensures
        ({
            let files = linux::files_among(links, links.len() as int);
            let socks = links.filter(
                |t: Seq<char>| exists|rest: Seq<char>| t == #[trigger] ("socket:["@ + rest),
            ).len() as int;
            let pipes = links.filter(
                |t: Seq<char>| exists|rest: Seq<char>| t == #[trigger] ("pipe:"@ + rest),
            ).len() as int;
            let all = files + (if socks > 0 {
                seq!["["@ + num::dec(socks) + " socket(s) — see Ports tab]"@]
            } else {
                seq![]
            }) + (if pipes > 0 {
                seq!["["@ + num::dec(pipes) + " pipe(s)]"@]
            } else {
                seq![]
            });
            let shown = linux::at_most(
                linux::open_file_lines(links),
                linux::MAX_OPEN_FILES as int,
            );
            &&& files.no_duplicates()
            &&& forall|t: Seq<char>| #[trigger]
                files.contains(t) <==> !is_nameless(t) && exists|i: int|
                    0 <= i < links.len() && #[trigger] links[i] == t
            &&& all.len() <= 200 ==> shown == all
            &&& all.len() > 200 ==> shown == all.take(200)
        }),
{
    files_are_links(links, links.len() as int);
    assert(links.take(links.len() as int) =~= links);
    let files = linux::files_among(links, links.len() as int);
    let socks = linux::sockets_among(links, links.len() as int);
    let pipes = linux::pipes_among(links, links.len() as int);
    let all = files + (if socks > 0 {
        seq!["["@ + num::dec(socks) + " socket(s) — see Ports tab]"@]
    } else {
        seq![]
    }) + (if pipes > 0 {
        seq!["["@ + num::dec(pipes) + " pipe(s)]"@]
    } else {
        seq![]
    });
    assert(linux::open_file_lines(links) =~= all);
}

// ---------- containers ----------

/// The first twelve characters of an id, or all of a shorter one.
pub open spec fn twelve(id: Seq<char>) -> Seq<char> {
    if id.len() > 12 {
        id.subrange(0, 12)
    } else {
        id
    }
}

proof fn path_of_line(h: Seq<char>, c: Seq<char>, path: Seq<char>)
    requires
        !h.contains(':'),
        !c.contains(':'),
    ensures
        linux::cgroup_path(h + seq![':'] + c + seq![':'] + path) == Some(path),
{
    not_among(h, ':');
    not_among(c, ':');
    let rest = c + seq![':'] + path;
    let line = h + seq![':'] + c + seq![':'] + path;
    assert(line =~= h + seq![':'] + rest);
    text::cut_once_is_at_the_first(h, ':', rest, Class::Is(':'));
    text::cut_once_is_at_the_first(c, ':', path, Class::Is(':'));
}

proof fn id_is_cut(id: Seq<char>, tail: Seq<char>)
    requires
        !id.contains('/'),
        tail.len() == 0 || tail[0] == '/',
    ensures
        linux::short_id(id + tail) == twelve(id),
{
    not_among(id, '/');
    if tail.len() == 0 {
        assert(id + tail =~= id);
        text::cut_once_is_at_the_first(id, '/', tail, Class::Is('/'));
    } else {
        let more = tail.subrange(1, tail.len() as int);
        assert(tail =~= seq!['/'] + more);
        assert(id + tail =~= id + seq!['/'] + more);
        text::cut_once_is_at_the_first(id, '/', more, Class::Is('/'));
    }
    if id.len() > 12 {
        assert(id.take(12) =~= id.subrange(0, 12));
    }
}

/// A cgroup line `n:controllers:/docker/ID` places its process in the docker
/// container ID, of which twelve characters are shown.
pub proof fn cgroup_names_the_container(
    h: Seq<char>,
    c: Seq<char>,
    id: Seq<char>,
    tail: Seq<char>,
)
    requires
        !h.contains(':'),
        !c.contains(':'),
        !id.contains('/'),
        tail.len() == 0 || tail[0] == '/',
    ensures
        linux::line_container(h + seq![':'] + c + seq![':'] + ("/docker/"@ + id + tail)) == Some(
            ("docker"@, twelve(id)),
        ),
{
    let path = "/docker/"@ + id + tail;
    path_of_line(h, c, path);
    assert(path =~= "/docker/"@ + (id + tail));
    text::stripping_undoes_adding(id + tail, "/docker/"@);
    text::holding_is_standing_between(path, "/docker/"@);
    id_is_cut(id, tail);
}

/// A systemd scope `docker-ID.scope` names a docker container too.
pub proof fn docker_scope_names_the_container(h: Seq<char>, c: Seq<char>, id: Seq<char>)
    requires
        !h.contains(':'),
        !c.contains(':'),
        !id.contains('/'),
    ensures
        linux::line_container(
            h + seq![':'] + c + seq![':'] + ("/system.slice/docker-"@ + id + ".scope"@),
        ) == Some(("docker"@, twelve(id))),
{
    let path = "/system.slice/docker-"@ + id + ".scope"@;
    path_of_line(h, c, path);
    reveal_strlit("/docker/");
    reveal_strlit("/system.slice/docker-");
    assert(path =~= "/system.slice/docker-"@ + (id + ".scope"@));
    text::stripping_undoes_adding(id + ".scope"@, "/system.slice/docker-"@);
    text::stripping_undoes_adding(id, ".scope"@);
    text::holding_is_standing_between(path, "/system.slice/docker-"@);
    text::holding_is_standing_between(id + ".scope"@, ".scope"@);
    assert(path[1] == 's');
    assert(path.subrange(0, 8)[1] != "/docker/"@[1]);
    let e: Seq<char> = seq![];
    id_is_cut(id, e);
    assert(id + e =~= id);
}

proof fn first_container_is(ls: Seq<Seq<char>>, i: int, k: int)
    requires
        0 <= i <= k < ls.len(),
        linux::line_container(ls[k]) is Some,
        forall|j: int| i <= j < k ==> linux::line_container(#[trigger] ls[j]) is None,
    ensures
        linux::first_container(ls, i) == linux::line_container(ls[k]),
    decreases k - i,
{
    if i < k {
        first_container_is(ls, i + 1, k);
    }
}

/// The first line that names a container decides, and where none does there
/// is none.
pub proof fn first_cgroup_line_decides(ls: Seq<Seq<char>>, k: int)
    requires
        0 <= k <= ls.len(),
        forall|j: int| 0 <= j < k ==> linux::line_container(#[trigger] ls[j]) is None,
        k < ls.len() ==> linux::line_container(ls[k]) is Some,
    ensures
        linux::first_container(ls, 0) == if k < ls.len() {
            linux::line_container(ls[k])
        } else {
            None
        },
{
    if k < ls.len() {
        first_container_is(ls, 0, k);
    } else {
        none_names(ls, 0);
    }
}

proof fn none_names(ls: Seq<Seq<char>>, i: int)
    requires
        0 <= i <= ls.len(),
        forall|j: int| 0 <= j < ls.len() ==> linux::line_container(#[trigger] ls[j]) is None,
    ensures
        linux::first_container(ls, i) is None,
    decreases ls.len() - i,
{
    if i < ls.len() {
        none_names(ls, i + 1);
    }
}

/// A process in a container has it as its source: by the name that docker
/// printed, or else by the id and the runtime.
pub proof fn container_is_the_source(
    runtime: Seq<char>,
    id: Seq<char>,
    a: Seq<char>,
    name: Seq<char>,
    b: Seq<char>,
)
    requires
        name.len() > 0,
        !text::is_white(name[0]),
        !text::is_white(name.last()),
        forall|j: int| 0 <= j < a.len() ==> text::is_white(#[trigger] a[j]),
        forall|j: int| 0 <= j < b.len() ==> text::is_white(#[trigger] b[j]),
    ensures
        linux::in_container("docker"@, id, Some(a + name + b)) == (SourceView {
            kind: "container"@,
            label: Some(name),
            detail: Some("docker container \""@ + name + "\""@),
        }),
        linux::in_container(runtime, id, None) == (SourceView {
            kind: "container"@,
            label: Some(id),
            detail: Some("runtime: "@ + runtime),
        }),
        runtime != "docker"@ ==> linux::in_container(runtime, id, Some(a + name + b))
            == linux::in_container(runtime, id, None),
{
    text::trimming_takes_the_ends(a, name, b, Class::White);
}

// ---------- services ----------

/// The line with the bullet gives a unit its name and description.
pub proof fn bullet_line_names_the_unit(
    u: UnitView,
    white: Seq<char>,
    name: Seq<char>,
    words: Seq<char>,
)
    requires
        forall|j: int| 0 <= j < white.len() ==> text::is_white(#[trigger] white[j]),
        text::is_word(name),
        words.len() > 0,
        !text::is_white(words[0]),
        !text::is_white(words.last()),
    ensures
        ({
            let v = linux::with_status_line(u, white + "● "@ + name + " - "@ + words);
            &&& v.name == Some(name)
            &&& v.description == Some(words)
            &&& v.loaded_from == u.loaded_from
        }),
{
    reveal_strlit("● ");
    reveal_strlit("●");
    reveal_strlit("*");
    reveal_strlit(" - ");
    reveal_strlit("Loaded:");
    let body = name + " - "@ + words;
    let t = "● "@ + body;
    let line = white + "● "@ + name + " - "@ + words;
    assert(line =~= white + t);
    assert(t[0] == '●');
    assert(t.last() == words.last());
    let e: Seq<char> = seq![];
    text::trimming_takes_the_ends(white, t, e, Class::White);
    let rest = seq![' '] + body;
    assert(t =~= "●"@ + rest);
    text::stripping_undoes_adding(rest, "●"@);
    text::holding_is_standing_between(t, "●"@);
    assert(body[0] == name[0]);
    assert(body.last() == words.last());
    text::trimming_takes_the_ends(seq![' '], body, e, Class::White);
    assert(seq![' '] + body + e =~= rest);
    let p = " - "@;
    text::find_from_is_first(body, p, 0);
    assert(body.subrange(name.len() as int, name.len() as int + 3) =~= p);
    assert(text::occurs_at(body, p, name.len() as int));
    let j = text::find_from(body, p, 0)->0;
    if j < name.len() {
        assert(body.subrange(j, j + 3)[0] == body[j]);
        assert(body[j] == name[j]);
        assert(text::is_white(name[j]));
    }
    assert(body.subrange(0, j) =~= name);
    assert(body.subrange(j + 3, body.len() as int) =~= words);
    text::trimming_takes_the_ends(e, name, e, Class::White);
    text::trimming_takes_the_ends(e, words, e, Class::White);
    assert(e + name + e =~= name);
    assert(e + words + e =~= words);
    text::holding_is_standing_between(t, "Loaded:"@);
    if text::starts_with(t, "Loaded:"@) {
        assert(t.subrange(0, 7)[0] == t[0]);
    }
}

/// Lines that have neither a bullet nor `Loaded:` say nothing of a unit.
pub proof fn other_status_lines_say_nothing(u: UnitView, line: Seq<char>)
    requires
        ({
            let t = text::trim_start(line, Class::White);
            &&& !(exists|rest: Seq<char>| t == #[trigger] ("●"@ + rest))
            &&& !(exists|rest: Seq<char>| t == #[trigger] ("*"@ + rest))
            &&& !(exists|rest: Seq<char>| t == #[trigger] ("Loaded:"@ + rest))
        }),
    ensures
        linux::with_status_line(u, line) == u,
{
    let t = text::trim_start(line, Class::White);
    text::holding_is_standing_between(t, "●"@);
    text::holding_is_standing_between(t, "*"@);
    text::holding_is_standing_between(t, "Loaded:"@);
}

/// Under systemd, or an init with pid 1, a process belongs to the unit that
/// `systemctl status` names, with its description and file as the detail.
/// Where it names none, only the init is known, and under no such root
/// nothing.
pub proof fn unit_is_the_source(chain: Seq<ProcessView>, out: Option<Seq<char>>)
    ensures
        ({
            let s = linux::service(chain, out);
            let under = chain.len() > 0 && (chain[0].pid == 1 || exists|
                a: Seq<char>,
                b: Seq<char>,
            | chain[0].name == #[trigger] (a + "systemd"@ + b));
            let u = linux::status(text::lines(out->0), text::lines(out->0).len() as int);
            &&& s is Some <==> under
            &&& under && out is Some && u.name is Some ==> {
                &&& s->0.kind == "systemd"@
                &&& s->0.label == u.name
                &&& s->0.detail == (if u.description is Some && u.loaded_from is Some {
                    Some(u.description->0 + " — loaded from "@ + u.loaded_from->0)
                } else if u.description is Some {
                    u.description
                } else if u.loaded_from is Some {
                    Some("loaded from "@ + u.loaded_from->0)
                } else {
                    None
                })
            }
            &&& under && (out is None || u.name is None) ==> {
                &&& s->0.kind == "init"@
                &&& s->0.label == Some(chain[0].name)
                &&& s->0.detail == Some(
                    if out is None {
                        "systemctl unavailable; started under init"@
                    } else {
                        "pid "@ + num::dec(chain.last().pid as int)
                            + " is not part of a systemd unit"@
                    },
                )
            }
        }),
{
    if chain.len() > 0 {
        text::holding_is_standing_between(chain[0].name, "systemd"@);
    }
}

// ---------- other runtimes ----------

proof fn begins_otherwise(path: Seq<char>)
    requires
        path.len() > 1,
    ensures
        path[1] != 'd' ==> !text::starts_with(path, "/docker/"@),
        path[1] != 's' ==> !text::starts_with(path, "/system.slice/docker-"@)
            && !text::starts_with(path, "/system.slice/containerd-"@),
        path[1] != 'l' ==> !text::starts_with(path, "/lxc/"@),
{
    reveal_strlit("/docker/");
    reveal_strlit("/system.slice/docker-");
    reveal_strlit("/system.slice/containerd-");
    reveal_strlit("/lxc/");
    second_differs(path, "/docker/"@, 'd');
    second_differs(path, "/system.slice/docker-"@, 's');
    second_differs(path, "/system.slice/containerd-"@, 's');
    second_differs(path, "/lxc/"@, 'l');
}

proof fn second_differs(path: Seq<char>, p: Seq<char>, c: char)
    requires
        path.len() > 1,
        p.len() > 1,
        p[1] == c,
    ensures
        path[1] != c ==> !text::starts_with(path, p),
{
    if text::starts_with(path, p) {
        text::holding_is_standing_between(path, p);
        let b = choose|b: Seq<char>| path == #[trigger] (p + b);
        assert(path[1] == c);
    }
}

proof fn part_behind(a: Seq<char>, p: Seq<char>, b: Seq<char>)
    requires
        forall|i: int| 0 <= i < a.len() ==> !text::occurs_at(a + p + b, p, i),
        !text::contains(b, p),
    ensures
        linux::second_part(a + p + b, p) == Some(b),
{
    text::cut_once_is_where_it_first_stands(a, p, b);
    text::uncut_where_it_does_not_stand(b, p);
}

/// A scope of containerd and a directory of lxc name their containers.
pub proof fn containerd_and_lxc_name_the_container(
    h: Seq<char>,
    c: Seq<char>,
    id: Seq<char>,
    tail: Seq<char>,
)
    requires
        !h.contains(':'),
        !c.contains(':'),
        !id.contains('/'),
        tail.len() == 0 || tail[0] == '/',
    ensures
        linux::line_container(
            h + seq![':'] + c + seq![':'] + ("/system.slice/containerd-"@ + id + tail),
        ) == Some(("containerd"@, twelve(id))),
        ({
            let path = "/lxc/"@ + id + tail;
            !text::contains(path, "cri-containerd:"@) && !text::contains(path, "cri-containerd-"@)
                && !text::contains(path, "libpod-"@) ==> linux::line_container(
                h + seq![':'] + c + seq![':'] + path,
            ) == Some(("lxc"@, twelve(id)))
        }),
{
    id_is_cut(id, tail);
    let p = "/system.slice/containerd-"@;
    let path = p + id + tail;
    path_of_line(h, c, path);
    assert(path =~= p + (id + tail));
    text::stripping_undoes_adding(id + tail, p);
    text::holding_is_standing_between(path, p);
    reveal_strlit("/system.slice/containerd-");
    reveal_strlit("/system.slice/docker-");
    assert(path[1] == 's' && path[14] == 'c');
    begins_otherwise(path);
    assert(!text::starts_with(path, "/system.slice/docker-"@)) by {
        if text::starts_with(path, "/system.slice/docker-"@) {
            text::holding_is_standing_between(path, "/system.slice/docker-"@);
            let b = choose|b: Seq<char>| path == #[trigger] ("/system.slice/docker-"@ + b);
            assert(path[14] == 'd');
        }
    }
    lxc_names_the_container(h, c, id, tail);
}

proof fn lxc_names_the_container(h: Seq<char>, c: Seq<char>, id: Seq<char>, tail: Seq<char>)
    requires
        !h.contains(':'),
        !c.contains(':'),
        !id.contains('/'),
        tail.len() == 0 || tail[0] == '/',
    ensures
        ({
            let path = "/lxc/"@ + id + tail;
            !text::contains(path, "cri-containerd:"@) && !text::contains(path, "cri-containerd-"@)
                && !text::contains(path, "libpod-"@) ==> linux::line_container(
                h + seq![':'] + c + seq![':'] + path,
            ) == Some(("lxc"@, twelve(id)))
        }),
{
    id_is_cut(id, tail);
    let p = "/lxc/"@;
    let path = p + id + tail;
    path_of_line(h, c, path);
    assert(path =~= p + (id + tail));
    text::stripping_undoes_adding(id + tail, p);
    text::holding_is_standing_between(path, p);
    reveal_strlit("/lxc/");
    assert(path[1] == 'l');
    begins_otherwise(path);
    if !text::contains(path, "cri-containerd:"@) && !text::contains(path, "cri-containerd-"@)
        && !text::contains(path, "libpod-"@) {
        text::uncut_where_it_does_not_stand(path, "cri-containerd:"@);
        text::uncut_where_it_does_not_stand(path, "cri-containerd-"@);
        text::uncut_where_it_does_not_stand(path, "libpod-"@);
    }
}

/// Below the pods of kubernetes a container of containerd stands behind its
/// mark, with a colon or with a dash.
pub proof fn pods_name_the_container(
    h: Seq<char>,
    c: Seq<char>,
    x: Seq<char>,
    id: Seq<char>,
)
    requires
        !h.contains(':'),
        !c.contains(':'),
        !id.contains('/'),
    ensures
        ({
            let mark = "cri-containerd:"@;
            let a = "/kubepods"@ + x;
            !text::contains(id, mark) && (forall|i: int|
                0 <= i < a.len() ==> !text::occurs_at(a + mark + id, mark, i))
                ==> linux::line_container(h + seq![':'] + c + seq![':'] + (a + mark + id)) == Some(
                ("containerd"@, twelve(id)),
            )
        }),
        ({
            let mark = "cri-containerd-"@;
            let a = "/kubepods"@ + x;
            !text::contains(id, mark) && !text::contains(a + mark + id, "cri-containerd:"@) && (
            forall|i: int| 0 <= i < a.len() ==> !text::occurs_at(a + mark + id, mark, i))
                ==> linux::line_container(h + seq![':'] + c + seq![':'] + (a + mark + id)) == Some(
                ("containerd"@, twelve(id)),
            )
        }),
{
    reveal_strlit("/kubepods");
    let a = "/kubepods"@ + x;
    let none = Seq::<char>::empty();
    id_is_cut(id, none);
    assert(id + none =~= id);
    let m = "cri-containerd:"@;
    let path = a + m + id;
    assert(path[1] == 'k');
    begins_otherwise(path);
    path_of_line(h, c, path);
    if !text::contains(id, m) && (forall|i: int|
        0 <= i < a.len() ==> !text::occurs_at(a + m + id, m, i)) {
        part_behind(a, m, id);
    }
    let n = "cri-containerd-"@;
    let other = a + n + id;
    assert(other[1] == 'k');
    begins_otherwise(other);
    path_of_line(h, c, other);
    if !text::contains(id, n) && !text::contains(other, m) && (forall|i: int|
        0 <= i < a.len() ==> !text::occurs_at(a + n + id, n, i)) {
        part_behind(a, n, id);
        text::uncut_where_it_does_not_stand(other, m);
    }
}

/// A scope `libpod-ID.scope` of podman names its container.
pub proof fn podman_scope_names_the_container(
    h: Seq<char>,
    c: Seq<char>,
    x: Seq<char>,
    id: Seq<char>,
)
    requires
        !h.contains(':'),
        !c.contains(':'),
        !id.contains('/'),
    ensures
        ({
            let mark = "libpod-"@;
            let a = "/machine"@ + x;
            let scope = id + ".scope"@;
            let path = a + mark + scope;
            !text::contains(path, "cri-containerd:"@) && !text::contains(path, "cri-containerd-"@)
                && !text::contains(scope, mark) && (forall|i: int|
                0 <= i < a.len() ==> !text::occurs_at(path, mark, i)) && (forall|i: int|
                0 <= i < id.len() ==> !text::occurs_at(scope, ".scope"@, i))
                ==> linux::line_container(h + seq![':'] + c + seq![':'] + path) == Some(
                ("podman"@, twelve(id)),
            )
        }),
{
    reveal_strlit("/machine");
    let a = "/machine"@ + x;
    let m = "libpod-"@;
    let s = ".scope"@;
    let scope = id + s;
    let path = a + m + scope;
    let none = Seq::<char>::empty();
    id_is_cut(id, none);
    assert(id + none =~= id);
    assert(path[1] == 'm');
    begins_otherwise(path);
    path_of_line(h, c, path);
    if !text::contains(path, "cri-containerd:"@) && !text::contains(path, "cri-containerd-"@)
        && !text::contains(scope, m) && (forall|i: int|
        0 <= i < a.len() ==> !text::occurs_at(path, m, i)) && (forall|i: int|
        0 <= i < id.len() ==> !text::occurs_at(scope, s, i)) {
        text::uncut_where_it_does_not_stand(path, "cri-containerd:"@);
        text::uncut_where_it_does_not_stand(path, "cri-containerd-"@);
        part_behind(a, m, scope);
        assert(scope =~= id + s + none);
        text::cut_once_is_where_it_first_stands(id, s, none);
    }
}

/// A path without any of the marks is that of no container.
pub proof fn other_paths_name_no_container(h: Seq<char>, c: Seq<char>, path: Seq<char>)
    requires
        !h.contains(':'),
        !c.contains(':'),
        path.len() > 1,
        path[1] != 'd' && path[1] != 's' && path[1] != 'l',
        !text::contains(path, "cri-containerd:"@),
        !text::contains(path, "cri-containerd-"@),
        !text::contains(path, "libpod-"@),
    ensures
        linux::line_container(h + seq![':'] + c + seq![':'] + path) is None,
{
    path_of_line(h, c, path);
    begins_otherwise(path);
    text::uncut_where_it_does_not_stand(path, "cri-containerd:"@);
    text::uncut_where_it_does_not_stand(path, "cri-containerd-"@);
    text::uncut_where_it_does_not_stand(path, "libpod-"@);
}

// ---------- unit files ----------

/// The line `Loaded:` gives a unit its file: the path behind the bracket, where
/// it is that of a service, timer, scope or slice.
pub proof fn loaded_line_tells_the_unit_file(
    u: UnitView,
    white: Seq<char>,
    path: Seq<char>,
    suffix: Seq<char>,
    rest: Seq<char>,
)
    requires
        forall|j: int| 0 <= j < white.len() ==> text::is_white(#[trigger] white[j]),
        text::is_word(path + suffix),
        !(path + suffix).contains('('),
        !(path + suffix).contains(';'),
        suffix == ".service"@ || suffix == ".timer"@ || suffix == ".scope"@ || suffix == ".slice"@,
    ensures
        ({
            let v = linux::with_status_line(
                u,
                white + ("Loaded:"@ + (seq![' ', 'l', 'o', 'a', 'd', 'e', 'd', ' '] + seq!['(']
                    + ((path + suffix) + seq![';'] + rest))),
            );
            &&& v.loaded_from == Some(path + suffix)
            &&& v.name == u.name
            &&& v.description == u.description
        }),
{
    let k = Class::Either('(', ';');
    let file = path + suffix;
    let first = seq![' ', 'l', 'o', 'a', 'd', 'e', 'd', ' '];
    let inner = file + seq![';'] + rest;
    let behind = first + seq!['('] + inner;
    let t = "Loaded:"@ + behind;
    reveal_strlit("Loaded:");
    assert(t[0] == 'L');
    text::next_out_of_all(white, t, Class::White, 0);
    assert((white + t).subrange(white.len() as int, (white + t).len() as int) =~= t);
    text::stripping_undoes_adding(behind, "Loaded:"@);
    no_bullet(t);
    assert forall|j: int| 0 <= j < first.len() implies !k.holds(#[trigger] first[j]) by {
    }
    assert forall|j: int| 0 <= j < file.len() implies !k.holds(#[trigger] file[j]) by {
        assert(file.contains(file[j]));
    }
    text::first_piece_ends_at_the_cut(first, '(', inner, k);
    text::first_piece_ends_at_the_cut(file, ';', rest, k);
    let parts = text::split(behind, k);
    assert(parts[0] == first && parts[1] == file && parts.len() >= 2);
    let none = Seq::<char>::empty();
    assert(none + file + none =~= file);
    text::trimming_takes_the_ends(none, file, none, Class::White);
    let word = seq!['l', 'o', 'a', 'd', 'e', 'd'];
    assert(first =~= seq![' '] + word + seq![' ']);
    text::trimming_takes_the_ends(seq![' '], word, seq![' '], Class::White);
    loaded_is_no_file(word);
    text::holding_is_standing_between(file, suffix);
    reveal_with_fuel(linux::unit_file, 3);
    assert(linux::is_unit_file(file));
}

proof fn no_bullet(t: Seq<char>)
    requires
        t.len() > 0,
        t[0] == 'L',
    ensures
        linux::bulleted(t) is None,
{
    reveal_strlit("●");
    reveal_strlit("*");
    text::holding_is_standing_between(t, "●"@);
    text::holding_is_standing_between(t, "*"@);
    if text::starts_with(t, "●"@) {
        let b = choose|b: Seq<char>| t == #[trigger] ("●"@ + b);
        assert(t[0] == '●');
    }
    if text::starts_with(t, "*"@) {
        let b = choose|b: Seq<char>| t == #[trigger] ("*"@ + b);
        assert(t[0] == '*');
    }
}

proof fn loaded_is_no_file(word: Seq<char>)
    requires
        word == seq!['l', 'o', 'a', 'd', 'e', 'd'],
    ensures
        !linux::is_unit_file(word),
{
    reveal_strlit(".service");
    reveal_strlit(".timer");
    reveal_strlit(".scope");
    reveal_strlit(".slice");
    ends_not(word, ".service"@);
    ends_not(word, ".timer"@);
    ends_not(word, ".scope"@);
    ends_not(word, ".slice"@);
}

proof fn ends_not(word: Seq<char>, p: Seq<char>)
    requires
        word.len() > 0,
        p.len() > 0,
        word.last() != p.last(),
    ensures
        !text::ends_with(word, p),
{
    if text::ends_with(word, p) {
        text::holding_is_standing_between(word, p);
        let a = choose|a: Seq<char>| word == #[trigger] (a + p);
        assert(word.last() == p.last());
    }
}

} // verus!
