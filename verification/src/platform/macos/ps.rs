//! What holds of the listings of `ps` and `launchctl`: how their lines are
//! read, and what a process is told to be by them.

use vstd::prelude::*;
use vstd::string::*;

use crate::model::{Pid, ProcessView};
use crate::platform::macos;
use crate::text::Class;
use crate::{num, text, util};

verus! {

// ---------- columns ----------

/// Whether a text can stand in a column: it has a character, and no white
/// space.
pub open spec fn is_column(w: Seq<char>) -> bool {
    w.len() > 0 && forall|j: int| 0 <= j < w.len() ==> !text::is_white(#[trigger] w[j])
}

/// Whether a text is a gap between columns.
pub open spec fn is_gap(g: Seq<char>) -> bool {
    g.len() > 0 && forall|j: int| 0 <= j < g.len() ==> #[trigger] g[j] == ' '
}

proof fn fields_shift(w: Seq<char>, g: Seq<char>, r: Seq<char>, k: nat)
    requires
        is_column(w),
        is_gap(g),
        r.len() > 0,
        !text::is_white(r[0]),
    ensures
        text::next_out(w + g + r, Class::AsciiWhite, macos::field_end(w + g + r, k + 1)) == w.len()
            + g.len() + text::next_out(r, Class::AsciiWhite, macos::field_end(r, k)),
        k > 0 ==> macos::field_end(w + g + r, k + 1) == w.len() + g.len() + macos::field_end(r, k),
        0 <= macos::field_end(r, k) <= r.len(),
    decreases k,
{
    let c = Class::AsciiWhite;
    let l = w + g + r;
    assert(l =~= w + (g + r));
    assert(l =~= (w + g) + r);
    if k == 0 {
        assert forall|j: int| 0 <= j < w.len() implies !c.holds(#[trigger] w[j]) by {
        }
        assert(text::next_out(l, c, 0) == 0) by {
            assert(l[0] == w[0]);
        }
        assert(w + g + r =~= w + seq![g[0]] + (g.subrange(1, g.len() as int) + r));
        text::next_in_is_where(w, g[0], g.subrange(1, g.len() as int) + r, c, 0);
        reveal_with_fuel(macos::field_end, 2);
        assert(macos::field_end(l, 1) == w.len());
        text::next_out_behind(w, g + r, c, 0);
        text::next_out_of_all(g, r, c, 0);
        assert(text::next_out(r, c, 0) == 0);
    } else {
        fields_shift(w, g, r, (k - 1) as nat);
        text::next_out_is_first(r, c, macos::field_end(r, (k - 1) as nat));
        let o = text::next_out(r, c, macos::field_end(r, (k - 1) as nat));
        text::next_in_is_first(r, c, o);
        text::next_in_behind(w + g, r, c, o);
        text::next_out_behind(w + g, r, c, macos::field_end(r, k));
    }
}

/// The first column of a line is its first field, and the fields of what
/// follows the gap come behind it.
pub proof fn columns_are_fields(w: Seq<char>, g: Seq<char>, r: Seq<char>, k: nat)
    requires
        is_column(w),
        is_gap(g),
        r.len() > 0,
        !text::is_white(r[0]),
    ensures
        macos::field(w + g + r, 0) == w,
        macos::field(w + g + r, k + 1) == macos::field(r, k),
        macos::behind_fields(w + g + r, k + 1) == macos::behind_fields(r, k),
        macos::behind_fields(r, 0) == r,
{
    let c = Class::AsciiWhite;
    let l = w + g + r;
    fields_shift(w, g, r, k);
    fields_shift(w, g, r, k + 1);
    assert(l[0] == w[0]);
    assert(text::next_out(l, c, 0) == 0);
    assert(text::next_out(r, c, 0) == 0);
    assert forall|j: int| 0 <= j < w.len() implies !c.holds(#[trigger] w[j]) by {
    }
    assert(l =~= w + seq![g[0]] + (g.subrange(1, g.len() as int) + r));
    text::next_in_is_where(w, g[0], g.subrange(1, g.len() as int) + r, c, 0);
    reveal_with_fuel(macos::field_end, 2);
    assert(l.subrange(0, w.len() as int) =~= w);
    let a = text::next_out(r, c, macos::field_end(r, k));
    let b = macos::field_end(r, k + 1);
    let n = (w.len() + g.len()) as int;
    text::next_out_is_first(r, c, macos::field_end(r, k));
    text::next_in_is_first(r, c, a);
    assert(l.subrange(n + a, n + b) =~= r.subrange(a, b));
    assert(l.subrange(n + a, l.len() as int) =~= r.subrange(a, r.len() as int));
    assert(r.subrange(0, r.len() as int) =~= r);
}

// ---------- the process table ----------

/// A line of the process table, from its columns.
#[verifier::opaque]
pub open spec fn table_line(
    g: Seq<char>,
    pid: Seq<char>,
    ppid: Seq<char>,
    uid: Seq<char>,
    etime: Seq<char>,
    cpu: Seq<char>,
    rss: Seq<char>,
    comm: Seq<char>,
) -> Seq<char> {
    pid + g + (ppid + g + (uid + g + (etime + g + (cpu + g + (rss + g + comm)))))
}

proof fn table_line_has_fields(
    g: Seq<char>,
    pid: Seq<char>,
    ppid: Seq<char>,
    uid: Seq<char>,
    etime: Seq<char>,
    cpu: Seq<char>,
    rss: Seq<char>,
    comm: Seq<char>,
)
    requires
        is_gap(g),
        is_column(pid),
        is_column(ppid),
        is_column(uid),
        is_column(etime),
        is_column(cpu),
        is_column(rss),
        comm.len() > 0,
        !text::is_white(comm[0]),
    ensures
        ({
            let l = table_line(g, pid, ppid, uid, etime, cpu, rss, comm);
            &&& macos::field(l, 0) == pid
            &&& macos::field(l, 1) == ppid
            &&& macos::field(l, 2) == uid
            &&& macos::field(l, 3) == etime
            &&& macos::field(l, 4) == cpu
            &&& macos::field(l, 5) == rss
            &&& macos::behind_fields(l, 6) == comm
            &&& l.len() > 0
            &&& l[0] == pid[0]
            &&& l.last() == comm.last()
        }),
{
    reveal(table_line);
    let r5 = rss + g + comm;
    let r4 = cpu + g + r5;
    let r3 = etime + g + r4;
    let r2 = uid + g + r3;
    let r1 = ppid + g + r2;
    let l = pid + g + r1;
    assert(r5[0] == rss[0] && r4[0] == cpu[0] && r3[0] == etime[0] && r2[0] == uid[0] && r1[0]
        == ppid[0]);
    columns_are_fields(rss, g, comm, 0);
    columns_are_fields(cpu, g, r5, 0);
    columns_are_fields(cpu, g, r5, 1);
    columns_are_fields(etime, g, r4, 0);
    columns_are_fields(etime, g, r4, 1);
    columns_are_fields(etime, g, r4, 2);
    columns_are_fields(uid, g, r3, 0);
    columns_are_fields(uid, g, r3, 1);
    columns_are_fields(uid, g, r3, 2);
    columns_are_fields(uid, g, r3, 3);
    columns_are_fields(ppid, g, r2, 0);
    columns_are_fields(ppid, g, r2, 1);
    columns_are_fields(ppid, g, r2, 2);
    columns_are_fields(ppid, g, r2, 3);
    columns_are_fields(ppid, g, r2, 4);
    columns_are_fields(pid, g, r1, 0);
    columns_are_fields(pid, g, r1, 1);
    columns_are_fields(pid, g, r1, 2);
    columns_are_fields(pid, g, r1, 3);
    columns_are_fields(pid, g, r1, 4);
    columns_are_fields(pid, g, r1, 5);
    assert(r5.last() == comm.last() && r4.last() == r5.last() && r3.last() == r4.last() && r2.last()
        == r3.last() && r1.last() == r2.last() && l.last() == r1.last());
}

/// A process is listed with the numbers of its columns and the path behind
/// them, called by the last component of the path, and started as long ago as
/// it has run. Memory that is no positive number is not known.
pub proof fn listed_process_is_read(
    a: Seq<char>,
    b: Seq<char>,
    g: Seq<char>,
    pid: Pid,
    ppid: Pid,
    uid: u32,
    etime: Seq<char>,
    cpu: Seq<char>,
    rss: u64,
    comm: Seq<char>,
    now: i64,
)
    requires
        is_gap(g),
        forall|j: int| 0 <= j < a.len() ==> text::is_white(#[trigger] a[j]),
        forall|j: int| 0 <= j < b.len() ==> text::is_white(#[trigger] b[j]),
        is_column(etime),
        is_column(cpu),
        comm.len() > 0,
        !text::is_white(comm[0]),
        !text::is_white(comm.last()),
    ensures
        ({
            let line = a + table_line(
                g,
                num::dec(pid as int),
                num::dec(ppid as int),
                num::dec(uid as int),
                etime,
                cpu,
                num::dec(rss as int),
                comm,
            ) + b;
            macos::ps_row(line, now as int) matches Some(r) && r.0.pid == pid && r.0.ppid == Some(
                ppid,
            ) && r.0.uid == Some(uid) && r.0.name == util::base(comm) && r.0.exe == Some(comm)
                && r.0.mem_kb == (if rss > 0 {
                Some(rss)
            } else {
                None
            }) && (r.0.started is Some <==> util::etime_secs(etime) is Some) && (util::etime_secs(
                etime,
            ) matches Some(age) ==> r.0.started == Some(util::elapsed(now as int, age) as i64))
                && r.1 == cpu && r.0.user is None && r.0.env is None && r.0.cwd is None
                && r.0.cmdline.len() == 0 && !r.0.exe_deleted && !r.0.kernel_thread
        }),
{
    let tp = num::dec(pid as int);
    let tq = num::dec(ppid as int);
    let tu = num::dec(uid as int);
    let tm = num::dec(rss as int);
    printed_is_column(pid as int);
    printed_is_column(ppid as int);
    printed_is_column(uid as int);
    printed_is_column(rss as int);
    num::printed_number_reads_back(pid as int, i32::MIN as int, i32::MAX as int);
    num::printed_number_reads_back(ppid as int, i32::MIN as int, i32::MAX as int);
    num::printed_natural_reads_back(uid as int, u32::MAX as int);
    num::printed_natural_reads_back(rss as int, u64::MAX as int);
    table_line_has_fields(g, tp, tq, tu, etime, cpu, tm, comm);
    let l = table_line(g, tp, tq, tu, etime, cpu, tm, comm);
    text::trimming_takes_the_ends(a, l, b, Class::White);
}

proof fn printed_is_column(n: int)
    ensures
        is_column(num::dec(n)),
{
    num::printed_number_has_no_space(n);
}

/// The command line of a process is what stands behind its pid, without the
/// white space around it.
pub proof fn command_stands_behind_the_pid(
    a: Seq<char>,
    pid: Pid,
    b: Seq<char>,
    cmd: Seq<char>,
    c: Seq<char>,
)
    requires
        forall|j: int| 0 <= j < a.len() ==> text::is_white(#[trigger] a[j]),
        forall|j: int| 0 <= j < b.len() ==> text::is_white(#[trigger] b[j]),
        forall|j: int| 0 <= j < c.len() ==> text::is_white(#[trigger] c[j]),
        cmd.len() > 0,
        !text::is_white(cmd[0]),
        !text::is_white(cmd.last()),
    ensures
        macos::detail_row(a + (num::dec(pid as int) + seq![' '] + (b + cmd + c))) == Some(
            (pid as int, cmd),
        ),
        macos::detail_row(a + num::dec(pid as int)) is None,
{
    let p = num::dec(pid as int);
    let rest = b + cmd + c;
    let l = p + seq![' '] + rest;
    num::printed_number_has_no_space(pid as int);
    num::printed_number_reads_back(pid as int, i32::MIN as int, i32::MAX as int);
    assert(l[0] == p[0]);
    text::next_out_of_all(a, l, Class::White, 0);
    assert((a + l).subrange(a.len() as int, (a + l).len() as int) =~= l);
    text::next_out_of_all(a, p, Class::White, 0);
    assert((a + p).subrange(a.len() as int, (a + p).len() as int) =~= p);
    assert forall|j: int| 0 <= j < p.len() implies !Class::Is(' ').holds(#[trigger] p[j]) by {
    }
    text::cut_once_is_at_the_first(p, ' ', rest, Class::Is(' '));
    text::trimming_takes_the_ends(b, cmd, c, Class::White);
}

proof fn command_is_where(ls: Seq<Seq<char>>, at: int, i: int)
    requires
        0 <= i <= at < ls.len(),
        forall|j: int| 0 <= j < at ==> macos::detail_row(#[trigger] ls[j]) is None,
        macos::detail_row(ls[at]) is Some,
    ensures
        macos::command_in(ls, i) == Some((macos::detail_row(ls[at])->0).1),
    decreases at - i,
{
    if i < at {
        command_is_where(ls, at, i + 1);
    }
}

proof fn name_is_where(ls: Seq<Seq<char>>, at: int, i: int)
    requires
        0 <= i <= at < ls.len(),
        forall|j: int| 0 <= j < at ==> (#[trigger] ls[j]).len() == 0 || ls[j][0] != 'n',
        ls[at].len() > 0 && ls[at][0] == 'n',
    ensures
        macos::name_in(ls, i) == Some(ls[at].subrange(1, ls[at].len() as int)),
    decreases at - i,
{
    reveal_strlit("n");
    assert("n"@ =~= seq!['n']);
    let l = ls[i];
    if i < at {
        name_is_where(ls, at, i + 1);
        assert(l.len() == 0 || l[0] != 'n');
        assert(!text::starts_with(l, "n"@)) by {
            if text::starts_with(l, "n"@) {
                text::holding_is_standing_between(l, "n"@);
                let b = choose|b: Seq<char>| l == #[trigger] ("n"@ + b);
                assert(l[0] == 'n');
            }
        }
    } else {
        let b = l.subrange(1, l.len() as int);
        assert(l =~= "n"@ + b);
        text::holding_is_standing_between(l, "n"@);
        text::stripping_undoes_adding(b, "n"@);
    }
}

/// The details of a process are the first command that `ps` printed and the
/// first name that `lsof` printed; a program image counts where its path is
/// absolute. What was not printed stays as it was.
pub proof fn details_are_what_was_printed(
    cmdline: Seq<Seq<char>>,
    path: Option<Seq<char>>,
    out: Seq<char>,
    at: int,
)
    requires
        0 <= at < text::lines(out).len(),
    ensures
        macos::detailed_cmdline(cmdline, None) == cmdline,
        macos::detailed_exe(path, None) == path,
        macos::detailed_cwd(path, None) == path,
        (forall|j: int| 0 <= j < at ==> macos::detail_row(#[trigger] text::lines(out)[j]) is None)
            && (macos::detail_row(text::lines(out)[at]) matches Some(r) && r.1.len() > 0)
            ==> macos::detailed_cmdline(cmdline, Some(out)) == seq![
            (macos::detail_row(text::lines(out)[at])->0).1,
        ],
        (forall|j: int|
            0 <= j < at ==> (#[trigger] text::lines(out)[j]).len() == 0 || text::lines(out)[j][0]
                != 'n') && text::lines(out)[at].len() > 0 && text::lines(out)[at][0] == 'n' ==> ({
            let p = text::lines(out)[at].subrange(1, text::lines(out)[at].len() as int);
            &&& macos::detailed_cwd(path, Some(out)) == Some(p)
            &&& macos::detailed_exe(path, Some(out)) == if p.len() > 0 && p[0] == '/' {
                Some(p)
            } else {
                path
            }
        }),
{
    let ls = text::lines(out);
    if (forall|j: int| 0 <= j < at ==> macos::detail_row(#[trigger] ls[j]) is None)
        && macos::detail_row(ls[at]) is Some {
        command_is_where(ls, at, 0);
    }
    if (forall|j: int| 0 <= j < at ==> (#[trigger] ls[j]).len() == 0 || ls[j][0] != 'n')
        && ls[at].len() > 0 && ls[at][0] == 'n' {
        name_is_where(ls, at, 0);
        let p = ls[at].subrange(1, ls[at].len() as int);
        reveal_strlit("/");
        assert("/"@ =~= seq!['/']);
        text::holding_is_standing_between(p, "/"@);
        if p.len() > 0 && p[0] == '/' {
            assert(p =~= "/"@ + p.subrange(1, p.len() as int));
        }
        if text::starts_with(p, "/"@) {
            let b = choose|b: Seq<char>| p == #[trigger] ("/"@ + b);
            assert(p[0] == '/');
        }
    }
}

// ---------- the environment ----------

/// Whether a word assigns a value to a name: letters, digits and underscores,
/// without a digit at the start, and then an equals sign.
pub open spec fn assigns(word: Seq<char>, name: Seq<char>, value: Seq<char>) -> bool {
    &&& word == name + seq!['='] + value
    &&& name.len() > 0
    &&& !('0' <= name[0] <= '9')
    &&& forall|i: int|
        0 <= i < name.len() ==> ('a' <= #[trigger] name[i] <= 'z' || 'A' <= name[i] <= 'Z' || '0'
            <= name[i] <= '9' || name[i] == '_')
}

/// Whether one of the first `n` words assigns something to a name.
pub open spec fn is_assigned(words: Seq<Seq<char>>, name: Seq<char>, n: int) -> bool {
    exists|i: int, v: Seq<char>| 0 <= i < n && #[trigger] assigns(words[i], name, v)
}

proof fn assignment_is_cut(word: Seq<char>, name: Seq<char>, value: Seq<char>)
    ensures
        assigns(word, name, value) <==> (text::split_once(word, Class::Is('=')) == Some(
            (name, value),
        ) && macos::is_var_name(name)),
{
    let k = Class::Is('=');
    if assigns(word, name, value) {
        assert forall|j: int| 0 <= j < name.len() implies !k.holds(#[trigger] name[j]) by {
        }
        text::cut_once_is_at_the_first(name, '=', value, k);
        assert forall|i: int| 0 <= i < name.len() implies macos::is_name_char(
            #[trigger] name[i],
        ) by {
        }
    }
    if text::split_once(word, k) == Some((name, value)) && macos::is_var_name(name) {
        text::next_in_is_first(word, k, 0);
        assert(word =~= name + seq!['='] + value);
        assert forall|i: int| 0 <= i < name.len() implies ('a' <= #[trigger] name[i] <= 'z' || 'A'
            <= name[i] <= 'Z' || '0' <= name[i] <= '9' || name[i] == '_') by {
            assert(macos::is_name_char(name[i]));
        }
    }
}

/// The variables are the assignments among the words; of several to one name
/// the first counts.
pub proof fn variables_are_the_first_assignments(words: Seq<Seq<char>>, n: int)
    requires
        0 <= n <= words.len(),
    ensures
        forall|name: Seq<char>, value: Seq<char>|
            #![trigger macos::vars_among(words, n).contains((name, value))]
            macos::vars_among(words, n).contains((name, value)) <==> exists|i: int|
                0 <= i < n && #[trigger] assigns(words[i], name, value) && !is_assigned(
                    words,
                    name,
                    i,
                ),
        forall|name: Seq<char>| #[trigger]
            macos::has_var(macos::vars_among(words, n), name) <==> is_assigned(words, name, n),
    decreases n,
{
    if n > 0 {
        variables_are_the_first_assignments(words, n - 1);
        let before = macos::vars_among(words, n - 1);
        let now = macos::vars_among(words, n);
        let w = words[n - 1];
        let cut = text::split_once(w, Class::Is('='));
        assert forall|name: Seq<char>, v: Seq<char>| #[trigger] assigns(w, name, v) <==> (cut
            == Some((name, v)) && macos::is_var_name(name)) by {
            assignment_is_cut(w, name, v);
        }
        let grows = cut is Some && macos::is_var_name((cut->0).0) && !macos::has_var(
            before,
            (cut->0).0,
        );
        assert forall|name: Seq<char>| #[trigger] macos::has_var(now, name) <==> is_assigned(
            words,
            name,
            n,
        ) by {
            let _ = macos::has_var(before, name);
            if macos::has_var(before, name) {
                let i = choose|i: int| 0 <= i < before.len() && (#[trigger] before[i]).0 == name;
                assert(now[i].0 == name);
                let (j, v) = choose|j: int, v: Seq<char>|
                    0 <= j < n - 1 && #[trigger] assigns(words[j], name, v);
                assert(assigns(words[j], name, v));
            } else {
                if macos::has_var(now, name) {
                    let i = choose|i: int| 0 <= i < now.len() && (#[trigger] now[i]).0 == name;
                    assert(grows);
                    if i < before.len() {
                        assert(before[i].0 == name);
                    }
                    assert(assigns(words[n - 1], name, (cut->0).1));
                }
                if is_assigned(words, name, n) {
                    let (j, v) = choose|j: int, v: Seq<char>|
                        0 <= j < n && #[trigger] assigns(words[j], name, v);
                    assert(j == n - 1) by {
                        if j < n - 1 {
                            assert(is_assigned(words, name, n - 1));
                        }
                    }
                    assert(now[now.len() - 1].0 == name);
                }
            }
        }
        assert forall|name: Seq<char>, value: Seq<char>|
            #![trigger now.contains((name, value))]
            now.contains((name, value)) <==> exists|i: int|
                0 <= i < n && #[trigger] assigns(words[i], name, value) && !is_assigned(
                    words,
                    name,
                    i,
                ) by {
            let _ = before.contains((name, value));
            let _ = macos::has_var(before, name);
            if now.contains((name, value)) {
                let k = choose|k: int| 0 <= k < now.len() && now[k] == (name, value);
                if k < before.len() {
                    assert(before[k] == (name, value));
                    assert(before.contains((name, value)));
                } else {
                    assert(grows && cut == Some((name, value)));
                    assert(assigns(words[n - 1], name, value));
                    assert(!is_assigned(words, name, n - 1));
                }
            }
            if exists|i: int|
                0 <= i < n && #[trigger] assigns(words[i], name, value) && !is_assigned(
                    words,
                    name,
                    i,
                ) {
                let i = choose|i: int|
                    0 <= i < n && #[trigger] assigns(words[i], name, value) && !is_assigned(
                        words,
                        name,
                        i,
                    );
                if i < n - 1 {
                    assert(before.contains((name, value)));
                    let k = choose|k: int| 0 <= k < before.len() && before[k] == (name, value);
                    assert(now[k] == (name, value));
                } else {
                    assert(grows);
                    assert(now[now.len() - 1] == (name, value));
                }
            }
        }
    } else {
        assert forall|name: Seq<char>| !(#[trigger] is_assigned(words, name, 0)) by {
        }
    }
}

// ---------- launchd ----------

/// A job is listed with its pid, its status and its label, each behind a tab;
/// one that does not run has a dash for the pid.
pub proof fn job_line_is_read(pid: Pid, status: i64, label: Seq<char>)
    requires
        is_column(label),
    ensures
        macos::job_row(
            num::dec(pid as int) + seq!['\t'] + (num::dec(status as int) + seq!['\t'] + label),
        ) == Some((pid as int, label)),
        macos::job_row(seq!['-'] + seq!['\t'] + (num::dec(status as int) + seq!['\t'] + label)) is None,
{
    let p = num::dec(pid as int);
    let s = num::dec(status as int);
    let inner = s + seq!['\t'] + label;
    let line = p + seq!['\t'] + inner;
    printed_is_column(pid as int);
    printed_is_column(status as int);
    num::printed_number_reads_back(pid as int, i32::MIN as int, i32::MAX as int);
    num::printed_number_reads_back(status as int, i64::MIN as int, i64::MAX as int);
    text::unbroken_is_one_word(label);
    text::first_word_ends_at_white_space(s, '\t', label);
    text::first_word_ends_at_white_space(p, '\t', inner);
    text::first_word_ends_at_white_space(seq!['-'], '\t', inner);
    let w = text::words(line);
    assert(w =~= seq![p, s, label]);
    text::cut_once_is_at_the_first(p, '\t', inner, Class::White);
    text::cut_once_is_at_the_first(s, '\t', label, Class::White);
    text::trimming_takes_the_ends(seq![], label, seq![], Class::White);
    assert(seq![] + label + seq![] =~= label);
    let dash = text::words(seq!['-'] + seq!['\t'] + inner);
    assert(dash[0] == seq!['-']);
    let none = seq!['-'].subrange(1, 1);
    assert(seq!['-'].subrange(1, seq!['-'].len() as int) =~= none);
    assert(!num::all_digits(none, 10));
}

proof fn job_is_where(ls: Seq<Seq<char>>, pid: Pid, at: int, i: int)
    requires
        0 <= i <= at < ls.len(),
        forall|j: int|
            0 <= j < at ==> !(macos::job_row(#[trigger] ls[j]) matches Some(r) && r.0 == pid),
        macos::job_row(ls[at]) matches Some(r) && r.0 == pid,
    ensures
        macos::job_in(ls, pid, i) == Some((macos::job_row(ls[at])->0).1),
    decreases at - i,
{
    if i < at {
        job_is_where(ls, pid, at, i + 1);
    }
}

proof fn job_is_nowhere(ls: Seq<Seq<char>>, pid: Pid, i: int)
    requires
        0 <= i,
        forall|j: int|
            0 <= j < ls.len() ==> !(macos::job_row(#[trigger] ls[j]) matches Some(r) && r.0 == pid),
    ensures
        macos::job_in(ls, pid, i) is None,
    decreases ls.len() - i,
{
    if i < ls.len() {
        job_is_nowhere(ls, pid, i + 1);
    }
}

/// The job of a process is the first one that runs as its pid.
pub proof fn job_runs_as_the_pid(ls: Seq<Seq<char>>, pid: Pid, at: int)
    requires
        forall|j: int|
            0 <= j < at && j < ls.len() ==> !(macos::job_row(#[trigger] ls[j]) matches Some(r)
                && r.0 == pid),
    ensures
        0 <= at < ls.len() && (macos::job_row(ls[at]) matches Some(r) && r.0 == pid)
            ==> macos::job_in(ls, pid, 0) == Some((macos::job_row(ls[at])->0).1),
        at >= ls.len() ==> macos::job_in(ls, pid, 0) is None,
{
    if 0 <= at < ls.len() && (macos::job_row(ls[at]) matches Some(r) && r.0 == pid) {
        job_is_where(ls, pid, at, 0);
    }
    if at >= ls.len() {
        job_is_nowhere(ls, pid, 0);
    }
}

/// Whether a process is launchd: the first process, or one of that name.
pub open spec fn is_launchd(p: ProcessView) -> bool {
    p.pid == 1 || p.name == seq!['l', 'a', 'u', 'n', 'c', 'h', 'd']
}

/// Under launchd, a job is the source by its label; without a job, launchd is
/// the source of its own children alone. Elsewhere it is the source of nothing.
pub proof fn launchd_is_the_source(
    chain: Seq<ProcessView>,
    job: Option<Seq<char>>,
    plist: Option<Seq<char>>,
)
    ensures
        macos::service(chain, job, plist) is Some <==> chain.len() > 0 && is_launchd(chain[0]) && (
        job is Some || chain.len() >= 2 && is_launchd(chain[chain.len() - 2])),
        macos::service(chain, job, plist) matches Some(s) ==> s.kind == "launchd"@ && s.label == job
            && s.detail is Some,
        macos::service(chain, job, plist) matches Some(s) ==> (plist is Some && job is Some
            ==> text::contains(s.detail->0, plist->0) && text::contains(s.detail->0, job->0)),
        macos::service(chain, job, plist) matches Some(s) ==> (job is None ==> text::contains(
            s.detail->0,
            num::dec(chain.last().pid as int),
        )),
{
    reveal_strlit("launchd");
    assert("launchd"@ =~= seq!['l', 'a', 'u', 'n', 'c', 'h', 'd']);
    if job is Some && plist is Some {
        let a = "launchd job \""@;
        let b = "\" (plist: "@;
        let c = ")"@;
        let d = a + job->0 + b + plist->0 + c;
        assert(d =~= a + job->0 + (b + plist->0 + c));
        assert(d =~= (a + job->0 + b) + plist->0 + c);
        text::holding_is_standing_between(d, job->0);
        text::holding_is_standing_between(d, plist->0);
    }
    if job is None && chain.len() > 0 {
        let a = "spawned directly by launchd (pid "@;
        let n = num::dec(chain.last().pid as int);
        let b = "), but no LaunchAgent/Daemon claims it (XPC?)"@;
        text::holding_is_standing_between(a + n + b, n);
    }
}

/// A property list is looked for in the user's own directory first, where there
/// is one, and under its label everywhere.
pub proof fn own_property_list_comes_first(label: Seq<char>, home: Seq<char>)
    ensures
        ({
            let with = macos::plist_paths(label, Some(home));
            let without = macos::plist_paths(label, None);
            &&& with.subrange(1, with.len() as int) == without
            &&& text::starts_with(with[0], home)
            &&& without.len() == 4
            &&& forall|i: int|
                0 <= i < with.len() ==> text::ends_with(
                    #[trigger] with[i],
                    "/"@ + label + ".plist"@,
                )
        }),
{
    let with = macos::plist_paths(label, Some(home));
    let without = macos::plist_paths(label, None);
    let file = "/"@ + label + ".plist"@;
    assert(with.subrange(1, with.len() as int) =~= without);
    let own = home + "/"@ + "Library/LaunchAgents"@ + file;
    assert(with[0] == own);
    assert(own =~= home + ("/"@ + "Library/LaunchAgents"@ + file));
    text::holding_is_standing_between(own, home);
    assert forall|i: int| 0 <= i < with.len() implies text::ends_with(#[trigger] with[i], file) by {
        text::holding_is_standing_between(with[i], file);
        if i == 0 {
            assert(with[i] == (home + "/"@ + "Library/LaunchAgents"@) + file);
        } else {
            assert(with[i] == without[i - 1]);
        }
    }
}

/// The environment is the variables that were printed, where there is any; else
/// it stays as it was.
pub proof fn environment_is_what_was_printed(
    was: Option<Seq<(Seq<char>, Seq<char>)>>,
    out: Seq<char>,
)
    ensures
        macos::detailed_env(was, None) == was,
        ({
            let words = text::words(out);
            let env = macos::vars_among(words, words.len() as int);
            macos::detailed_env(was, Some(out)) == if env.len() == 0 {
                was
            } else {
                Some(env)
            }
        }),
{
}

} // verus!
