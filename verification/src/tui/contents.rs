//! What holds of the panes and the screen: what they show, of whom, and where.

use vstd::prelude::*;
use vstd::string::*;

use crate::history::HistoryView;
use crate::model::{ContainerView, Pid, ProcessView, SocketView, TargetReportView};
use crate::platform::Os;
use crate::render::contents as printed;
use crate::render::Clock;
use crate::tui::app::{AppView, Focus, Tab};
use crate::tui::filter::SortKey;
use crate::tui::line::{Color, SpanView};
use crate::tui::screen::{ItemView, Rect};
use crate::tui::{line, panes, screen};
use crate::{num, render, text, util};

verus! {

/// Whether some line has two pieces: a label with spaces behind it, and this
/// value.
pub open spec fn labelled(lines: Seq<Seq<SpanView>>, label: Seq<char>, value: Seq<char>) -> bool {
    exists|i: int|
        0 <= i < lines.len() && (#[trigger] lines[i]).len() == 2 && lines[i][1].text == value
            && text::starts_with(lines[i][0].text, label)
}

/// Whether some line has a piece with this text.
pub open spec fn shown(lines: Seq<Seq<SpanView>>, t: Seq<char>) -> bool {
    exists|i: int, j: int|
        0 <= i < lines.len() && 0 <= j < lines[i].len() && (#[trigger] lines[i][j]).text == t
}

proof fn pair_is_labelled(lines: Seq<Seq<SpanView>>, i: int, k: Seq<char>, w: int, v: Seq<char>)
    requires
        0 <= i < lines.len(),
        lines[i] == panes::pair(k, w, v),
    ensures
        labelled(lines, k, v),
{
    let l = lines[i];
    let padded = num::pad_right(k, w);
    num::padding_is_spaces(k, w);
    assert(l[0].text == padded && l[1].text == v);
    assert(padded =~= k + padded.subrange(k.len() as int, padded.len() as int));
    text::holding_is_standing_between(padded, k);
}

proof fn labelled_in_longer(
    a: Seq<Seq<SpanView>>,
    b: Seq<Seq<SpanView>>,
    k: Seq<char>,
    v: Seq<char>,
)
    requires
        labelled(a, k, v) || labelled(b, k, v),
    ensures
        labelled(a + b, k, v),
{
    if labelled(a, k, v) {
        let i = choose|i: int|
            0 <= i < a.len() && (#[trigger] a[i]).len() == 2 && a[i][1].text == v
                && text::starts_with(a[i][0].text, k);
        assert((a + b)[i] == a[i]);
    } else {
        let i = choose|i: int|
            0 <= i < b.len() && (#[trigger] b[i]).len() == 2 && b[i][1].text == v
                && text::starts_with(b[i][0].text, k);
        assert((a + b)[a.len() + i] == b[i]);
    }
}

proof fn shown_in_longer(a: Seq<Seq<SpanView>>, b: Seq<Seq<SpanView>>, t: Seq<char>)
    requires
        shown(a, t) || shown(b, t),
    ensures
        shown(a + b, t),
{
    if shown(a, t) {
        let (i, j) = choose|i: int, j: int|
            0 <= i < a.len() && 0 <= j < a[i].len() && (#[trigger] a[i][j]).text == t;
        assert((a + b)[i][j].text == t);
    } else {
        let (i, j) = choose|i: int, j: int|
            0 <= i < b.len() && 0 <= j < b[i].len() && (#[trigger] b[i][j]).text == t;
        assert((a + b)[a.len() + i][j].text == t);
    }
}

proof fn shown_at(lines: Seq<Seq<SpanView>>, i: int, j: int, t: Seq<char>)
    requires
        0 <= i < lines.len(),
        0 <= j < lines[i].len(),
        lines[i][j].text == t,
    ensures
        shown(lines, t),
{
}

// ---------- details ----------

proof fn identity_is_labelled(m: ProcessView, c: Clock)
    ensures
        ({
            let l = panes::identity_lines(m, c);
            &&& labelled(l, "PID"@, num::dec(m.pid as int))
            &&& m.user matches Some(u) ==> labelled(l, "User"@, u)
            &&& m.started matches Some(t) ==> labelled(l, "Started"@, render::started_text(c, t))
            &&& m.cwd matches Some(w) ==> labelled(l, "Cwd"@, w)
            &&& m.exe matches Some(e) ==> labelled(l, "Exe"@, e)
            &&& m.cmdline.len() > 0 ==> labelled(l, "Cmd"@, m.command())
        }),
{
    let l = panes::identity_lines(m, c);
    pair_is_labelled(l, 0, "PID"@, 8, num::dec(m.pid as int));
    let u: int = if m.user is Some {
        1
    } else {
        0
    };
    let s = if m.started is Some {
        u + 1
    } else {
        u
    };
    let w = if m.cwd is Some {
        s + 1
    } else {
        s
    };
    let e = if m.exe is Some {
        w + 1
    } else {
        w
    };
    if m.user is Some {
        pair_is_labelled(l, u, "User"@, 8, m.user->0);
    }
    if m.started is Some {
        pair_is_labelled(l, s, "Started"@, 8, render::started_text(c, m.started->0));
    }
    if m.cwd is Some {
        pair_is_labelled(l, w, "Cwd"@, 8, m.cwd->0);
    }
    if m.exe is Some {
        pair_is_labelled(l, e, "Exe"@, 8, m.exe->0);
    }
    if m.cmdline.len() > 0 {
        pair_is_labelled(l, e + 1, "Cmd"@, 8, m.command());
    }
}

/// The details show who the process is: its pid, and where they are known its
/// user, start, directory, image and command line.
pub proof fn details_show_who_it_is(r: TargetReportView, c: Clock)
    requires
        r.matches.len() > 0,
    ensures
        ({
            let m = r.matches[0];
            let l = panes::details(r, c);
            &&& labelled(l, "PID"@, num::dec(m.pid as int))
            &&& m.user matches Some(u) ==> labelled(l, "User"@, u)
            &&& m.started matches Some(t) ==> labelled(l, "Started"@, render::started_text(c, t))
            &&& m.cwd matches Some(w) ==> labelled(l, "Cwd"@, w)
            &&& m.exe matches Some(e) ==> labelled(l, "Exe"@, e)
            &&& m.cmdline.len() > 0 ==> labelled(l, "Cmd"@, m.command())
        }),
{
    let m = r.matches[0];
    let a = panes::identity_lines(m, c);
    identity_is_labelled(m, c);
    assert forall|k: Seq<char>, v: Seq<char>| labelled(a, k, v) implies #[trigger] labelled(
        panes::details(r, c),
        k,
        v,
    ) by {
        let b = panes::source_lines(r.source);
        let d = panes::tree_lines(r.ancestry);
        let e = panes::risk_lines(r);
        let f = panes::warning_lines(r.warnings);
        labelled_in_longer(a, b, k, v);
        labelled_in_longer(a + b, d, k, v);
        labelled_in_longer(a + b + d, e, k, v);
        labelled_in_longer(a + b + d + e, f, k, v);
    }
}

proof fn details_show(r: TargetReportView, c: Clock, t: Seq<char>)
    requires
        shown(panes::source_lines(r.source), t) || shown(panes::tree_lines(r.ancestry), t) || shown(
            panes::risk_lines(r),
            t,
        ) || shown(panes::warning_lines(r.warnings), t),
    ensures
        shown(panes::details(r, c), t),
{
    let a = panes::identity_lines(r.matches[0], c);
    let b = panes::source_lines(r.source);
    let d = panes::tree_lines(r.ancestry);
    let e = panes::risk_lines(r);
    let f = panes::warning_lines(r.warnings);
    if shown(b, t) {
        shown_in_longer(a, b, t);
    }
    if shown(a + b, t) || shown(d, t) {
        shown_in_longer(a + b, d, t);
    }
    if shown(a + b + d, t) || shown(e, t) {
        shown_in_longer(a + b + d, e, t);
    }
    shown_in_longer(a + b + d + e, f, t);
}

proof fn ancestors_have_lines(chain: Seq<ProcessView>, n: int)
    requires
        0 <= n,
    ensures
        panes::ancestor_lines(chain, n).len() == n,
        forall|i: int|
            0 <= i < n ==> #[trigger] panes::ancestor_lines(chain, n)[i] == panes::ancestor_line(
                chain[i],
                i as nat,
                i + 1 == chain.len(),
            ),
    decreases n,
{
    if n > 0 {
        ancestors_have_lines(chain, n - 1);
    }
}

/// The details show what started the process, every link of its chain with its
/// pid, the risk, and every warning behind its sign.
pub proof fn details_show_where_it_comes_from(r: TargetReportView, c: Clock, j: int)
    requires
        0 <= j,
    ensures
        ({
            let l = panes::details(r, c);
            &&& r.source matches Some(s) ==> shown(l, s.kind)
            &&& r.source matches Some(s) ==> (s.label matches Some(x) ==> shown(l, " · "@ + x))
            &&& r.source matches Some(s) ==> (s.detail matches Some(x) ==> shown(l, "  "@ + x))
            &&& r.ancestry.len() > 1 && j < r.ancestry.len() ==> shown(
                l,
                r.ancestry[j].name + " ("@ + num::dec(r.ancestry[j].pid as int) + ")"@,
            )
            &&& r.risk matches Some(k) ==> (k.score > 0 ==> shown(
                l,
                "⚠ "@ + ("risk "@ + num::dec(k.score as int) + "/10: "@ + text::join(
                    k.signals,
                    "; "@,
                )),
            ))
            &&& j < r.warnings.len() ==> shown(l, "⚠ "@ + r.warnings[j])
        }),
{
    if r.source is Some {
        let s = r.source->0;
        let b = panes::source_lines(r.source);
        shown_at(b, 1, 1, s.kind);
        details_show(r, c, s.kind);
        if s.label is Some {
            shown_at(b, 1, 2, " · "@ + s.label->0);
            details_show(r, c, " · "@ + s.label->0);
        }
        if s.detail is Some {
            shown_at(b, 2, 0, "  "@ + s.detail->0);
            details_show(r, c, "  "@ + s.detail->0);
        }
    }
    if r.ancestry.len() > 1 && j < r.ancestry.len() {
        let a = r.ancestry[j];
        let name = a.name + " ("@ + num::dec(a.pid as int) + ")"@;
        ancestors_have_lines(r.ancestry, r.ancestry.len() as int);
        let d = panes::tree_lines(r.ancestry);
        let row = panes::ancestor_lines(r.ancestry, r.ancestry.len() as int)[j];
        assert(d[j + 2] == row);
        assert(row[1].text == name);
        shown_at(d, j + 2, 1, name);
        details_show(r, c, name);
    }
    if r.risk is Some && r.risk->0.score > 0 {
        let k = r.risk->0;
        let t = "⚠ "@ + ("risk "@ + num::dec(k.score as int) + "/10: "@ + text::join(
            k.signals,
            "; "@,
        ));
        shown_at(panes::risk_lines(r), 1, 0, t);
        details_show(r, c, t);
    }
    if j < r.warnings.len() {
        let f = panes::warning_lines(r.warnings);
        assert(f[j + 1] == panes::alert(r.warnings[j]));
        shown_at(f, j + 1, 0, "⚠ "@ + r.warnings[j]);
        details_show(r, c, "⚠ "@ + r.warnings[j]);
    }
}

/// Restarts are shown from two on: those of late, and all of them.
pub proof fn restarts_are_shown_from_two_on(h: HistoryView, pid: Pid)
    ensures
        ({
            let l = panes::history_lines(h, pid);
            match h.restarts_of(pid) {
                Some(x) => {
                    &&& 2 <= x.events.len() <= u32::MAX ==> shown(
                        l,
                        "⚠ "@ + ("restarted "@ + num::dec(x.events.len() as int)
                            + "× in the last 5 min"@),
                    )
                    &&& x.total >= 2 ==> shown(
                        l,
                        "total "@ + num::dec(x.total as int) + " restarts since TUI start"@,
                    )
                    &&& x.events.len() < 2 && x.total < 2 ==> l.len() == 0
                },
                None => l.len() == 0,
            }
        }),
{
    let l = panes::history_lines(h, pid);
    if h.restarts_of(pid) is Some {
        let x = h.restarts_of(pid)->0;
        if 2 <= x.events.len() <= u32::MAX {
            let t = "⚠ "@ + ("restarted "@ + num::dec(x.events.len() as int)
                + "× in the last 5 min"@);
            assert(l[0] == panes::alert(
                "restarted "@ + num::dec(x.events.len() as int) + "× in the last 5 min"@,
            ));
            shown_at(l, 0, 0, t);
        }
        if x.total >= 2 {
            let t = "total "@ + num::dec(x.total as int) + " restarts since TUI start"@;
            assert(l.last() == panes::note(t));
            shown_at(l, l.len() - 1, 0, t);
        }
    }
}

/// Of the environment every variable is shown with its value.
pub proof fn environment_shows_every_variable(r: TargetReportView, os: Os, j: int)
    requires
        r.matches.len() > 0,
        r.matches[0].env is Some,
        0 <= j < r.matches[0].env->0.len(),
    ensures
        ({
            let env = r.matches[0].env->0;
            let l = panes::env_pane(Some(r), os);
            &&& l.len() == env.len()
            &&& line::line_text(l[j]) == env[j].0 + "="@ + env[j].1
        }),
{
    let env = r.matches[0].env->0;
    let l = panes::env_pane(Some(r), os)[j];
    reveal_strlit("");
    reveal_with_fuel(line::span_texts, 4);
    assert(line::line_text(l) =~= env[j].0 + "="@ + env[j].1);
}

proof fn files_have_lines(fs: Seq<Seq<char>>, n: int)
    requires
        0 <= n <= fs.len(),
    ensures
        panes::file_lines(fs, n).len() == n,
        forall|i: int|
            0 <= i < n ==> #[trigger] panes::file_lines(fs, n)[i] == line::raw_line("  "@ + fs[i]),
    decreases n,
{
    if n > 0 {
        files_have_lines(fs, n - 1);
    }
}

/// Up to thirty open files have a line, behind a heading with their number; how
/// many more there are is told in one line more.
pub proof fn open_files_have_lines(fs: Seq<Seq<char>>, j: int)
    requires
        fs.len() > 0,
        0 <= j < fs.len(),
    ensures
        ({
            let l = panes::open_file_lines(fs);
            &&& shown(l, "Open Files ("@ + num::dec(fs.len() as int) + "):"@)
            &&& j < 30 ==> l[j + 2] == line::raw_line("  "@ + fs[j])
            &&& fs.len() <= 30 ==> l.len() == fs.len() + 2
            &&& fs.len() > 30 ==> l.len() == 33 && l.last() == line::raw_line(
                "  … "@ + num::dec(fs.len() - 30) + " more"@,
            )
        }),
{
    let l = panes::open_file_lines(fs);
    if fs.len() > 30 {
        files_have_lines(fs, 30);
    } else {
        files_have_lines(fs, fs.len() as int);
    }
    let head = line::line("Open Files ("@ + num::dec(fs.len() as int) + "):"@, line::strong());
    assert(l[1] == head);
    shown_at(l, 1, 0, "Open Files ("@ + num::dec(fs.len() as int) + "):"@);
}

// ---------- connections and containers ----------

/// A connection shows its protocol, both ends, its state, its pid and the name
/// of its process; where there is no peer, no pid or no name, a dash.
pub proof fn connection_shows_the_socket(
    sockets: Seq<SocketView>,
    names: Map<Pid, Seq<char>>,
    j: int,
)
    requires
        0 <= j < sockets.len(),
    ensures
        ({
            let s = sockets[j];
            let l = panes::connections(sockets, names);
            let x = l[j + 1];
            let local = s.local_addr + ":"@ + num::dec(s.local_port as int);
            let peer = if s.peer_addr is Some && s.peer_port is Some {
                s.peer_addr->0 + ":"@ + num::dec(s.peer_port->0 as int)
            } else {
                "-"@
            };
            let pid = if s.pid is Some {
                num::dec(s.pid->0 as int)
            } else {
                "-"@
            };
            &&& l.len() == sockets.len() + 1
            &&& x.len() == 6
            &&& text::starts_with(x[0].text, s.proto)
            &&& text::starts_with(x[1].text, local)
            &&& text::starts_with(x[2].text, peer)
            &&& text::starts_with(x[3].text, s.state)
            &&& text::starts_with(x[4].text, pid)
            &&& x[5].text == if s.pid is Some && names.contains_key(s.pid->0) {
                names[s.pid->0]
            } else {
                "-"@
            }
        }),
{
    let s = sockets[j];
    padded_starts(s.proto, 5);
    padded_starts(panes::local_text(s), 34);
    padded_starts(panes::peer_text(s), 30);
    padded_starts(s.state, 13);
    padded_starts(panes::pid_text(s.pid), 7);
    assert(panes::connections(sockets, names)[j + 1] == panes::connection(s, names));
}

proof fn padded_starts(t: Seq<char>, w: int)
    ensures
        text::starts_with(num::pad_right(t, w) + "  "@, t),
{
    num::padding_is_spaces(t, w);
    let p = num::pad_right(t, w) + "  "@;
    assert(p =~= t + p.subrange(t.len() as int, p.len() as int));
    text::holding_is_standing_between(p, t);
}

/// The names are those of the listed processes.
pub proof fn names_are_those_listed(procs: Seq<ProcessView>, n: int, k: int)
    requires
        0 <= k < n <= procs.len(),
        forall|i: int| k < i < n ==> (#[trigger] procs[i]).pid != procs[k].pid,
    ensures
        panes::names_by_pid(procs, n).contains_key(procs[k].pid),
        panes::names_by_pid(procs, n)[procs[k].pid] == procs[k].name,
    decreases n,
{
    if k < n - 1 {
        assert(procs[n - 1].pid != procs[k].pid);
        names_are_those_listed(procs, n - 1, k);
    }
}

/// A container shows its attributes under their labels.
pub proof fn container_shows_its_attributes(c: ContainerView)
    ensures
        ({
            let l = panes::container_pane(Some(c));
            &&& labelled(l, "Name"@, c.name)
            &&& labelled(l, "Runtime"@, c.runtime)
            &&& labelled(l, "ID"@, c.id)
            &&& labelled(l, "Image"@, c.image)
            &&& labelled(l, "State"@, c.state)
            &&& labelled(l, "Status"@, c.status)
            &&& labelled(
                l,
                "Ports"@,
                if c.ports.len() > 0 {
                    c.ports
                } else {
                    "-"@
                },
            )
        }),
{
    let l = panes::container_pane(Some(c));
    pair_is_labelled(l, 0, "Name"@, 9, c.name);
    pair_is_labelled(l, 1, "Runtime"@, 9, c.runtime);
    pair_is_labelled(l, 2, "ID"@, 9, c.id);
    pair_is_labelled(l, 3, "Image"@, 9, c.image);
    pair_is_labelled(l, 4, "State"@, 9, c.state);
    pair_is_labelled(l, 5, "Status"@, 9, c.status);
    pair_is_labelled(
        l,
        6,
        "Ports"@,
        9,
        if c.ports.len() > 0 {
            c.ports
        } else {
            "-"@
        },
    );
}

/// Every process of a container has a line, by pid, with its pid in front and
/// its name behind.
pub proof fn members_have_lines(procs: Seq<ProcessView>, os: Os, i: int)
    requires
        procs.len() <= usize::MAX,
        0 <= i < procs.len(),
    ensures
        ({
            let s = render::by_pid(procs);
            let l = panes::members_pane(procs, os);
            let t = panes::member_row(
                num::dec(s[i].pid as int),
                if s[i].user is Some {
                    s[i].user->0
                } else {
                    "-"@
                },
                s[i].name,
            );
            &&& l.len() == s.len() + 1
            &&& i < s.len() ==> l[i + 1] == line::raw_line(t)
            &&& i < s.len() ==> text::starts_with(t, num::dec(s[i].pid as int))
            &&& i < s.len() ==> text::ends_with(t, s[i].name)
        }),
{
    let s = render::by_pid(procs);
    let pid = num::dec(s[i].pid as int);
    let user = render::or(s[i].user, "-"@);
    let t = panes::member_row(pid, user, s[i].name);
    num::padding_is_spaces(pid, 8);
    let p = num::pad_right(pid, 8);
    assert(t =~= pid + t.subrange(pid.len() as int, t.len() as int));
    text::holding_is_standing_between(t, pid);
    text::holding_is_standing_between(t, s[i].name);
    let front = p + " "@ + num::pad_right(user, 24) + " "@;
    assert(t == front + s[i].name);
}

// ---------- tables ----------

proof fn rows_of_the_view(
    a: AppView,
    cpu: Seq<Seq<char>>,
    mem: Seq<Seq<char>>,
    c: Clock,
    n: int,
)
    requires
        0 <= n <= a.view.len(),
        forall|i: int| 0 <= i < a.view.len() ==> #[trigger] a.view[i] < a.procs.len(),
    ensures
        screen::process_rows(a, cpu, mem, c, n).len() == n,
        forall|i: int|
            0 <= i < n ==> #[trigger] screen::process_rows(a, cpu, mem, c, n)[i]
                == screen::process_row(
                a.procs[a.view[i] as int],
                a.hist,
                screen::text_at(cpu, a.view[i] as int),
                screen::text_at(mem, a.view[i] as int),
                c,
            ),
    decreases n,
{
    if n > 0 {
        rows_of_the_view(a, cpu, mem, c, n - 1);
        assert(a.view[n - 1] < a.procs.len());
    }
}

/// A row of the process table shows the process of its place: pid, user, name,
/// cpu, trend, memory, restarts and age.
pub proof fn process_row_shows_the_process(
    a: AppView,
    area: Rect,
    cpu: Seq<Seq<char>>,
    mem: Seq<Seq<char>>,
    c: Clock,
    i: int,
)
    requires
        forall|k: int| 0 <= k < a.view.len() ==> #[trigger] a.view[k] < a.procs.len(),
        cpu.len() == a.procs.len(),
        mem.len() == a.procs.len(),
        0 <= i < a.view.len(),
    ensures
        screen::process_table(a, area, cpu, mem, c) matches ItemView::Table { rows, header, .. } && {
            let x = a.view[i] as int;
            let p = a.procs[x];
            let r = rows[i];
            &&& rows.len() == a.view.len() && header.len() == 8 && r.len() == 8
            &&& r[0] == num::dec(p.pid as int)
            &&& r[1] == if p.user is Some {
                p.user->0
            } else {
                "-"@
            }
            &&& r[2] == p.name
            &&& r[3] == cpu[x]
            &&& a.hist.sparks.contains_key(p.pid) ==> r[4] == a.hist.sparks[p.pid]
            &&& !a.hist.sparks.contains_key(p.pid) ==> r[4] == ""@
            &&& r[5] == mem[x]
            &&& r[6] == if a.hist.total_of(p.pid) > 0 {
                num::dec(a.hist.total_of(p.pid) as int)
            } else {
                ""@
            }
            &&& r[7] == if p.started is Some {
                util::age_text(util::elapsed(c.now as int, p.started->0 as int))
            } else {
                "-"@
            }
        },
{
    rows_of_the_view(a, cpu, mem, c, a.view.len() as int);
}

/// The column that the table is sorted by has an arrow, down for the largest
/// first and up else; no other has one.
pub proof fn arrow_marks_the_sorted_column(
    a: AppView,
    area: Rect,
    cpu: Seq<Seq<char>>,
    mem: Seq<Seq<char>>,
    c: Clock,
)
    ensures
        screen::process_table(a, area, cpu, mem, c) matches ItemView::Table { header, .. } && {
            let column: int = match a.sort_key {
                SortKey::Pid => 0,
                SortKey::User => 1,
                SortKey::Name => 2,
                SortKey::Cpu => 3,
                SortKey::Mem => 5,
                SortKey::Started => 7,
            };
            &&& header[column].last() == (if a.sort_desc {
                '↓'
            } else {
                '↑'
            })
            &&& forall|k: int|
                0 <= k < 8 && k != column ==> (#[trigger] header[k]).last() != '↓'
                    && header[k].last() != '↑'
        },
{
    reveal_strlit("PID");
    reveal_strlit("User");
    reveal_strlit("Name");
    reveal_strlit("CPU%");
    reveal_strlit("Trend");
    reveal_strlit("Mem");
    reveal_strlit("Rst");
    reveal_strlit("Age");
    reveal_strlit(" ↓");
    reveal_strlit(" ↑");
    reveal_strlit("");
}

/// A row of the socket table shows the socket of its place: protocol, local
/// end, state, pid and the name of the process.
pub proof fn socket_row_shows_the_socket(a: AppView, area: Rect, i: int)
    requires
        forall|k: int| 0 <= k < a.socket_view.len() ==> #[trigger] a.socket_view[k]
            < a.sockets.len(),
        0 <= i < a.socket_view.len(),
    ensures
        screen::socket_table(a, area) matches ItemView::Table { rows, .. } && {
            let s = a.sockets[a.socket_view[i] as int];
            let names = panes::names_by_pid(a.procs, a.procs.len() as int);
            let r = rows[i];
            &&& rows.len() == a.socket_view.len() && r.len() == 5
            &&& r[0] == s.proto
            &&& r[1] == s.local_addr + ":"@ + num::dec(s.local_port as int)
            &&& r[2] == s.state
            &&& r[3] == if s.pid is Some {
                num::dec(s.pid->0 as int)
            } else {
                "-"@
            }
            &&& r[4] == if s.pid is Some && names.contains_key(s.pid->0) {
                names[s.pid->0]
            } else {
                "-"@
            }
        },
{
    let names = panes::names_by_pid(a.procs, a.procs.len() as int);
    sockets_of_the_view(a, names, a.socket_view.len() as int);
}

proof fn sockets_of_the_view(a: AppView, names: Map<Pid, Seq<char>>, n: int)
    requires
        0 <= n <= a.socket_view.len(),
        forall|i: int| 0 <= i < a.socket_view.len() ==> #[trigger] a.socket_view[i]
            < a.sockets.len(),
    ensures
        screen::socket_rows(a, names, n).len() == n,
        forall|i: int|
            0 <= i < n ==> #[trigger] screen::socket_rows(a, names, n)[i] == screen::socket_row(
                a.sockets[a.socket_view[i] as int],
                names,
            ),
    decreases n,
{
    if n > 0 {
        sockets_of_the_view(a, names, n - 1);
        assert(a.socket_view[n - 1] < a.sockets.len());
    }
}

proof fn containers_of_the_view(a: AppView, n: int)
    requires
        0 <= n <= a.container_view.len(),
        forall|i: int| 0 <= i < a.container_view.len() ==> #[trigger] a.container_view[i]
            < a.containers.len(),
    ensures
        screen::container_rows(a, n).len() == n,
        forall|i: int|
            0 <= i < n ==> #[trigger] screen::container_rows(a, n)[i] == screen::container_row(
                a.containers[a.container_view[i] as int],
            ),
    decreases n,
{
    if n > 0 {
        containers_of_the_view(a, n - 1);
        assert(a.container_view[n - 1] < a.containers.len());
    }
}

/// A row of the container table shows the container of its place, its id by the
/// first twelve characters; a row of the lock table shows its lock.
pub proof fn other_rows_show_their_items(a: AppView, area: Rect, i: int)
    requires
        forall|k: int| 0 <= k < a.container_view.len() ==> #[trigger] a.container_view[k]
            < a.containers.len(),
        0 <= i,
    ensures
        screen::container_table(a, area) matches ItemView::Table { rows, .. } && rows.len()
            == a.container_view.len() && (i < a.container_view.len() ==> {
            let c = a.containers[a.container_view[i] as int];
            let r = rows[i];
            &&& r.len() == 6
            &&& r[0] == c.runtime && r[2] == c.state && r[3] == c.status && r[4] == c.image && r[5]
                == c.name
            &&& text::starts_with(c.id, r[1])
            &&& r[1].len() == if c.id.len() < 12 {
                c.id.len() as int
            } else {
                12
            }
        }),
        screen::lock_table(a, area) matches ItemView::Table { rows, .. } && rows.len()
            == a.locks.len() && (i < a.locks.len() ==> {
            let k = a.locks[i];
            let r = rows[i];
            &&& r.len() == 5
            &&& r[0] == k.id && r[1] == k.kind && r[2] == k.mode && r[4] == k.owner
            &&& r[3] == if k.pid is Some {
                num::dec(k.pid->0 as int)
            } else {
                "-"@
            }
        }),
{
    containers_of_the_view(a, a.container_view.len() as int);
    if i < a.container_view.len() {
        let c = a.containers[a.container_view[i] as int];
        let short = screen::first_chars(c.id, 12);
        text::holding_is_standing_between(c.id, short);
        assert(c.id =~= short + c.id.subrange(short.len() as int, c.id.len() as int));
    }
}

// ---------- lines around the tables ----------

/// The mode line asks about the pid to kill, and else says whether keys type,
/// scroll the details or move in the table.
pub proof fn mode_line_tells_the_mode(a: AppView)
    ensures
        ({
            let t = line::line_text(screen::mode(a));
            &&& a.confirm_kill matches Some(p) ==> printed::says(
                t,
                "kill pid "@ + num::dec(p as int) + "?"@,
            )
            &&& a.confirm_kill is None && a.search_mode ==> printed::says(t, "Mode: Search"@)
            &&& a.confirm_kill is None && !a.search_mode && a.focus == Focus::Details
                ==> printed::says(t, "Mode: Detail"@)
            &&& a.confirm_kill is None && !a.search_mode && a.focus == Focus::Table
                ==> printed::says(t, "Mode: Navigation"@)
        }),
{
    let l = screen::mode(a);
    let t = line::line_text(l);
    reveal_with_fuel(line::span_texts, 2);
    reveal_strlit("");
    assert(t =~= l[0].text);
    reveal(printed::says);
    if a.confirm_kill is Some {
        let n = num::dec(a.confirm_kill->0 as int);
        reveal_strlit("  Mode: Confirm — kill pid ");
        reveal_strlit("  Mode: Confirm — ");
        reveal_strlit("kill pid ");
        reveal_strlit("? (y/n)");
        reveal_strlit("?");
        reveal_strlit(" (y/n)");
        assert("  Mode: Confirm — kill pid "@ =~= "  Mode: Confirm — "@ + "kill pid "@);
        assert("? (y/n)"@ =~= "?"@ + " (y/n)"@);
        assert(t =~= "  Mode: Confirm — "@ + ("kill pid "@ + n + "?"@) + " (y/n)"@);
    } else if a.search_mode {
        reveal_strlit("  Mode: Search (Enter: apply — Esc: cancel)");
        reveal_strlit("  ");
        reveal_strlit("Mode: Search");
        reveal_strlit(" (Enter: apply — Esc: cancel)");
        assert(t =~= "  "@ + "Mode: Search"@ + " (Enter: apply — Esc: cancel)"@);
    } else if a.focus == Focus::Details {
        reveal_strlit("  Mode: Detail (Tab to go back)");
        reveal_strlit("  ");
        reveal_strlit("Mode: Detail");
        reveal_strlit(" (Tab to go back)");
        assert(t =~= "  "@ + "Mode: Detail"@ + " (Tab to go back)"@);
    } else {
        reveal_strlit("  Mode: Navigation (Press / to search)");
        reveal_strlit("  ");
        reveal_strlit("Mode: Navigation");
        reveal_strlit(" (Press / to search)");
        assert(t =~= "  "@ + "Mode: Navigation"@ + " (Press / to search)"@);
    }
}

/// The search box shows what is searched for on the tab, and a hint where
/// nothing is.
pub proof fn search_box_shows_the_filter(a: AppView)
    ensures
        ({
            let l = screen::search_box(a);
            let s = match a.tab {
                Tab::Ports => a.port_search,
                Tab::Containers => a.container_search,
                _ => a.search,
            };
            &&& s.len() > 0 || a.search_mode ==> l.len() == 3 && l[1].text == s
            &&& s.len() == 0 && !a.search_mode ==> l.len() == 2
        }),
{
}

/// The tab bar shows the four titles in order; the current one alone stands out
/// in green.
pub proof fn tab_bar_marks_the_current_tab(current: Tab)
    ensures
        ({
            let l = screen::tab_line(current);
            let tabs = seq![Tab::Processes, Tab::Ports, Tab::Containers, Tab::Locks];
            &&& l.len() == 10
            &&& forall|k: int|
                0 <= k < 4 ==> ({
                    let s = l[2 + 2 * k];
                    &&& s.text == " "@ + (#[trigger] tabs[k]).name() + " "@
                    &&& s.style.bg == Some(Color::Green) <==> tabs[k] == current
                })
        }),
{
    let l = screen::tab_line(current);
    let tabs = seq![Tab::Processes, Tab::Ports, Tab::Containers, Tab::Locks];
    assert forall|k: int| 0 <= k < 4 implies ({
        let s = l[2 + 2 * k];
        &&& s.text == " "@ + (#[trigger] tabs[k]).name() + " "@
        &&& s.style.bg == Some(Color::Green) <==> tabs[k] == current
    }) by {
        assert(l[2] == screen::tab_spans(Tab::Processes, current)[0]);
        assert(l[4] == screen::tab_spans(Tab::Ports, current)[0]);
        assert(l[6] == screen::tab_spans(Tab::Containers, current)[0]);
        assert(l[8] == screen::tab_spans(Tab::Locks, current)[0]);
        assert(k == 0 || k == 1 || k == 2 || k == 3);
    }
}

/// The footer counts the rows, and where ports or containers are filtered also
/// what they are out of.
pub proof fn footer_counts_the_rows(a: AppView)
    ensures
        ({
            let t = screen::total_text(a);
            &&& a.tab == Tab::Processes ==> t == num::dec(a.view.len() as int)
            &&& a.tab == Tab::Locks ==> t == num::dec(a.locks.len() as int)
            &&& a.tab == Tab::Ports && a.port_search.len() > 0 ==> t == num::dec(
                a.socket_view.len() as int,
            ) + "/"@ + num::dec(a.sockets.len() as int)
            &&& a.tab == Tab::Ports && a.port_search.len() == 0 ==> t == num::dec(
                a.sockets.len() as int,
            )
            &&& a.tab == Tab::Containers && a.container_search.len() > 0 ==> t == num::dec(
                a.container_view.len() as int,
            ) + "/"@ + num::dec(a.containers.len() as int)
            &&& a.tab == Tab::Containers && a.container_search.len() == 0 ==> t == num::dec(
                a.containers.len() as int,
            )
        }),
        exists|x: Seq<char>| screen::browse_hints(a) == #[trigger] ("Total: "@ + screen::total_text(
            a,
        ) + x),
{
    let x = if a.tab == Tab::Processes || a.tab == Tab::Ports {
        " | Enter: Detail | /: Search | p/n/u/c/m/t: Sort | j-k/g-G: Move | h-l: Tab | x: Kill | r: Refresh | q: Quit"@
    } else {
        " | q: Quit"@
    };
    assert(screen::browse_hints(a) == "Total: "@ + screen::total_text(a) + x);
}

// ---------- sizes ----------

/// The inside of a pane lies one cell in from each side.
pub proof fn inside_is_one_cell_in(area: Rect)
    requires
        area.width >= 2,
        area.height >= 2,
        area.x + area.width <= u16::MAX,
        area.y + area.height <= u16::MAX,
    ensures
        ({
            let r = screen::inside(area);
            &&& r.x == area.x + 1
            &&& r.y == area.y + 1
            &&& r.x + r.width == area.x + area.width - 1
            &&& r.y + r.height == area.y + area.height - 1
        }),
{
}

/// A wrapped line takes as many rows as its width needs and no more; an empty
/// one takes one row.
pub proof fn wrapped_line_takes_the_rows_it_needs(width: int, pane: int)
    requires
        0 <= width <= u16::MAX,
        1 <= pane,
    ensures
        ({
            let n = line::rows_for(width, pane);
            &&& width == 0 ==> n == 1
            &&& width > 0 ==> n * pane >= width && (n - 1) * pane < width
        }),
{
    if width > 0 {
        let x = width + pane - 1;
        let q = x / pane;
        vstd::arithmetic::div_mod::lemma_fundamental_div_mod(x, pane);
        vstd::arithmetic::div_mod::lemma_mod_bound(x, pane);
        assert(pane * q <= x < pane * q + pane);
        assert(pane * q == q * pane) by (nonlinear_arith);
        assert((q - 1) * pane == q * pane - pane) by (nonlinear_arith);
        assert(q <= width) by (nonlinear_arith)
            requires
                pane * q <= width + pane - 1,
                pane >= 1,
                width >= 1,
        ;
        assert(q >= 1) by (nonlinear_arith)
            requires
                pane * q + pane > width + pane - 1,
                width >= 1,
                pane >= 1,
        ;
    }
}

/// The rows of some lines add up, as far as they count.
pub proof fn rows_add_up(widths: Seq<int>, w: int, pane: int)
    ensures
        line::rows_among(widths, pane, 0) == 0,
        ({
            let before = line::rows_among(widths, pane, widths.len() as int);
            let after = line::rows_among(widths.push(w), pane, widths.len() as int + 1);
            let sum = before + line::rows_for(w, pane);
            after == if sum < 65535 {
                sum
            } else {
                65535
            }
        }),
{
    rows_prefix(widths, w, pane, widths.len() as int);
}

proof fn rows_prefix(widths: Seq<int>, w: int, pane: int, n: int)
    requires
        n <= widths.len(),
    ensures
        line::rows_among(widths.push(w), pane, n) == line::rows_among(widths, pane, n),
    decreases n,
{
    if n > 0 {
        rows_prefix(widths, w, pane, n - 1);
    }
}

/// A pane shows an arrow up where it is scrolled, down where there is more, and
/// both where both hold.
pub proof fn arrows_tell_of_more(scroll: u16, count: u16, height: u16)
    requires
        scroll + height <= u16::MAX,
    ensures
        ({
            let t = line::indicator(scroll as int, count as int, height as int);
            &&& scroll > 0 && scroll + height < count ==> t == " ↕"@
            &&& scroll > 0 && scroll + height >= count ==> t == " ↑"@
            &&& scroll == 0 && height < count ==> t == " ↓"@
            &&& scroll == 0 && height >= count ==> t == ""@
        }),
{
}

/// The heading of a port page counts its sockets that are established.
pub proof fn established_sockets_are_counted(v: Seq<SocketView>, n: int)
    requires
        0 <= n <= v.len(),
    ensures
        screen::established(v, n) == v.subrange(0, n).filter(
            |s: SocketView| s.state == "ESTABLISHED"@,
        ).len(),
    decreases n,
{
    reveal(Seq::filter);
    let f = |s: SocketView| s.state == "ESTABLISHED"@;
    if n > 0 {
        established_sockets_are_counted(v, n - 1);
        assert(v.subrange(0, n).drop_last() =~= v.subrange(0, n - 1));
        assert(v.subrange(0, n).last() == v[n - 1]);
    } else {
        assert(v.subrange(0, 0).filter(f) =~= seq![]);
    }
}

// ---------- pages ----------

/// The pages show what they are about: the process with its environment, the
/// port with its connections and owner, the container with its processes; the
/// focused pane has the border that stands out.
pub proof fn pages_show_their_subject(
    a: AppView,
    area: Rect,
    v: Seq<Rect>,
    cols: Seq<Rect>,
    c: Clock,
)
    ensures
        screen::detail_page(a, area, v, cols)[3] matches ItemView::Text { lines, .. } && lines
            == a.detail_lines,
        screen::detail_page(a, area, v, cols)[5] matches ItemView::Text { lines, .. } && lines
            == panes::env_pane(a.detail_report, a.os),
        screen::detail_page(a, area, v, cols)[2] matches ItemView::Frame { style, .. } && (style.fg
            == Some(Color::Accent) <==> a.detail_pane),
        screen::detail_page(a, area, v, cols)[4] matches ItemView::Frame { style, .. } && (style.fg
            == Some(Color::Accent) <==> !a.detail_pane),
        screen::port_page(a, area, v, c)[3] matches ItemView::Text { lines, .. } && lines
            == panes::connections(
            a.port_detail_sockets,
            panes::names_by_pid(a.procs, a.procs.len() as int),
        ),
        screen::port_page(a, area, v, c)[2] matches ItemView::Frame { style, .. } && (style.fg
            == Some(Color::Accent) <==> a.port_pane_conn),
        screen::port_page(a, area, v, c)[5] matches ItemView::Text { lines, .. } && (
        a.port_detail_report matches Some(r) ==> lines == panes::details(r, c)),
        screen::container_page(a, area, v, cols)[3] matches ItemView::Text { lines, .. } && lines
            == panes::container_pane(a.container_detail),
        screen::container_page(a, area, v, cols)[5] matches ItemView::Text { lines, .. } && lines
            == panes::members_pane(a.container_procs, a.os),
        screen::container_page(a, area, v, cols)[2] matches ItemView::Frame { style, .. } && (
        style.fg == Some(Color::Accent) <==> a.cd_pane_info),
{
}

/// The details panel shows the details of a process that was found, with its
/// restarts below; else it tells why there are none.
pub proof fn panel_shows_the_report(
    a: AppView,
    pid: Pid,
    r: TargetReportView,
    c: Clock,
    e: Seq<char>,
)
    ensures
        r.found ==> a.panel_lines(pid, Some(r), c) == panes::details(r, c) + panes::history_lines(
            a.hist,
            pid,
        ),
        !r.found && r.error == Some(e) ==> shown(a.panel_lines(pid, Some(r), c), e),
        a.panel_lines(pid, None, c).len() == 1,
{
    if !r.found && r.error == Some(e) {
        shown_at(a.panel_lines(pid, Some(r), c), 0, 0, e);
    }
}

/// The browsing page has, from the top, the tab bar, the mode line, the search
/// box, the content of the tab and the footer, each in its part.
pub proof fn browsing_page_is_in_order(
    a: AppView,
    area: Rect,
    v: Seq<Rect>,
    cols: Seq<Rect>,
    cpu: Seq<Seq<char>>,
    mem: Seq<Seq<char>>,
    c: Clock,
)
    ensures
        ({
            let p = screen::browse_page(a, area, v, cols, cpu, mem, c);
            let n = p.len() as int;
            let one = |i: int, part: Rect, l: Seq<SpanView>|
                (p[i] matches ItemView::Text { area: at, lines, .. } && at == part && lines
                    == seq![l]);
            &&& one(1, v[0], screen::tab_line(a.tab))
            &&& one(2, v[2], screen::mode(a))
            &&& one(3, v[4], screen::search_box(a))
            &&& one(n - 1, v[8], screen::footer(screen::browse_hints(a), a.status))
            &&& p.subrange(4, n - 2) == screen::tab_content(a, v[6], cols, cpu, mem, c)
        }),
{
    let p = screen::browse_page(a, area, v, cols, cpu, mem, c);
    let t = screen::tab_content(a, v[6], cols, cpu, mem, c);
    assert(p.subrange(4, p.len() - 2) =~= t);
}

/// The content of a tab is its table; the Processes tab has the details beside
/// it.
pub proof fn tabs_show_their_tables(
    a: AppView,
    area: Rect,
    cols: Seq<Rect>,
    cpu: Seq<Seq<char>>,
    mem: Seq<Seq<char>>,
    c: Clock,
)
    ensures
        ({
            let t = screen::tab_content(a, area, cols, cpu, mem, c);
            &&& a.tab == Tab::Processes ==> t[0] == screen::process_table(a, cols[0], cpu, mem, c)
                && (t.last() matches ItemView::Text { lines, scroll, .. } && lines
                == a.detail_lines && scroll == a.detail_scroll)
            &&& a.tab == Tab::Ports ==> t == seq![screen::socket_table(a, area)]
            &&& a.tab == Tab::Containers && a.containers.len() > 0 && !a.containers_loading ==> t
                == seq![screen::container_table(a, area)]
            &&& a.tab == Tab::Locks && a.os == Os::Linux ==> t == seq![screen::lock_table(a, area)]
            &&& a.tab == Tab::Locks && a.os != Os::Linux ==> (t[0] is Text)
        }),
{
}

/// The footer has the status behind the hints, where there is one.
pub proof fn footer_has_the_status(hints: Seq<char>, status: Seq<char>)
    ensures
        screen::footer(hints, status).len() == 1,
        screen::footer(hints, seq![])[0].text == hints,
        status.len() > 0 ==> text::starts_with(screen::footer(hints, status)[0].text, hints)
            && text::ends_with(screen::footer(hints, status)[0].text, status),
{
    if status.len() > 0 {
        let t = hints + "  ·  "@ + status;
        assert(t =~= hints + ("  ·  "@ + status));
        text::holding_is_standing_between(t, hints);
        text::holding_is_standing_between(t, status);
    }
}

/// A share of a pane leaves out the gap and both borders.
pub proof fn pane_has_its_share(total: u16, pct: u16)
    requires
        total >= 1,
        pct <= 100,
    ensures
        ({
            let w = line::pane_width(total as int, pct as int);
            let share = (total - 1) * pct;
            &&& share >= 200 ==> 100 * (w + 2) <= share < 100 * (w + 3)
            &&& share < 200 ==> w == 0
        }),
{
    let share = (total - 1) * pct;
    assert(0 <= share <= 65534 * 100) by (nonlinear_arith)
        requires
            share == (total - 1) * pct,
            1 <= total <= 65535,
            0 <= pct <= 100,
    ;
}

} // verus!
