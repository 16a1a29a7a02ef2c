//! What the panes of the interface say.

use vstd::prelude::*;
use vstd::string::*;

use std::collections::HashMap;

use crate::history::{History, HistoryView};
use crate::model::{Container, Pid, Process, Socket, Source, TargetReport};
use crate::model::{ContainerView, ProcessView, SocketView, SourceView, TargetReportView};
use crate::num::{dec_i32, dec_u64, dec_usize, padded_right, repeated};
use crate::platform::Os;
use crate::render::{fmt_started_line, order_of_pids, text_or, Clock};
use crate::text::{joined, same_str, text};
use crate::tui::line::{only, Color, Line, SpanView, Style};
use crate::{model, num, platform, render, text};
use crate::tui::line;

verus! {

broadcast use vstd::std_specs::hash::group_hash_axioms;

/// A key with its value.
pub open spec fn pair(k: Seq<char>, w: int, v: Seq<char>) -> Seq<SpanView> {
    seq![
        line::span(num::pad_right(k, w), line::ink(Color::Mid)),
        line::span(v, line::plain()),
    ]
}

fn pair_of(k: &str, w: usize, v: String) -> (r: Line)
    ensures
        r@ == pair(k@, w as int, v@),
{
    let ghost vv = v@;
    let mut l = Line::new();
    l.push(padded_right(k, w), Style::fg(Color::Mid));
    l.push(v, Style::none());
    assert(l@ =~= pair(k@, w as int, vv));
    l
}

/// A note in a muted color.
pub open spec fn note(s: Seq<char>) -> Seq<SpanView> {
    line::line(s, line::ink(Color::Mid))
}

/// A note in a muted color.
pub fn note_of(s: &str) -> (r: Line)
    ensures
        r@ == note(s@),
{
    Line::of(text(s), Style::fg(Color::Mid))
}

// ---------- process details ----------

/// Who a process is.
pub open spec fn identity_lines(m: ProcessView, c: Clock) -> Seq<Seq<SpanView>> {
    let a = seq![pair("PID"@, 8, num::dec(m.pid as int))];
    let b = match m.user {
        Some(u) => a.push(pair("User"@, 8, u)),
        None => a,
    };
    let d = match m.started {
        Some(t) => b.push(pair("Started"@, 8, render::started_text(c, t))),
        None => b,
    };
    let e = match m.cwd {
        Some(w) => d.push(pair("Cwd"@, 8, w)),
        None => d,
    };
    let f = match m.exe {
        Some(x) => e.push(pair("Exe"@, 8, x)),
        None => e,
    };
    if m.cmdline.len() == 0 {
        f
    } else {
        f.push(pair("Cmd"@, 8, m.command()))
    }
}

fn identity_lines_of(m: &Process, c: Clock) -> (v: Vec<Line>)
    ensures
        text::views(v@) == identity_lines(m@, c),
{
    broadcast use crate::text::group_views;

    let mut v = only(pair_of("PID", 8, dec_i32(m.pid)));
    if let Some(u) = &m.user {
        v.push(pair_of("User", 8, u.clone()));
    }
    if let Some(t) = m.started {
        v.push(pair_of("Started", 8, fmt_started_line(c, t)));
    }
    if let Some(w) = &m.cwd {
        v.push(pair_of("Cwd", 8, w.clone()));
    }
    if let Some(x) = &m.exe {
        v.push(pair_of("Exe", 8, x.clone()));
    }
    if m.cmdline.len() > 0 {
        v.push(pair_of("Cmd", 8, m.command_line()));
    }
    v
}

/// The line that names a source.
pub open spec fn source_line(s: SourceView) -> Seq<SpanView> {
    let g = line::ink(Color::Green);
    let a = seq![line::span("Started by: "@, g), line::span(s.kind, g)];
    match s.label {
        Some(l) => a.push(line::span(" · "@ + l, g)),
        None => a,
    }
}

/// What started a process.
pub open spec fn source_lines(s: Option<SourceView>) -> Seq<Seq<SpanView>> {
    match s {
        Some(x) => {
            let a = seq![Seq::<SpanView>::empty(), source_line(x)];
            match x.detail {
                Some(d) => a.push(note("  "@ + d)),
                None => a,
            }
        },
        None => seq![],
    }
}

/// A link of the ancestry tree.
pub open spec fn ancestor_line(a: ProcessView, depth: nat, last: bool) -> Seq<SpanView> {
    let joint = line::span(
        num::repeat("  "@, depth) + if depth == 0 {
            ""@
        } else {
            "└─ "@
        },
        line::ink(Color::Mid),
    );
    let name = a.name + " ("@ + num::dec(a.pid as int) + ")"@;
    if last {
        seq![
            joint,
            line::span(name, line::bold_ink(Color::Green)),
            line::span(" ←"@, line::ink(Color::Green)),
        ]
    } else {
        seq![joint, line::span(name, line::plain())]
    }
}

/// The first `n` links of the ancestry tree.
pub open spec fn ancestor_lines(chain: Seq<ProcessView>, n: int) -> Seq<Seq<SpanView>>
    decreases n,
{
    if n <= 0 {
        seq![]
    } else {
        ancestor_lines(chain, n - 1).push(
            ancestor_line(chain[n - 1], (n - 1) as nat, n == chain.len()),
        )
    }
}

/// The ancestry tree, where there is an ancestor.
pub open spec fn tree_lines(chain: Seq<ProcessView>) -> Seq<Seq<SpanView>> {
    if chain.len() > 1 {
        seq![Seq::<SpanView>::empty(), line::line("Ancestry Tree:"@, line::strong())]
            + ancestor_lines(chain, chain.len() as int)
    } else {
        seq![]
    }
}

/// A warning.
pub open spec fn alert(s: Seq<char>) -> Seq<SpanView> {
    line::line("⚠ "@ + s, line::ink(Color::Yellow))
}

/// The risk, when there is one.
pub open spec fn risk_lines(r: TargetReportView) -> Seq<Seq<SpanView>> {
    match r.risk {
        Some(k) => if k.score > 0 {
            seq![
                Seq::<SpanView>::empty(),
                alert(
                    "risk "@ + num::dec(k.score as int) + "/10: "@ + text::join(k.signals, "; "@),
                ),
            ]
        } else {
            seq![]
        },
        None => seq![],
    }
}

/// The warnings, when there are any.
pub open spec fn warning_lines(ws: Seq<Seq<char>>) -> Seq<Seq<SpanView>> {
    if ws.len() == 0 {
        seq![]
    } else {
        seq![Seq::<SpanView>::empty()] + Seq::new(ws.len(), |i: int| alert(ws[i]))
    }
}

/// Identity, source, ancestry tree, risk and warnings.
pub open spec fn details(r: TargetReportView, c: Clock) -> Seq<Seq<SpanView>> {
    identity_lines(r.matches[0], c) + source_lines(r.source) + tree_lines(r.ancestry) + risk_lines(
        r,
    ) + warning_lines(r.warnings)
}

fn push_source(v: &mut Vec<Line>, s: &Option<Source>)
    ensures
        text::views(final(v)@) == text::views(old(v)@) + source_lines(model::opt_source(*s)),
{
    broadcast use crate::text::group_views;

    let ghost start = text::views(v@);
    if let Some(x) = s {
        v.push(Line::new());
        let mut l = Line::new();
        l.push(text("Started by: "), Style::fg(Color::Green));
        l.push(x.kind.clone(), Style::fg(Color::Green));
        if let Some(label) = &x.label {
            let mut t = text(" · ");
            t.append(label.as_str());
            l.push(t, Style::fg(Color::Green));
        }
        assert(l@ =~= source_line(x@));
        v.push(l);
        if let Some(d) = &x.detail {
            let mut t = text("  ");
            t.append(d.as_str());
            v.push(note_of(t.as_str()));
        }
    }
    assert(text::views(v@) =~= start + source_lines(model::opt_source(*s)));
}

fn ancestor_line_of(a: &Process, depth: usize, last: bool) -> (l: Line)
    ensures
        l@ == ancestor_line(a@, depth as nat, last),
{
    let mut joint = repeated("  ", depth);
    joint.append(
        if depth == 0 {
            ""
        } else {
            "└─ "
        },
    );
    let mut name = a.name.clone();
    name.append(" (");
    name.append(dec_i32(a.pid).as_str());
    name.append(")");
    let mut l = Line::new();
    l.push(joint, Style::fg(Color::Mid));
    if last {
        l.push(name, Style::bold_fg(Color::Green));
        l.push(text(" ←"), Style::fg(Color::Green));
    } else {
        l.push(name, Style::none());
    }
    assert(l@ =~= ancestor_line(a@, depth as nat, last));
    l
}

fn push_tree(v: &mut Vec<Line>, chain: &Vec<Process>)
    ensures
        text::views(final(v)@) == text::views(old(v)@) + tree_lines(text::views(chain@)),
{
    broadcast use crate::text::group_views;

    let ghost start = text::views(v@);
    let ghost all = text::views(chain@);
    if chain.len() > 1 {
        v.push(Line::new());
        v.push(Line::of(text("Ancestry Tree:"), Style::bold()));
        let ghost head = text::views(v@);
        assert(head =~= start + seq![
            Seq::<SpanView>::empty(),
            line::line("Ancestry Tree:"@, line::strong()),
        ]);
        let mut i: usize = 0;
        assert(head + ancestor_lines(all, 0) =~= head);
        while i < chain.len()
            invariant
                all == text::views(chain@),
                i <= chain@.len(),
                text::views(v@) == head + ancestor_lines(all, i as int),
            decreases chain@.len() - i,
        {
            assert(all[i as int] == chain@[i as int]@);
            let ghost before = ancestor_lines(all, i as int);
            let last = i == chain.len() - 1;
            let l = ancestor_line_of(&chain[i], i, last);
            let ghost lv = l@;
            v.push(l);
            assert((head + before).push(lv) =~= head + before.push(lv));
            i += 1;
        }
        assert(text::views(v@) =~= start + tree_lines(all));
    } else {
        assert(text::views(v@) =~= start + tree_lines(all));
    }
}

fn alert_of(s: &str) -> (l: Line)
    ensures
        l@ == alert(s@),
{
    let mut t = text("⚠ ");
    t.append(s);
    Line::of(t, Style::fg(Color::Yellow))
}

fn push_risk(v: &mut Vec<Line>, r: &TargetReport)
    ensures
        text::views(final(v)@) == text::views(old(v)@) + risk_lines(r@),
{
    broadcast use crate::text::group_views;

    let ghost start = text::views(v@);
    if let Some(k) = &r.risk {
        if k.score > 0 {
            let mut t = text("risk ");
            t.append(dec_u64(k.score as u64).as_str());
            t.append("/10: ");
            t.append(joined(&k.signals, "; ").as_str());
            v.push(Line::new());
            v.push(alert_of(t.as_str()));
        }
    }
    assert(text::views(v@) =~= start + risk_lines(r@));
}

fn push_warnings(v: &mut Vec<Line>, ws: &Vec<String>)
    ensures
        text::views(final(v)@) == text::views(old(v)@) + warning_lines(text::texts(ws@)),
{
    broadcast use crate::text::group_views;

    let ghost start = text::views(v@);
    let ghost all = text::texts(ws@);
    if ws.len() == 0 {
        assert(text::views(v@) =~= start + warning_lines(all));
        return;
    }
    v.push(Line::new());
    let mut i: usize = 0;
    assert(text::views(v@) =~= start + warning_lines(all).take(1));
    while i < ws.len()
        invariant
            all == text::texts(ws@),
            ws@.len() > 0,
            i <= ws@.len(),
            text::views(v@) == start + warning_lines(all).take(i + 1),
        decreases ws@.len() - i,
    {
        assert(all[i as int] == ws@[i as int]@);
        let ghost before = warning_lines(all).take(i + 1);
        let l = alert_of(ws[i].as_str());
        let ghost lv = l@;
        v.push(l);
        assert(warning_lines(all)[i + 1] == lv);
        assert((start + before).push(lv) =~= start + warning_lines(all).take(i + 2));
        i += 1;
    }
    assert(warning_lines(all).take(i + 1) =~= warning_lines(all));
}

/// Details panel: identity + ancestry tree + warnings.
pub fn detail_lines(r: &TargetReport, c: Clock) -> (v: Vec<Line>)
    requires
        r.matches@.len() > 0,
    ensures
        text::views(v@) == details(r@, c),
{
    assert(r@.matches[0] == r.matches@[0]@);
    let mut v = identity_lines_of(&r.matches[0], c);
    push_source(&mut v, &r.source);
    push_tree(&mut v, &r.ancestry);
    push_risk(&mut v, r);
    push_warnings(&mut v, &r.warnings);
    v
}

/// The crash-loop signal: recent restarts and all of them, from two on.
pub open spec fn restart_lines(recent: Option<u32>, total: u32) -> Seq<Seq<SpanView>> {
    let a = match recent {
        Some(n) => if n >= 2 {
            seq![alert("restarted "@ + num::dec(n as int) + "× in the last 5 min"@)]
        } else {
            seq![]
        },
        None => seq![],
    };
    if total >= 2 {
        a.push(note("total "@ + num::dec(total as int) + " restarts since TUI start"@))
    } else {
        a
    }
}

/// The crash-loop signal for `pid`.
pub open spec fn history_lines(h: HistoryView, pid: Pid) -> Seq<Seq<SpanView>> {
    match h.restarts_of(pid) {
        Some(x) => restart_lines(
            if x.events.len() > 0 {
                Some(x.events.len() as u32)
            } else {
                None
            },
            x.total,
        ),
        None => restart_lines(None, 0),
    }
}

/// Crash-loop signal appended to detail panes from the sampling history.
pub fn push_history_lines(v: &mut Vec<Line>, hist: &History, pid: Pid)
    ensures
        text::views(final(v)@) == text::views(old(v)@) + history_lines(hist@, pid),
{
    broadcast use crate::text::group_views;

    let ghost start = text::views(v@);
    if let Some(n) = hist.recent_restarts(pid) {
        if n >= 2 {
            let mut t = text("restarted ");
            t.append(dec_u64(n as u64).as_str());
            t.append("× in the last 5 min");
            v.push(alert_of(t.as_str()));
        }
    }
    let total = hist.total_restarts(pid);
    if total >= 2 {
        let mut t = text("total ");
        t.append(dec_u64(total as u64).as_str());
        t.append(" restarts since TUI start");
        v.push(note_of(t.as_str()));
    }
    assert(text::views(v@) =~= start + history_lines(hist@, pid));
}

/// How many open files the detail page shows.
pub const MAX_SHOWN_FILES: usize = 30;

/// The first `n` open files.
pub open spec fn file_lines(fs: Seq<Seq<char>>, n: int) -> Seq<Seq<SpanView>>
    decreases n,
{
    if n <= 0 {
        seq![]
    } else {
        file_lines(fs, n - 1).push(line::raw_line("  "@ + fs[n - 1]))
    }
}

/// The open files of a process.
pub open spec fn open_file_lines(fs: Seq<Seq<char>>) -> Seq<Seq<SpanView>> {
    if fs.len() == 0 {
        seq![
            Seq::<SpanView>::empty(),
            note("open files: none readable (belongs to another user?)"@),
        ]
    } else {
        let head = seq![
            Seq::<SpanView>::empty(),
            line::line("Open Files ("@ + num::dec(fs.len() as int) + "):"@, line::strong()),
        ];
        if fs.len() > MAX_SHOWN_FILES {
            (head + file_lines(fs, MAX_SHOWN_FILES as int)).push(
                line::raw_line("  … "@ + num::dec(fs.len() - MAX_SHOWN_FILES) + " more"@),
            )
        } else {
            head + file_lines(fs, fs.len() as int)
        }
    }
}

/// Adds the open files of a process.
pub fn push_open_files(v: &mut Vec<Line>, files: &Vec<String>)
    ensures
        text::views(final(v)@) == text::views(old(v)@) + open_file_lines(text::texts(files@)),
{
    broadcast use crate::text::group_views;

    let ghost start = text::views(v@);
    let ghost all = text::texts(files@);
    let n: usize = files.len();
    v.push(Line::new());
    if n == 0 {
        v.push(note_of("open files: none readable (belongs to another user?)"));
        assert(text::views(v@) =~= start + open_file_lines(all));
        return;
    }
    let mut t = text("Open Files (");
    t.append(dec_usize(n).as_str());
    t.append("):");
    v.push(Line::of(t, Style::bold()));
    let ghost head = text::views(v@);
    let top: usize = if n > MAX_SHOWN_FILES {
        MAX_SHOWN_FILES
    } else {
        n
    };
    let mut i: usize = 0;
    assert(head + file_lines(all, 0) =~= head);
    while i < top
        invariant
            all == text::texts(files@),
            i <= top <= files@.len(),
            text::views(v@) == head + file_lines(all, i as int),
        decreases top - i,
    {
        assert(all[i as int] == files@[i as int]@);
        let mut s = text("  ");
        s.append(files[i].as_str());
        let ghost before = file_lines(all, i as int);
        let l = Line::raw(s.as_str());
        let ghost lv = l@;
        v.push(l);
        assert((head + before).push(lv) =~= head + before.push(lv));
        i += 1;
    }
    if n > MAX_SHOWN_FILES {
        let mut s = text("  … ");
        s.append(dec_usize(n - MAX_SHOWN_FILES).as_str());
        s.append(" more");
        v.push(Line::raw(s.as_str()));
    }
    assert(text::views(v@) =~= start + open_file_lines(all));
}

// ---------- the environment ----------

/// Why there is no environment to show.
pub open spec fn env_note(os: Os) -> Seq<char> {
    match os {
        Os::MacOs =>
            "no environment readable for this process (same-user only; SIP restricts the rest)"@,
        Os::Windows => "environment is not collected on Windows"@,
        Os::Linux => "no environment readable (belongs to another user?)"@,
    }
}

/// The environment of the process of a report.
pub open spec fn env_pane(r: Option<TargetReportView>, os: Os) -> Seq<Seq<SpanView>> {
    match r {
        Some(x) => match x.matches[0].env {
            Some(env) => if env.len() == 0 {
                seq![note("(empty environment)"@)]
            } else {
                Seq::new(
                    env.len(),
                    |i: int|
                        seq![
                            line::span(env[i].0, line::ink(Color::Accent)),
                            line::span("="@, line::plain()),
                            line::span(env[i].1, line::plain()),
                        ],
                )
            },
            None => seq![note(env_note(os))],
        },
        None => seq![note("no process"@)],
    }
}

fn env_note_of(os: Os) -> (r: &'static str)
    ensures
        r@ == env_note(os),
{
    match os {
        Os::MacOs =>
            "no environment readable for this process (same-user only; SIP restricts the rest)",
        Os::Windows => "environment is not collected on Windows",
        Os::Linux => "no environment readable (belongs to another user?)",
    }
}

/// What an optional report shows.
pub open spec fn opt_report(r: Option<TargetReport>) -> Option<TargetReportView> {
    match r {
        Some(x) => Some(x@),
        None => None,
    }
}

/// Lines for the environment pane.
pub fn env_lines(r: &Option<TargetReport>, os: Os) -> (v: Vec<Line>)
    requires
        r matches Some(x) ==> x.matches@.len() > 0,
    ensures
        text::views(v@) == env_pane(opt_report(*r), os),
{
    let ghost want = env_pane(opt_report(*r), os);
    match r {
        Some(x) => {
            assert(x@.matches[0] == x.matches@[0]@);
            match &x.matches[0].env {
                Some(env) => {
                    let ghost all = model::vars(env@);
                    if env.len() == 0 {
                        return only(note_of("(empty environment)"));
                    }
                    let mut v: Vec<Line> = Vec::new();
                    let mut i: usize = 0;
                    while i < env.len()
                        invariant
                            all == model::vars(env@),
                            x@.matches[0].env == Some(all),
                            want == env_pane(Some(x@), os),
                            env@.len() > 0,
                            i <= env@.len(),
                            v@.len() == i,
                            forall|j: int| 0 <= j < i ==> (#[trigger] v@[j])@ == want[j],
                        decreases env@.len() - i,
                    {
                        assert(all[i as int] == (env@[i as int].0@, env@[i as int].1@));
                        let mut l = Line::new();
                        l.push(env[i].0.clone(), Style::fg(Color::Accent));
                        l.push(text("="), Style::none());
                        l.push(env[i].1.clone(), Style::none());
                        assert(l@ =~= want[i as int]);
                        v.push(l);
                        i += 1;
                    }
                    assert(text::views(v@) =~= want);
                    v
                },
                None => only(note_of(env_note_of(os))),
            }
        },
        None => only(note_of("no process")),
    }
}

// ---------- connections ----------

/// The names of processes by pid; of several with one pid the last.
pub open spec fn names_by_pid(procs: Seq<ProcessView>, n: int) -> Map<Pid, Seq<char>>
    decreases n,
{
    if n <= 0 {
        Map::empty()
    } else {
        names_by_pid(procs, n - 1).insert(procs[n - 1].pid, procs[n - 1].name)
    }
}

/// What names by pid show.
pub open spec fn names_view(m: Map<Pid, String>) -> Map<Pid, Seq<char>> {
    m.map_values(|s: String| s@)
}

/// The names of processes by pid.
pub fn names_of(procs: &Vec<Process>) -> (r: HashMap<Pid, String>)
    ensures
        names_view(r@) == names_by_pid(text::views(procs@), procs@.len() as int),
{
    let ghost all = text::views(procs@);
    let mut m: HashMap<Pid, String> = HashMap::new();
    let mut i: usize = 0;
    assert(names_view(m@) =~= Map::<Pid, Seq<char>>::empty());
    while i < procs.len()
        invariant
            all == text::views(procs@),
            i <= procs@.len(),
            names_view(m@) == names_by_pid(all, i as int),
        decreases procs@.len() - i,
    {
        assert(all[i as int] == procs@[i as int]@);
        let ghost was = m@;
        let name = procs[i].name.clone();
        let ghost nv = name@;
        let pid: Pid = procs[i].pid;
        m.insert(pid, name);
        assert(names_view(m@) =~= names_view(was).insert(pid, nv));
        i += 1;
    }
    m
}

/// The text for an optional pid.
pub open spec fn pid_text(pid: Option<Pid>) -> Seq<char> {
    match pid {
        Some(p) => num::dec(p as int),
        None => "-"@,
    }
}

/// See the spec function `pid_text`.
pub fn pid_text_of(pid: Option<Pid>) -> (r: String)
    ensures
        r@ == pid_text(pid),
{
    match pid {
        Some(p) => dec_i32(p),
        None => text("-"),
    }
}

/// The name of the owner of a socket.
pub open spec fn owner_name(names: Map<Pid, Seq<char>>, pid: Option<Pid>) -> Seq<char> {
    match pid {
        Some(p) => if names.contains_key(p) {
            names[p]
        } else {
            "-"@
        },
        None => "-"@,
    }
}

/// See the spec function `owner_name`.
pub fn owner_name_of(names: &HashMap<Pid, String>, pid: Option<Pid>) -> (r: String)
    ensures
        r@ == owner_name(names_view(names@), pid),
{
    match pid {
        Some(p) => match names.get(&p) {
            Some(n) => n.clone(),
            None => text("-"),
        },
        None => text("-"),
    }
}

/// Whether a state is that of a listening socket.
pub open spec fn listens(state: Seq<char>) -> bool {
    state == "LISTEN"@ || state == "LISTENING"@
}

/// See the spec function `listens`.
pub fn listens_of(state: &str) -> (r: bool)
    ensures
        r == listens(state@),
{
    same_str(state, "LISTEN") || same_str(state, "LISTENING")
}

/// The color of a state.
pub open spec fn state_style(state: Seq<char>) -> Style {
    if listens(state) {
        line::ink(Color::Accent)
    } else if state == "ESTABLISHED"@ {
        line::ink(Color::Green)
    } else {
        line::ink(Color::Mid)
    }
}

/// The peer of a socket.
pub open spec fn peer_text(s: SocketView) -> Seq<char> {
    match (s.peer_addr, s.peer_port) {
        (Some(a), Some(p)) => a + ":"@ + num::dec(p as int),
        _ => "-"@,
    }
}

/// The local end of a socket.
pub open spec fn local_text(s: SocketView) -> Seq<char> {
    s.local_addr + ":"@ + num::dec(s.local_port as int)
}

/// See the spec function `local_text`.
pub fn local_text_of(s: &Socket) -> (r: String)
    ensures
        r@ == local_text(s@),
{
    let mut t = s.local_addr.clone();
    t.append(":");
    t.append(dec_u64(s.local_port as u64).as_str());
    t
}

/// The heading of the connections.
pub open spec fn connection_heading() -> Seq<SpanView> {
    line::line(
        num::pad_right("Proto"@, 5) + "  "@ + num::pad_right("Local"@, 34) + "  "@
            + num::pad_right("Peer / Request"@, 30) + "  "@ + num::pad_right("State"@, 13) + "  "@
            + num::pad_right("PID"@, 7) + "  "@ + "Process"@,
        line::bold_ink(Color::Accent),
    )
}

/// A connection.
pub open spec fn connection(s: SocketView, names: Map<Pid, Seq<char>>) -> Seq<SpanView> {
    seq![
        line::span(num::pad_right(s.proto, 5) + "  "@, line::plain()),
        line::span(num::pad_right(local_text(s), 34) + "  "@, line::plain()),
        line::span(num::pad_right(peer_text(s), 30) + "  "@, line::plain()),
        line::span(num::pad_right(s.state, 13) + "  "@, state_style(s.state)),
        line::span(num::pad_right(pid_text(s.pid), 7) + "  "@, line::plain()),
        line::span(owner_name(names, s.pid), line::plain()),
    ]
}

/// The connections of a port.
pub open spec fn connections(
    sockets: Seq<SocketView>,
    names: Map<Pid, Seq<char>>,
) -> Seq<Seq<SpanView>> {
    seq![connection_heading()] + Seq::new(sockets.len(), |i: int| connection(sockets[i], names))
}

fn cell(s: &str, w: usize) -> (r: String)
    ensures
        r@ == num::pad_right(s@, w as int) + "  "@,
{
    let mut t = padded_right(s, w);
    t.append("  ");
    t
}

fn connection_heading_of() -> (r: Line)
    ensures
        r@ == connection_heading(),
{
    let mut t = padded_right("Proto", 5);
    t.append("  ");
    t.append(padded_right("Local", 34).as_str());
    t.append("  ");
    t.append(padded_right("Peer / Request", 30).as_str());
    t.append("  ");
    t.append(padded_right("State", 13).as_str());
    t.append("  ");
    t.append(padded_right("PID", 7).as_str());
    t.append("  ");
    t.append("Process");
    Line::of(t, Style::bold_fg(Color::Accent))
}

fn connection_of(s: &Socket, names: &HashMap<Pid, String>) -> (l: Line)
    ensures
        l@ == connection(s@, names_view(names@)),
{
    let peer: String = match (&s.peer_addr, s.peer_port) {
        (Some(a), Some(p)) => {
            let mut t = a.clone();
            t.append(":");
            t.append(dec_u64(p as u64).as_str());
            t
        },
        _ => text("-"),
    };
    let style: Style = if listens_of(s.state.as_str()) {
        Style::fg(Color::Accent)
    } else if same_str(s.state.as_str(), "ESTABLISHED") {
        Style::fg(Color::Green)
    } else {
        Style::fg(Color::Mid)
    };
    let mut l = Line::new();
    l.push(cell(s.proto.as_str(), 5), Style::none());
    l.push(cell(local_text_of(s).as_str(), 34), Style::none());
    l.push(cell(peer.as_str(), 30), Style::none());
    l.push(cell(s.state.as_str(), 13), style);
    l.push(cell(pid_text_of(s.pid).as_str(), 7), Style::none());
    l.push(owner_name_of(names, s.pid), Style::none());
    assert(l@ =~= connection(s@, names_view(names@)));
    l
}

/// Lines for the connections pane of the port detail page.
pub fn port_connection_lines(sockets: &Vec<Socket>, procs: &Vec<Process>) -> (v: Vec<Line>)
    ensures
        text::views(v@) == connections(
            text::views(sockets@),
            names_by_pid(text::views(procs@), procs@.len() as int),
        ),
{
    let names = names_of(procs);
    let ghost all = text::views(sockets@);
    let ghost want = connections(all, names_view(names@));
    let mut v = only(connection_heading_of());
    let mut i: usize = 0;
    assert(text::views(v@)[0] == v@[0]@);
    while i < sockets.len()
        invariant
            all == text::views(sockets@),
            want == connections(all, names_view(names@)),
            i <= sockets@.len(),
            v@.len() == i + 1,
            forall|j: int| 0 <= j <= i ==> (#[trigger] v@[j])@ == want[j],
        decreases sockets@.len() - i,
    {
        assert(all[i as int] == sockets@[i as int]@);
        v.push(connection_of(&sockets[i], &names));
        i += 1;
    }
    assert(text::views(v@) =~= want);
    v
}

/// What the owner pane says without an owner.
pub open spec fn no_owner() -> Seq<Seq<SpanView>> {
    seq![
        note(
            "no owning process visible (kernel-held socket, or permission needed — try sudo)"@,
        ),
    ]
}

/// The owner pane of the port detail page.
pub open spec fn owner_pane(r: Option<TargetReportView>, c: Clock) -> Seq<Seq<SpanView>> {
    match r {
        Some(x) => details(x, c),
        None => no_owner(),
    }
}

/// Lines for the owner pane of the port detail page.
pub fn owner_lines(r: &Option<TargetReport>, c: Clock) -> (v: Vec<Line>)
    requires
        r matches Some(x) ==> x.matches@.len() > 0,
    ensures
        text::views(v@) == owner_pane(opt_report(*r), c),
{
    match r {
        Some(x) => detail_lines(x, c),
        None => only(
            note_of(
                "no owning process visible (kernel-held socket, or permission needed — try sudo)",
            ),
        ),
    }
}

// ---------- containers ----------

/// The attributes of a container.
pub open spec fn container_pane(c: Option<ContainerView>) -> Seq<Seq<SpanView>> {
    match c {
        Some(x) => seq![
            pair("Name"@, 9, x.name),
            pair("Runtime"@, 9, x.runtime),
            pair("ID"@, 9, x.id),
            pair("Image"@, 9, x.image),
            pair("State"@, 9, x.state),
            pair("Status"@, 9, x.status),
            pair(
                "Ports"@,
                9,
                if x.ports.len() == 0 {
                    "-"@
                } else {
                    x.ports
                },
            ),
        ],
        None => seq![note("no container"@)],
    }
}

/// Lines for the container info pane.
pub fn container_info_lines(c: &Option<Container>) -> (v: Vec<Line>)
    ensures
        text::views(v@) == container_pane(platform::opt_container(*c)),
{
    match c {
        Some(x) => {
            let ports: String = if x.ports.as_str().is_empty() {
                text("-")
            } else {
                x.ports.clone()
            };
            let mut v: Vec<Line> = Vec::new();
            v.push(pair_of("Name", 9, x.name.clone()));
            v.push(pair_of("Runtime", 9, x.runtime.clone()));
            v.push(pair_of("ID", 9, x.id.clone()));
            v.push(pair_of("Image", 9, x.image.clone()));
            v.push(pair_of("State", 9, x.state.clone()));
            v.push(pair_of("Status", 9, x.status.clone()));
            v.push(pair_of("Ports", 9, ports));
            assert(text::views(v@) =~= container_pane(Some(x@)));
            v
        },
        None => only(note_of("no container")),
    }
}

/// Why no process of a container is shown.
pub open spec fn no_member_note(os: Os) -> Seq<char> {
    if os == Os::Linux {
        "no processes matched this container's cgroup"@
    } else {
        "process mapping needs Linux (cgroups); on this platform containers run in a VM"@
    }
}

/// A row of the in-container processes.
pub open spec fn member_row(pid: Seq<char>, user: Seq<char>, name: Seq<char>) -> Seq<char> {
    num::pad_right(pid, 8) + " "@ + num::pad_right(user, 24) + " "@ + name
}

/// The processes in a container, by pid.
pub open spec fn members_pane(procs: Seq<ProcessView>, os: Os) -> Seq<Seq<SpanView>> {
    if procs.len() == 0 {
        seq![note(no_member_note(os))]
    } else {
        let sorted = render::by_pid(procs);
        seq![
            line::line(
                member_row("PID"@, "User"@, "Name"@),
                line::bold_ink(Color::Accent),
            ),
        ] + Seq::new(
            sorted.len(),
            |i: int|
                line::raw_line(
                    member_row(
                        num::dec(sorted[i].pid as int),
                        render::or(sorted[i].user, "-"@),
                        sorted[i].name,
                    ),
                ),
        )
    }
}

fn member_row_of(pid: &str, user: &str, name: &str) -> (r: String)
    ensures
        r@ == member_row(pid@, user@, name@),
{
    let mut t = padded_right(pid, 8);
    t.append(" ");
    t.append(padded_right(user, 24).as_str());
    t.append(" ");
    t.append(name);
    t
}

/// Lines for the in-container process pane.
pub fn container_proc_lines(procs: &Vec<Process>, os: Os) -> (v: Vec<Line>)
    ensures
        text::views(v@) == members_pane(text::views(procs@), os),
{
    let ghost all = text::views(procs@);
    if procs.len() == 0 {
        let n: &str = if os == Os::Linux {
            "no processes matched this container's cgroup"
        } else {
            "process mapping needs Linux (cgroups); on this platform containers run in a VM"
        };
        return only(note_of(n));
    }
    let ghost sorted = render::by_pid(all);
    let ghost want = members_pane(all, os);
    let mut pids: Vec<Pid> = Vec::new();
    let mut i: usize = 0;
    while i < procs.len()
        invariant
            all == text::views(procs@),
            i <= procs@.len(),
            pids@.len() == i,
            forall|j: int| 0 <= j < i ==> pids@[j] == all[j].pid,
        decreases procs@.len() - i,
    {
        pids.push(procs[i].pid);
        i += 1;
    }
    assert(pids@ =~= render::pids_of(all));
    let o = order_of_pids(&pids);
    let mut v = only(
        Line::of(member_row_of("PID", "User", "Name"), Style::bold_fg(Color::Accent)),
    );
    assert(text::views(v@)[0] == v@[0]@);
    let mut j: usize = 0;
    while j < o.len()
        invariant
            all == text::views(procs@),
            all.len() > 0,
            o@ == render::pid_order(render::pids_of(all)),
            sorted == render::by_pid(all),
            want == members_pane(all, os),
            forall|x: int| 0 <= x < o@.len() ==> #[trigger] o@[x] < procs@.len(),
            j <= o@.len(),
            v@.len() == j + 1,
            forall|x: int| 0 <= x <= j ==> (#[trigger] v@[x])@ == want[x],
        decreases o@.len() - j,
    {
        assert(o@[j as int] < procs@.len());
        let q = &procs[o[j]];
        assert(sorted[j as int] == q@);
        let row = member_row_of(
            dec_i32(q.pid).as_str(),
            text_or(&q.user, "-").as_str(),
            q.name.as_str(),
        );
        v.push(Line::raw(row.as_str()));
        j += 1;
    }
    assert(text::views(v@) =~= want);
    v
}

} // verus!
