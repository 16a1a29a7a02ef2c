//! The texts of reports.

use vstd::prelude::*;
use vstd::string::*;

use crate::model::{Pid, Process, Socket, Source, TargetReport};
use crate::model::{ChildView, ProcessView, SocketView, SourceView, TargetReportView};
use crate::num::{dec_i32, dec_u64, dec_usize, padded_right, repeated};
use crate::render::{fmt_started_line, text_or, Clock, Painter};
use crate::text::{chars_of, cut_end, joined, string_of, text, Class};
use crate::util::{fmt_age, since};
use crate::{num, render, text};

verus! {

/// The heading of a report.
pub open spec fn heading(r: TargetReportView, on: bool) -> Seq<char> {
    render::bold(on, "== "@ + r.target.words() + " =="@)
}

/// See the spec function `heading`.
pub fn header(r: &TargetReport, p: &Painter) -> (s: String)
    ensures
        s@ == heading(r@, p@),
{
    let mut t = text("== ");
    t.append(r.target.describe().as_str());
    t.append(" ==");
    p.bold(t.as_str())
}

// ---------- one line per match ----------

/// The links of a chain, each with its pid.
pub open spec fn links(chain: Seq<ProcessView>) -> Seq<Seq<char>> {
    Seq::new(
        chain.len(),
        |i: int| chain[i].name + "("@ + num::dec(chain[i].pid as int) + ")"@,
    )
}

fn links_of(chain: &Vec<Process>) -> (r: Vec<String>)
    ensures
        text::texts(r@) == links(text::views(chain@)),
{
    let ghost all = text::views(chain@);
    let mut v: Vec<String> = Vec::new();
    let mut i: usize = 0;
    while i < chain.len()
        invariant
            all == text::views(chain@),
            i <= chain@.len(),
            v@.len() == i,
            forall|j: int| 0 <= j < i ==> (#[trigger] v@[j])@ == links(all)[j],
        decreases chain@.len() - i,
    {
        assert(all[i as int] == chain@[i as int]@);
        let mut s = chain[i].name.clone();
        s.append("(");
        s.append(dec_i32(chain[i].pid).as_str());
        s.append(")");
        v.push(s);
        i += 1;
    }
    assert(text::texts(v@) =~= links(all));
    v
}

/// The source in a few characters.
pub open spec fn source_mark(s: SourceView) -> Seq<char> {
    match s.label {
        Some(l) => "source: "@ + s.kind + "/"@ + l,
        None => "source: "@ + s.kind,
    }
}

fn source_mark_of(s: &Source) -> (r: String)
    ensures
        r@ == source_mark(s@),
{
    let mut t = text("source: ");
    t.append(s.kind.as_str());
    if let Some(l) = &s.label {
        t.append("/");
        t.append(l.as_str());
    }
    t
}

/// What the short form says of a match.
pub open spec fn short_parts(r: TargetReportView, m: ProcessView, c: Clock) -> Seq<Seq<char>> {
    let a = seq![m.name + " (pid "@ + num::dec(m.pid as int) + ")"@];
    let b = match m.user {
        Some(u) => a.push("user "@ + u),
        None => a,
    };
    let d = b.push("chain: "@ + text::join(links(r.ancestry), " ← "@));
    let e = match r.source {
        Some(s) => d.push(source_mark(s)),
        None => d,
    };
    match m.started {
        Some(t) => e.push("started "@ + render::age(c, t) + " ago"@),
        None => e,
    }
}

fn short_parts_of(r: &TargetReport, m: &Process, c: Clock) -> (v: Vec<String>)
    ensures
        text::texts(v@) == short_parts(r@, m@, c),
{
    broadcast use crate::text::group_views;

    let mut v: Vec<String> = Vec::new();
    let mut s = m.name.clone();
    s.append(" (pid ");
    s.append(dec_i32(m.pid).as_str());
    s.append(")");
    v.push(s);
    assert(text::texts(v@) =~= seq![m@.name + " (pid "@ + num::dec(m.pid as int) + ")"@]);
    if let Some(u) = &m.user {
        let mut s = text("user ");
        s.append(u.as_str());
        v.push(s);
    }
    let mut s = text("chain: ");
    s.append(joined(&links_of(&r.ancestry), " ← ").as_str());
    v.push(s);
    if let Some(x) = &r.source {
        v.push(source_mark_of(x));
    }
    if let Some(t) = m.started {
        let mut s = text("started ");
        s.append(fmt_age(since(c.now, t)).as_str());
        s.append(" ago");
        v.push(s);
    }
    v
}

/// How many warnings there are, when there are any.
pub open spec fn warning_count(r: TargetReportView, on: bool) -> Seq<char> {
    if r.warnings.len() == 0 {
        ""@
    } else {
        " "@ + render::yellow(on, "⚠ "@ + num::dec(r.warnings.len() as int) + " warning(s)"@)
    }
}

/// The lines of the short form, one per match.
pub open spec fn short_lines(r: TargetReportView, on: bool, c: Clock) -> Seq<Seq<char>> {
    Seq::new(
        r.matches.len(),
        |i: int|
            heading(r, on) + " "@ + text::join(short_parts(r, r.matches[i], c), " · "@)
                + warning_count(r, on),
    )
}

/// The short form of a report.
pub open spec fn short_text(r: TargetReportView, on: bool, c: Clock) -> Seq<char> {
    if !r.found {
        heading(r, on) + " "@ + render::yellow(on, render::or(r.error, "no match"@))
    } else {
        text::join(short_lines(r, on, c), "\n"@)
    }
}

/// Single-line output per match (for scripts).
pub fn render_short(r: &TargetReport, p: &Painter, c: Clock) -> (s: String)
    ensures
        s@ == short_text(r@, p@, c),
{
    if !r.found {
        let mut t = header(r, p);
        t.append(" ");
        t.append(p.yellow(text_or(&r.error, "no match").as_str()).as_str());
        return t;
    }
    let warn: String = if r.warnings.len() == 0 {
        text("")
    } else {
        let mut w = text("⚠ ");
        w.append(dec_usize(r.warnings.len()).as_str());
        w.append(" warning(s)");
        let mut t = text(" ");
        t.append(p.yellow(w.as_str()).as_str());
        t
    };
    assert(warn@ == warning_count(r@, p@));
    let ghost rv = r@;
    let mut lines: Vec<String> = Vec::new();
    let mut i: usize = 0;
    while i < r.matches.len()
        invariant
            rv == r@,
            warn@ == warning_count(rv, p@),
            i <= r.matches@.len(),
            lines@.len() == i,
            forall|j: int| 0 <= j < i ==> (#[trigger] lines@[j])@ == short_lines(rv, p@, c)[j],
        decreases r.matches@.len() - i,
    {
        assert(rv.matches[i as int] == r.matches@[i as int]@);
        let mut t = header(r, p);
        t.append(" ");
        t.append(joined(&short_parts_of(r, &r.matches[i], c), " · ").as_str());
        t.append(warn.as_str());
        lines.push(t);
        i += 1;
    }
    assert(text::texts(lines@) =~= short_lines(rv, p@, c));
    joined(&lines, "\n")
}

// ---------- the standard form ----------

/// What a report without a match says.
pub open spec fn nothing_text(r: TargetReportView, on: bool) -> Seq<char> {
    heading(r, on) + "\n"@ + "  "@ + render::yellow(on, render::or(r.error, "no process matched"@))
        + "\n"@
}

fn nothing_of(r: &TargetReport, p: &Painter) -> (s: String)
    ensures
        s@ == nothing_text(r@, p@),
{
    let mut t = header(r, p);
    t.append("\n");
    t.append("  ");
    t.append(p.yellow(text_or(&r.error, "no process matched").as_str()).as_str());
    t.append("\n");
    t
}

/// Name, pid and user.
pub open spec fn title(m: ProcessView) -> Seq<char> {
    let t = m.name + " — pid "@ + num::dec(m.pid as int);
    match m.user {
        Some(u) => t + " (user "@ + u + ")"@,
        None => t,
    }
}

fn title_of(m: &Process) -> (r: String)
    ensures
        r@ == title(m@),
{
    let mut t = m.name.clone();
    t.append(" — pid ");
    t.append(dec_i32(m.pid).as_str());
    if let Some(u) = &m.user {
        t.append(" (user ");
        t.append(u.as_str());
        t.append(")");
    }
    t
}

/// A line for what is known, nothing for what is not.
pub open spec fn known_line(before: Seq<char>, what: Option<Seq<char>>) -> Seq<char> {
    match what {
        Some(t) => before + t + "\n"@,
        None => ""@,
    }
}

fn known_line_of(before: &str, what: &Option<String>) -> (r: String)
    ensures
        r@ == known_line(before@, text::opt(*what)),
{
    match what {
        Some(t) => {
            let mut s = text(before);
            s.append(t.as_str());
            s.append("\n");
            s
        },
        None => text(""),
    }
}

/// The executable, marked when it is gone.
pub open spec fn exe_line(m: ProcessView, on: bool) -> Seq<char> {
    match m.exe {
        Some(e) => if m.exe_deleted {
            "  exe "@ + e + render::yellow(on, "  [deleted from disk]"@) + "\n"@
        } else {
            "  exe "@ + e + "\n"@
        },
        None => ""@,
    }
}

fn exe_line_of(m: &Process, p: &Painter) -> (r: String)
    ensures
        r@ == exe_line(m@, p@),
{
    match &m.exe {
        Some(e) => {
            let mut s = text("  exe ");
            s.append(e.as_str());
            if m.exe_deleted {
                s.append(p.yellow("  [deleted from disk]").as_str());
            }
            s.append("\n");
            s
        },
        None => text(""),
    }
}

/// When a process started.
pub open spec fn started_line(m: ProcessView, c: Clock) -> Seq<char> {
    match m.started {
        Some(t) => "  started "@ + render::started_text(c, t) + "\n"@,
        None => ""@,
    }
}

fn started_line_of(m: &Process, c: Clock) -> (r: String)
    ensures
        r@ == started_line(m@, c),
{
    match m.started {
        Some(t) => {
            let mut s = text("  started ");
            s.append(fmt_started_line(c, t).as_str());
            s.append("\n");
            s
        },
        None => text(""),
    }
}

/// The command line, when there is one.
pub open spec fn cmd_line(m: ProcessView) -> Seq<char> {
    if m.cmdline.len() == 0 {
        ""@
    } else {
        "  cmd "@ + m.command() + "\n"@
    }
}

fn cmd_line_of(m: &Process) -> (r: String)
    ensures
        r@ == cmd_line(m@),
{
    if m.cmdline.len() == 0 {
        text("")
    } else {
        let mut s = text("  cmd ");
        s.append(m.command_line().as_str());
        s.append("\n");
        s
    }
}

/// How many variables were collected.
pub open spec fn env_line(m: ProcessView) -> Seq<char> {
    match m.env {
        Some(e) => "  env "@ + num::dec(e.len() as int)
            + " variables (use --json for values)"@ + "\n"@,
        None => ""@,
    }
}

fn env_line_of(m: &Process) -> (r: String)
    ensures
        r@ == env_line(m@),
{
    match &m.env {
        Some(e) => {
            let mut s = text("  env ");
            s.append(dec_usize(e.len()).as_str());
            s.append(" variables (use --json for values)");
            s.append("\n");
            s
        },
        None => text(""),
    }
}

/// The source in one line behind `before`.
pub open spec fn source_line(before: Seq<char>, s: SourceView) -> Seq<char> {
    let t = before + s.kind + " "@ + render::or(s.label, ""@);
    text::trim_end(
        match s.detail {
            Some(d) => t + " — "@ + d,
            None => t,
        },
        Class::White,
    )
}

fn source_line_of(before: &str, s: &Source) -> (r: String)
    ensures
        r@ == source_line(before@, s@),
{
    let mut t = text(before);
    t.append(s.kind.as_str());
    t.append(" ");
    t.append(text_or(&s.label, "").as_str());
    if let Some(d) = &s.detail {
        t.append(" — ");
        t.append(d.as_str());
    }
    let c = chars_of(t.as_str());
    string_of(cut_end(c.as_slice(), Class::White))
}

/// What started the process.
pub open spec fn source_part(r: TargetReportView, on: bool) -> Seq<char> {
    match r.source {
        Some(s) => "\n"@ + "  "@ + render::green(on, "started by:"@) + "\n"@ + source_line(
            "    "@,
            s,
        ) + "\n"@,
        None => ""@,
    }
}

fn source_part_of(r: &TargetReport, p: &Painter) -> (t: String)
    ensures
        t@ == source_part(r@, p@),
{
    match &r.source {
        Some(s) => {
            let mut t = text("\n");
            t.append("  ");
            t.append(p.green("started by:").as_str());
            t.append("\n");
            t.append(source_line_of("    ", s).as_str());
            t.append("\n");
            t
        },
        None => text(""),
    }
}

/// What joins a link of a chain to the one above it, `step` per level.
pub open spec fn chain_joint(step: Seq<char>, depth: int) -> Seq<char> {
    if depth == 0 {
        ""@
    } else {
        num::repeat(step, (depth - 1) as nat) + "└─ "@
    }
}

fn chain_joint_of(step: &str, depth: usize) -> (r: String)
    ensures
        r@ == chain_joint(step@, depth as int),
{
    if depth == 0 {
        text("")
    } else {
        let mut s = repeated(step, depth - 1);
        s.append("└─ ");
        s
    }
}

/// How wide a name stands in the chain: the columns behind it stay in line
/// while the joints leave room.
pub open spec fn name_width(depth: int) -> int {
    if depth < 6 {
        18 - 3 * depth
    } else {
        0
    }
}

fn name_width_of(depth: usize) -> (r: usize)
    ensures
        r == name_width(depth as int),
{
    if depth < 6 {
        18 - 3 * depth
    } else {
        0
    }
}

/// A link of the chain.
pub open spec fn chain_line(a: ProcessView, depth: int, last: bool, on: bool) -> Seq<char> {
    let user = render::or(a.user, ""@);
    "    "@ + render::dim(on, chain_joint("   "@, depth)) + render::bold(
        on,
        num::pad_right(a.name, name_width(depth)),
    ) + " "@ + render::dim(on, "pid "@ + num::pad_right(num::dec(a.pid as int), 7)) + if last {
        user + render::green(on, "  ← this"@)
    } else {
        render::dim(on, user)
    } + "\n"@
}

fn chain_line_of(a: &Process, depth: usize, last: bool, p: &Painter) -> (r: String)
    ensures
        r@ == chain_line(a@, depth as int, last, p@),
{
    let mut s = text("    ");
    s.append(p.dim(chain_joint_of("   ", depth).as_str()).as_str());
    s.append(p.bold(padded_right(a.name.as_str(), name_width_of(depth)).as_str()).as_str());
    s.append(" ");
    let mut pid = text("pid ");
    pid.append(padded_right(dec_i32(a.pid).as_str(), 7).as_str());
    s.append(p.dim(pid.as_str()).as_str());
    let user = text_or(&a.user, "");
    let tail: String = if last {
        let mut t = user.clone();
        t.append(p.green("  ← this").as_str());
        t
    } else {
        p.dim(user.as_str())
    };
    s.append(tail.as_str());
    s.append("\n");
    s
}

/// The first `n` links of the chain.
pub open spec fn chain_lines(chain: Seq<ProcessView>, on: bool, n: int) -> Seq<char>
    decreases n,
{
    if n <= 0 {
        ""@
    } else {
        chain_lines(chain, on, n - 1) + chain_line(chain[n - 1], n - 1, n == chain.len(), on)
    }
}

/// The chain, where it says more than the match itself.
pub open spec fn chain_part(r: TargetReportView, on: bool) -> Seq<char> {
    if r.ancestry.len() > 1 || r.matches.len() != r.ancestry.len() {
        "\n"@ + "  "@ + render::dim(on, "chain (root → this):"@) + "\n"@ + chain_lines(
            r.ancestry,
            on,
            r.ancestry.len() as int,
        )
    } else {
        ""@
    }
}

fn chain_lines_of(chain: &Vec<Process>, p: &Painter) -> (s: String)
    ensures
        s@ == chain_lines(text::views(chain@), p@, chain@.len() as int),
{
    let ghost all = text::views(chain@);
    let mut s = text("");
    let mut i: usize = 0;
    while i < chain.len()
        invariant
            all == text::views(chain@),
            i <= chain@.len(),
            s@ == chain_lines(all, p@, i as int),
        decreases chain@.len() - i,
    {
        assert(all[i as int] == chain@[i as int]@);
        let last = i == chain.len() - 1;
        s.append(chain_line_of(&chain[i], i, last, p).as_str());
        i += 1;
    }
    s
}

fn chain_part_of(r: &TargetReport, p: &Painter) -> (t: String)
    ensures
        t@ == chain_part(r@, p@),
{
    if r.ancestry.len() > 1 || r.matches.len() != r.ancestry.len() {
        let mut t = text("\n");
        t.append("  ");
        t.append(p.dim("chain (root → this):").as_str());
        t.append("\n");
        t.append(chain_lines_of(&r.ancestry, p).as_str());
        t
    } else {
        text("")
    }
}

/// A socket in one line.
pub open spec fn socket_line(s: SocketView) -> Seq<char> {
    let local = "    "@ + num::pad_right(s.proto, 5) + " "@ + s.local_addr + ":"@ + num::dec(
        s.local_port as int,
    );
    let both = match (s.peer_addr, s.peer_port) {
        (Some(a), Some(p)) => local + " → "@ + a + ":"@ + num::dec(p as int),
        _ => local,
    };
    both + " "@ + s.state + "\n"@
}

fn socket_line_of(s: &Socket) -> (r: String)
    ensures
        r@ == socket_line(s@),
{
    let mut t = text("    ");
    t.append(padded_right(s.proto.as_str(), 5).as_str());
    t.append(" ");
    t.append(s.local_addr.as_str());
    t.append(":");
    t.append(dec_u64(s.local_port as u64).as_str());
    match (&s.peer_addr, s.peer_port) {
        (Some(a), Some(p)) => {
            t.append(" → ");
            t.append(a.as_str());
            t.append(":");
            t.append(dec_u64(p as u64).as_str());
        },
        _ => {},
    }
    t.append(" ");
    t.append(s.state.as_str());
    t.append("\n");
    t
}

/// The first `n` sockets.
pub open spec fn socket_lines(v: Seq<SocketView>, n: int) -> Seq<char>
    decreases n,
{
    if n <= 0 {
        ""@
    } else {
        socket_lines(v, n - 1) + socket_line(v[n - 1])
    }
}

/// The sockets, when there are any.
pub open spec fn sockets_part(r: TargetReportView, on: bool) -> Seq<char> {
    if r.sockets.len() == 0 {
        ""@
    } else {
        "\n"@ + "  "@ + render::dim(on, "sockets:"@) + "\n"@ + socket_lines(
            r.sockets,
            r.sockets.len() as int,
        )
    }
}

fn sockets_part_of(r: &TargetReport, p: &Painter) -> (t: String)
    ensures
        t@ == sockets_part(r@, p@),
{
    let ghost all = r@.sockets;
    if r.sockets.len() == 0 {
        return text("");
    }
    let mut lines = text("");
    let mut i: usize = 0;
    while i < r.sockets.len()
        invariant
            all == text::views(r.sockets@),
            i <= r.sockets@.len(),
            lines@ == socket_lines(all, i as int),
        decreases r.sockets@.len() - i,
    {
        assert(all[i as int] == r.sockets@[i as int]@);
        lines.append(socket_line_of(&r.sockets[i]).as_str());
        i += 1;
    }
    let mut t = text("\n");
    t.append("  ");
    t.append(p.dim("sockets:").as_str());
    t.append("\n");
    t.append(lines.as_str());
    t
}

/// The first `n` children.
pub open spec fn child_lines(v: Seq<ChildView>, n: int) -> Seq<char>
    decreases n,
{
    if n <= 0 {
        ""@
    } else {
        child_lines(v, n - 1) + "    pid "@ + num::pad_right(num::dec(v[n - 1].pid as int), 7)
            + " "@ + v[n - 1].name + "\n"@
    }
}

/// The children, when there are any.
pub open spec fn children_part(r: TargetReportView, on: bool) -> Seq<char> {
    if r.children.len() == 0 {
        ""@
    } else {
        "\n"@ + "  "@ + render::dim(on, "children"@) + " ("@ + num::dec(r.children.len() as int)
            + "):"@ + "\n"@ + child_lines(r.children, r.children.len() as int)
    }
}

fn children_part_of(r: &TargetReport, p: &Painter) -> (t: String)
    ensures
        t@ == children_part(r@, p@),
{
    let ghost all = r@.children;
    if r.children.len() == 0 {
        return text("");
    }
    let mut lines = text("");
    let mut i: usize = 0;
    while i < r.children.len()
        invariant
            all == text::views(r.children@),
            i <= r.children@.len(),
            lines@ == child_lines(all, i as int),
        decreases r.children@.len() - i,
    {
        assert(all[i as int] == r.children@[i as int]@);
        lines.append("    pid ");
        lines.append(padded_right(dec_i32(r.children[i].pid).as_str(), 7).as_str());
        lines.append(" ");
        lines.append(r.children[i].name.as_str());
        lines.append("\n");
        i += 1;
    }
    let mut t = text("\n");
    t.append("  ");
    t.append(p.dim("children").as_str());
    t.append(" (");
    t.append(dec_usize(r.children.len()).as_str());
    t.append("):");
    t.append("\n");
    t.append(lines.as_str());
    t
}

/// All about one match.
pub open spec fn match_text(
    r: TargetReportView,
    m: ProcessView,
    on: bool,
    c: Clock,
) -> Seq<char> {
    render::bold(on, title(m)) + "\n"@ + started_line(m, c) + known_line("  cwd "@, m.cwd)
        + exe_line(m, on) + cmd_line(m) + env_line(m) + source_part(r, on) + chain_part(r, on)
        + sockets_part(r, on) + children_part(r, on)
}

fn match_text_of(r: &TargetReport, m: &Process, p: &Painter, c: Clock) -> (t: String)
    ensures
        t@ == match_text(r@, m@, p@, c),
{
    let mut t = p.bold(title_of(m).as_str());
    t.append("\n");
    t.append(started_line_of(m, c).as_str());
    t.append(known_line_of("  cwd ", &m.cwd).as_str());
    t.append(exe_line_of(m, p).as_str());
    t.append(cmd_line_of(m).as_str());
    t.append(env_line_of(m).as_str());
    t.append(source_part_of(r, p).as_str());
    t.append(chain_part_of(r, p).as_str());
    t.append(sockets_part_of(r, p).as_str());
    t.append(children_part_of(r, p).as_str());
    t
}

/// The first `n` matches, with an empty line between them.
pub open spec fn matches_text(r: TargetReportView, on: bool, c: Clock, n: int) -> Seq<char>
    decreases n,
{
    if n <= 0 {
        ""@
    } else if n == 1 {
        matches_text(r, on, c, 0) + match_text(r, r.matches[0], on, c)
    } else {
        matches_text(r, on, c, n - 1) + "\n"@ + match_text(r, r.matches[n - 1], on, c)
    }
}

/// The risk, when there is one.
pub open spec fn risk_part(r: TargetReportView, on: bool) -> Seq<char> {
    match r.risk {
        Some(k) => if k.score > 0 {
            "  "@ + render::yellow(on, "⚠"@) + " risk "@ + num::dec(k.score as int) + "/10: "@
                + text::join(k.signals, "; "@) + "\n"@
        } else {
            ""@
        },
        None => ""@,
    }
}

fn risk_part_of(r: &TargetReport, p: &Painter) -> (t: String)
    ensures
        t@ == risk_part(r@, p@),
{
    match &r.risk {
        Some(k) => if k.score > 0 {
            let mut t = text("  ");
            t.append(p.yellow("⚠").as_str());
            t.append(" risk ");
            t.append(dec_u64(k.score as u64).as_str());
            t.append("/10: ");
            t.append(joined(&k.signals, "; ").as_str());
            t.append("\n");
            t
        } else {
            text("")
        },
        None => text(""),
    }
}

/// The first `n` warnings, each with its sign.
pub open spec fn warning_lines(ws: Seq<Seq<char>>, on: bool, n: int) -> Seq<char>
    decreases n,
{
    if n <= 0 {
        ""@
    } else {
        warning_lines(ws, on, n - 1) + "  "@ + render::yellow(on, "⚠"@) + " "@ + ws[n - 1]
            + "\n"@
    }
}

fn warning_lines_of(ws: &Vec<String>, p: &Painter) -> (t: String)
    ensures
        t@ == warning_lines(text::texts(ws@), p@, ws@.len() as int),
{
    let ghost all = text::texts(ws@);
    let mut t = text("");
    let mut i: usize = 0;
    while i < ws.len()
        invariant
            all == text::texts(ws@),
            i <= ws@.len(),
            t@ == warning_lines(all, p@, i as int),
        decreases ws@.len() - i,
    {
        assert(all[i as int] == ws@[i as int]@);
        t.append("  ");
        t.append(p.yellow("⚠").as_str());
        t.append(" ");
        t.append(ws[i].as_str());
        t.append("\n");
        i += 1;
    }
    t
}

/// The warnings, when there are any.
pub open spec fn warnings_part(r: TargetReportView, on: bool) -> Seq<char> {
    if r.warnings.len() == 0 {
        ""@
    } else {
        "\n"@ + "  "@ + render::yellow(on, "warnings:"@) + "\n"@ + warning_lines(
            r.warnings,
            on,
            r.warnings.len() as int,
        )
    }
}

fn warnings_part_of(r: &TargetReport, p: &Painter) -> (t: String)
    ensures
        t@ == warnings_part(r@, p@),
{
    if r.warnings.len() == 0 {
        return text("");
    }
    let mut t = text("\n");
    t.append("  ");
    t.append(p.yellow("warnings:").as_str());
    t.append("\n");
    t.append(warning_lines_of(&r.warnings, p).as_str());
    t
}

/// The standard form of a report.
pub open spec fn standard_text(r: TargetReportView, on: bool, c: Clock) -> Seq<char> {
    if !r.found {
        nothing_text(r, on)
    } else {
        text::trim_end(
            heading(r, on) + "\n"@ + matches_text(r, on, c, r.matches.len() as int) + risk_part(
                r,
                on,
            ) + warnings_part(r, on),
            Class::White,
        ) + "\n"@
    }
}

/// The standard form of a report.
pub fn render_standard(r: &TargetReport, p: &Painter, c: Clock) -> (s: String)
    ensures
        s@ == standard_text(r@, p@, c),
{
    if !r.found {
        return nothing_of(r, p);
    }
    let ghost rv = r@;
    let mut body = text("");
    let mut i: usize = 0;
    while i < r.matches.len()
        invariant
            rv == r@,
            i <= r.matches@.len(),
            body@ == matches_text(rv, p@, c, i as int),
        decreases r.matches@.len() - i,
    {
        assert(rv.matches[i as int] == r.matches@[i as int]@);
        if i > 0 {
            body.append("\n");
        }
        body.append(match_text_of(r, &r.matches[i], p, c).as_str());
        i += 1;
    }
    let mut out = header(r, p);
    out.append("\n");
    out.append(body.as_str());
    out.append(risk_part_of(r, p).as_str());
    out.append(warnings_part_of(r, p).as_str());
    let chars = chars_of(out.as_str());
    let mut t = string_of(cut_end(chars.as_slice(), Class::White));
    t.append("\n");
    t
}

// ---------- the tree form ----------

/// Whether a match has this pid.
pub open spec fn is_match(r: TargetReportView, pid: Pid) -> bool {
    exists|i: int| 0 <= i < r.matches.len() && (#[trigger] r.matches[i]).pid == pid
}

fn is_match_of(r: &TargetReport, pid: Pid) -> (b: bool)
    ensures
        b == is_match(r@, pid),
{
    let ghost all = r@.matches;
    let mut i: usize = 0;
    while i < r.matches.len()
        invariant
            all == text::views(r.matches@),
            i <= r.matches@.len(),
            forall|j: int| 0 <= j < i ==> (#[trigger] all[j]).pid != pid,
        decreases r.matches@.len() - i,
    {
        assert(all[i as int] == r.matches@[i as int]@);
        if r.matches[i].pid == pid {
            assert(r@.matches[i as int].pid == pid);
            return true;
        }
        i += 1;
    }
    false
}

/// A link of the tree; matches carry a star.
pub open spec fn twig(r: TargetReportView, i: int, on: bool) -> Seq<char> {
    let a = r.ancestry[i];
    "  "@ + render::dim(on, chain_joint("  "@, i)) + render::bold(on, a.name) + if is_match(
        r,
        a.pid,
    ) {
        render::green(on, " ★"@)
    } else {
        ""@
    } + " (pid "@ + num::dec(a.pid as int) + ", "@ + render::or(a.user, "?"@) + ")"@ + "\n"@
}

/// The first `n` links of the tree.
pub open spec fn twigs(r: TargetReportView, on: bool, n: int) -> Seq<char>
    decreases n,
{
    if n <= 0 {
        ""@
    } else {
        twigs(r, on, n - 1) + twig(r, n - 1, on)
    }
}

/// The first `n` leaves of the tree.
pub open spec fn leaves(r: TargetReportView, on: bool, n: int) -> Seq<char>
    decreases n,
{
    if n <= 0 {
        ""@
    } else {
        leaves(r, on, n - 1) + (num::repeat("  "@, r.ancestry.len()) + "  "@) + render::dim(
            on,
            if n == r.children.len() {
                "└─ "@
            } else {
                "├─ "@
            },
        ) + r.children[n - 1].name + " (pid "@ + num::dec(r.children[n - 1].pid as int) + ")"@
            + "\n"@
    }
}

/// The warnings below a tree.
pub open spec fn tree_warnings(r: TargetReportView, on: bool) -> Seq<char> {
    if r.warnings.len() == 0 {
        ""@
    } else {
        "\n"@ + warning_lines(r.warnings, on, r.warnings.len() as int)
    }
}

/// The tree form of a report.
pub open spec fn tree_text(r: TargetReportView, on: bool) -> Seq<char> {
    if !r.found {
        nothing_text(r, on)
    } else {
        heading(r, on) + "\n"@ + twigs(r, on, r.ancestry.len() as int) + leaves(
            r,
            on,
            r.children.len() as int,
        ) + tree_warnings(r, on)
    }
}

fn twig_of(r: &TargetReport, i: usize, p: &Painter) -> (s: String)
    requires
        i < r.ancestry@.len(),
    ensures
        s@ == twig(r@, i as int, p@),
{
    let a = &r.ancestry[i];
    assert(r@.ancestry[i as int] == a@);
    let mut s = text("  ");
    s.append(p.dim(chain_joint_of("  ", i).as_str()).as_str());
    s.append(p.bold(a.name.as_str()).as_str());
    let star: String = if is_match_of(r, a.pid) {
        p.green(" ★")
    } else {
        text("")
    };
    s.append(star.as_str());
    s.append(" (pid ");
    s.append(dec_i32(a.pid).as_str());
    s.append(", ");
    s.append(text_or(&a.user, "?").as_str());
    s.append(")");
    s.append("\n");
    s
}

fn leaves_of(r: &TargetReport, p: &Painter) -> (s: String)
    ensures
        s@ == leaves(r@, p@, r@.children.len() as int),
{
    let ghost rv = r@;
    let mut indent = repeated("  ", r.ancestry.len());
    indent.append("  ");
    let mut s = text("");
    let mut i: usize = 0;
    assert(rv.children.len() == r.children@.len());
    assert(rv.ancestry.len() == r.ancestry@.len());
    while i < r.children.len()
        invariant
            rv == r@,
            rv.children.len() == r.children@.len(),
            indent@ == num::repeat("  "@, rv.ancestry.len()) + "  "@,
            i <= r.children@.len(),
            s@ == leaves(rv, p@, i as int),
        decreases r.children@.len() - i,
    {
        assert(rv.children[i as int] == r.children@[i as int]@);
        s.append(indent.as_str());
        s.append(
            p.dim(
                if i == r.children.len() - 1 {
                    "└─ "
                } else {
                    "├─ "
                },
            ).as_str(),
        );
        s.append(r.children[i].name.as_str());
        s.append(" (pid ");
        s.append(dec_i32(r.children[i].pid).as_str());
        s.append(")");
        s.append("\n");
        i += 1;
    }
    s
}

/// The ancestry of a report as a tree.
pub fn render_tree(r: &TargetReport, p: &Painter) -> (s: String)
    ensures
        s@ == tree_text(r@, p@),
{
    if !r.found {
        return nothing_of(r, p);
    }
    let ghost rv = r@;
    let mut links = text("");
    let mut i: usize = 0;
    assert(rv.ancestry.len() == r.ancestry@.len());
    while i < r.ancestry.len()
        invariant
            rv == r@,
            i <= r.ancestry@.len(),
            links@ == twigs(rv, p@, i as int),
        decreases r.ancestry@.len() - i,
    {
        links.append(twig_of(r, i, p).as_str());
        i += 1;
    }
    let mut out = header(r, p);
    out.append("\n");
    out.append(links.as_str());
    out.append(leaves_of(r, p).as_str());
    let warnings: String = if r.warnings.len() == 0 {
        text("")
    } else {
        let mut w = text("\n");
        w.append(warning_lines_of(&r.warnings, p).as_str());
        w
    };
    out.append(warnings.as_str());
    out
}

// ---------- the export form ----------

/// How many variables an export shows.
pub const MAX_EXPORT_ENV: usize = 60;

/// How many open files an export shows.
pub const MAX_EXPORT_FILES: usize = 50;

/// A key with its value.
pub open spec fn pair_line(k: Seq<char>, v: Seq<char>) -> Seq<char> {
    num::pad_right(k + ":"@, 10) + v + "\n"@
}

fn pair_line_of(k: &str, v: &str) -> (r: String)
    ensures
        r@ == pair_line(k@, v@),
{
    let mut key = text(k);
    key.append(":");
    let mut t = padded_right(key.as_str(), 10);
    t.append(v);
    t.append("\n");
    t
}

/// A key with its value, nothing when it is not known.
pub open spec fn known_pair(k: Seq<char>, v: Option<Seq<char>>) -> Seq<char> {
    match v {
        Some(t) => pair_line(k, t),
        None => ""@,
    }
}

fn known_pair_of(k: &str, v: &Option<String>) -> (r: String)
    ensures
        r@ == known_pair(k@, text::opt(*v)),
{
    match v {
        Some(t) => pair_line_of(k, t.as_str()),
        None => text(""),
    }
}

/// Who a process is.
pub open spec fn export_identity(m: ProcessView, c: Clock) -> Seq<char> {
    pair_line("pid"@, num::dec(m.pid as int)) + match m.ppid {
        Some(pp) => pair_line("ppid"@, num::dec(pp as int)),
        None => ""@,
    } + known_pair("user"@, m.user) + match m.started {
        Some(t) => pair_line("started"@, render::started_text(c, t)),
        None => ""@,
    } + known_pair("cwd"@, m.cwd) + match m.exe {
        Some(e) => pair_line(
            "exe"@,
            if m.exe_deleted {
                e + "  [deleted from disk]"@
            } else {
                e
            },
        ),
        None => ""@,
    } + if m.cmdline.len() == 0 {
        ""@
    } else {
        pair_line("cmd"@, m.command())
    }
}

fn export_identity_of(m: &Process, c: Clock) -> (r: String)
    ensures
        r@ == export_identity(m@, c),
{
    let mut t = pair_line_of("pid", dec_i32(m.pid).as_str());
    let ppid: String = match m.ppid {
        Some(pp) => pair_line_of("ppid", dec_i32(pp).as_str()),
        None => text(""),
    };
    t.append(ppid.as_str());
    t.append(known_pair_of("user", &m.user).as_str());
    let started: String = match m.started {
        Some(s) => pair_line_of("started", fmt_started_line(c, s).as_str()),
        None => text(""),
    };
    t.append(started.as_str());
    t.append(known_pair_of("cwd", &m.cwd).as_str());
    let exe: String = match &m.exe {
        Some(e) => {
            let mut line = e.clone();
            if m.exe_deleted {
                line.append("  [deleted from disk]");
            }
            pair_line_of("exe", line.as_str())
        },
        None => text(""),
    };
    t.append(exe.as_str());
    let cmd: String = if m.cmdline.len() == 0 {
        text("")
    } else {
        pair_line_of("cmd", m.command_line().as_str())
    };
    t.append(cmd.as_str());
    t
}

/// The first `n` links of an exported chain.
pub open spec fn export_links(chain: Seq<ProcessView>, n: int) -> Seq<char>
    decreases n,
{
    if n <= 0 {
        ""@
    } else {
        export_links(chain, n - 1) + "  "@ + chain_joint("   "@, n - 1) + chain[n - 1].name
            + " (pid "@ + num::dec(chain[n - 1].pid as int) + ")"@ + if n == chain.len() {
            "  ← this"@
        } else {
            ""@
        } + "\n"@
    }
}

fn export_links_of(chain: &Vec<Process>) -> (t: String)
    ensures
        t@ == export_links(text::views(chain@), chain@.len() as int),
{
    let ghost all = text::views(chain@);
    let mut t = text("");
    let mut i: usize = 0;
    while i < chain.len()
        invariant
            all == text::views(chain@),
            i <= chain@.len(),
            t@ == export_links(all, i as int),
        decreases chain@.len() - i,
    {
        assert(all[i as int] == chain@[i as int]@);
        t.append("  ");
        t.append(chain_joint_of("   ", i).as_str());
        t.append(chain[i].name.as_str());
        t.append(" (pid ");
        t.append(dec_i32(chain[i].pid).as_str());
        t.append(")");
        t.append(
            if i == chain.len() - 1 {
                "  ← this"
            } else {
                ""
            },
        );
        t.append("\n");
        i += 1;
    }
    t
}

/// What started a process.
pub open spec fn export_source(r: TargetReportView) -> Seq<char> {
    match r.source {
        Some(s) => pair_line("started by"@, source_line(""@, s)),
        None => ""@,
    }
}

/// The chain down to a process.
pub open spec fn export_chain(r: TargetReportView) -> Seq<char> {
    if r.ancestry.len() > 1 {
        pair_line("chain"@, "root → this"@) + export_links(r.ancestry, r.ancestry.len() as int)
    } else {
        ""@
    }
}

/// Where a process comes from.
pub open spec fn export_origin(r: TargetReportView) -> Seq<char> {
    export_source(r) + export_chain(r)
}

fn export_origin_of(r: &TargetReport) -> (s: String)
    ensures
        s@ == export_origin(r@),
{
    let mut t: String = match &r.source {
        Some(x) => pair_line_of("started by", source_line_of("", x).as_str()),
        None => text(""),
    };
    let chain: String = if r.ancestry.len() > 1 {
        let mut c = pair_line_of("chain", "root → this");
        c.append(export_links_of(&r.ancestry).as_str());
        c
    } else {
        text("")
    };
    t.append(chain.as_str());
    t
}

/// The first `n` warnings of an export.
pub open spec fn export_warnings(ws: Seq<Seq<char>>, n: int) -> Seq<char>
    decreases n,
{
    if n <= 0 {
        ""@
    } else {
        export_warnings(ws, n - 1) + "  ⚠ "@ + ws[n - 1] + "\n"@
    }
}

fn export_warnings_of(ws: &Vec<String>) -> (t: String)
    ensures
        t@ == export_warnings(text::texts(ws@), ws@.len() as int),
{
    let ghost all = text::texts(ws@);
    let mut t = text("");
    let mut i: usize = 0;
    while i < ws.len()
        invariant
            all == text::texts(ws@),
            i <= ws@.len(),
            t@ == export_warnings(all, i as int),
        decreases ws@.len() - i,
    {
        assert(all[i as int] == ws@[i as int]@);
        t.append("  ⚠ ");
        t.append(ws[i].as_str());
        t.append("\n");
        i += 1;
    }
    t
}

/// How many sockets a process has.
pub open spec fn export_sockets(r: TargetReportView) -> Seq<char> {
    if r.sockets.len() == 0 {
        ""@
    } else {
        pair_line("sockets"@, num::dec(r.sockets.len() as int) + " (see below)"@)
    }
}

/// The risk of a process.
pub open spec fn export_risk(r: TargetReportView) -> Seq<char> {
    match r.risk {
        Some(k) => if k.score > 0 {
            pair_line(
                "risk"@,
                num::dec(k.score as int) + "/10 — "@ + text::join(k.signals, "; "@),
            )
        } else {
            ""@
        },
        None => ""@,
    }
}

/// The warnings about a process.
pub open spec fn export_warned(r: TargetReportView) -> Seq<char> {
    if r.warnings.len() == 0 {
        ""@
    } else {
        pair_line("warnings"@, ""@) + export_warnings(r.warnings, r.warnings.len() as int)
    }
}

/// What is remarkable about a process.
pub open spec fn export_remarks(r: TargetReportView) -> Seq<char> {
    export_sockets(r) + export_risk(r) + export_warned(r)
}

fn export_remarks_of(r: &TargetReport) -> (s: String)
    ensures
        s@ == export_remarks(r@),
{
    let mut t: String = if r.sockets.len() == 0 {
        text("")
    } else {
        let mut n = dec_usize(r.sockets.len());
        n.append(" (see below)");
        pair_line_of("sockets", n.as_str())
    };
    let risk: String = match &r.risk {
        Some(k) => if k.score > 0 {
            let mut v = dec_u64(k.score as u64);
            v.append("/10 — ");
            v.append(joined(&k.signals, "; ").as_str());
            pair_line_of("risk", v.as_str())
        } else {
            text("")
        },
        None => text(""),
    };
    t.append(risk.as_str());
    let warnings: String = if r.warnings.len() == 0 {
        text("")
    } else {
        let mut w = pair_line_of("warnings", "");
        w.append(export_warnings_of(&r.warnings).as_str());
        w
    };
    t.append(warnings.as_str());
    t
}

/// The first `n` variables of an export.
pub open spec fn export_vars(env: Seq<(Seq<char>, Seq<char>)>, n: int) -> Seq<char>
    decreases n,
{
    if n <= 0 {
        ""@
    } else {
        export_vars(env, n - 1) + "  "@ + env[n - 1].0 + "="@ + env[n - 1].1 + "\n"@
    }
}

/// How many there are beyond those shown.
pub open spec fn and_more(total: int, shown: int) -> Seq<char> {
    if total > shown {
        "  … "@ + num::dec(total - shown) + " more"@ + "\n"@
    } else {
        ""@
    }
}

fn and_more_of(total: usize, shown: usize) -> (r: String)
    ensures
        r@ == and_more(total as int, shown as int),
{
    if total > shown {
        let mut t = text("  … ");
        t.append(dec_usize(total - shown).as_str());
        t.append(" more");
        t.append("\n");
        t
    } else {
        text("")
    }
}

/// The smaller of two numbers.
pub open spec fn least(a: int, b: int) -> int {
    if a < b {
        a
    } else {
        b
    }
}

/// The environment, up to a limit.
pub open spec fn export_env(env: Option<Seq<(Seq<char>, Seq<char>)>>) -> Seq<char> {
    match env {
        Some(e) => if e.len() == 0 {
            ""@
        } else {
            pair_line("environment"@, num::dec(e.len() as int) + " variables"@) + export_vars(
                e,
                least(e.len() as int, MAX_EXPORT_ENV as int),
            ) + and_more(e.len() as int, MAX_EXPORT_ENV as int)
        },
        None => ""@,
    }
}

fn export_env_of(m: &Process) -> (r: String)
    ensures
        r@ == export_env(m@.env),
{
    match &m.env {
        Some(env) => {
            let ghost all = crate::model::vars(env@);
            let n: usize = env.len();
            if n == 0 {
                return text("");
            }
            let top: usize = if n < MAX_EXPORT_ENV {
                n
            } else {
                MAX_EXPORT_ENV
            };
            let mut count = dec_usize(n);
            count.append(" variables");
            let mut lines = text("");
            let mut i: usize = 0;
            while i < top
                invariant
                    all == crate::model::vars(env@),
                    i <= top <= env@.len(),
                    lines@ == export_vars(all, i as int),
                decreases top - i,
            {
                assert(all[i as int] == (env@[i as int].0@, env@[i as int].1@));
                lines.append("  ");
                lines.append(env[i].0.as_str());
                lines.append("=");
                lines.append(env[i].1.as_str());
                lines.append("\n");
                i += 1;
            }
            let mut t = pair_line_of("environment", count.as_str());
            t.append(lines.as_str());
            t.append(and_more_of(n, MAX_EXPORT_ENV).as_str());
            t
        },
        None => text(""),
    }
}

/// The first `n` files of an export.
pub open spec fn export_file_lines(fs: Seq<Seq<char>>, n: int) -> Seq<char>
    decreases n,
{
    if n <= 0 {
        ""@
    } else {
        export_file_lines(fs, n - 1) + "  "@ + fs[n - 1] + "\n"@
    }
}

/// What lists of open files show.
pub open spec fn files_view(v: Seq<(Pid, Vec<String>)>) -> Seq<(Pid, Seq<Seq<char>>)> {
    Seq::new(v.len(), |i: int| (v[i].0, text::texts(v[i].1@)))
}

/// The first list from `i` on that belongs to `pid`; empty when there is none.
pub open spec fn files_for(v: Seq<(Pid, Seq<Seq<char>>)>, pid: Pid, i: int) -> Seq<Seq<char>>
    decreases v.len() - i,
{
    if i >= v.len() {
        seq![]
    } else if v[i].0 == pid {
        v[i].1
    } else {
        files_for(v, pid, i + 1)
    }
}

/// The open files, up to a limit.
pub open spec fn export_files(fs: Seq<Seq<char>>) -> Seq<char> {
    if fs.len() == 0 {
        ""@
    } else {
        pair_line("open files"@, num::dec(fs.len() as int)) + export_file_lines(
            fs,
            least(fs.len() as int, MAX_EXPORT_FILES as int),
        ) + and_more(fs.len() as int, MAX_EXPORT_FILES as int)
    }
}

fn export_list_of(fs: &Vec<String>) -> (r: String)
    ensures
        r@ == export_files(text::texts(fs@)),
{
    let ghost all = text::texts(fs@);
    let n: usize = fs.len();
    if n == 0 {
        return text("");
    }
    let top: usize = if n < MAX_EXPORT_FILES {
        n
    } else {
        MAX_EXPORT_FILES
    };
    let mut lines = text("");
    let mut i: usize = 0;
    while i < top
        invariant
            all == text::texts(fs@),
            i <= top <= fs@.len(),
            lines@ == export_file_lines(all, i as int),
        decreases top - i,
    {
        assert(all[i as int] == fs@[i as int]@);
        lines.append("  ");
        lines.append(fs[i].as_str());
        lines.append("\n");
        i += 1;
    }
    let mut t = pair_line_of("open files", dec_usize(n).as_str());
    t.append(lines.as_str());
    t.append(and_more_of(n, MAX_EXPORT_FILES).as_str());
    t
}

fn export_files_of(files: &[(Pid, Vec<String>)], pid: Pid) -> (r: String)
    ensures
        r@ == export_files(files_for(files_view(files@), pid, 0)),
{
    let ghost all = files_view(files@);
    let mut i: usize = 0;
    while i < files.len()
        invariant
            all == files_view(files@),
            i <= files@.len(),
            files_for(all, pid, 0) == files_for(all, pid, i as int),
        decreases files@.len() - i,
    {
        assert(all[i as int] == (files@[i as int].0, text::texts(files@[i as int].1@)));
        if files[i].0 == pid {
            return export_list_of(&files[i].1);
        }
        i += 1;
    }
    text("")
}

/// The export of one report.
pub open spec fn export_one(
    r: TargetReportView,
    files: Seq<(Pid, Seq<Seq<char>>)>,
    c: Clock,
) -> Seq<char> {
    let head = "== witr-rs report: "@ + r.target.words() + " =="@ + "\n"@;
    if !r.found {
        head + "  "@ + render::or(r.error, "no process matched"@) + "\n"@ + "\n"@
    } else {
        let m = r.matches[0];
        head + export_identity(m, c) + export_origin(r) + export_remarks(r) + export_env(m.env)
            + export_files(files_for(files, m.pid, 0)) + "\n"@
    }
}

fn export_one_of(r: &TargetReport, files: &[(Pid, Vec<String>)], c: Clock) -> (s: String)
    requires
        r.found ==> r.matches@.len() > 0,
    ensures
        s@ == export_one(r@, files_view(files@), c),
{
    let mut t = text("== witr-rs report: ");
    t.append(r.target.describe().as_str());
    t.append(" ==");
    t.append("\n");
    if !r.found {
        t.append("  ");
        t.append(text_or(&r.error, "no process matched").as_str());
        t.append("\n");
        t.append("\n");
        return t;
    }
    let m = &r.matches[0];
    assert(r@.matches[0] == m@);
    t.append(export_identity_of(m, c).as_str());
    t.append(export_origin_of(r).as_str());
    t.append(export_remarks_of(r).as_str());
    t.append(export_env_of(m).as_str());
    t.append(export_files_of(files, m.pid).as_str());
    t.append("\n");
    t
}

/// The export of the first `n` reports.
pub open spec fn export_text(
    rs: Seq<TargetReportView>,
    files: Seq<(Pid, Seq<Seq<char>>)>,
    c: Clock,
    n: int,
) -> Seq<char>
    decreases n,
{
    if n <= 0 {
        ""@
    } else {
        export_text(rs, files, c, n - 1) + export_one(rs[n - 1], files, c)
    }
}

/// Whether every report that found something says what it found.
pub open spec fn complete(rs: Seq<TargetReportView>) -> bool {
    forall|i: int|
        0 <= i < rs.len() && (#[trigger] rs[i]).found ==> rs[i].matches.len() > 0
}

/// Plain-text diagnostic report (the `--export` flag): everything the detail
/// page shows, including env values and open files, for pasting into issues.
pub fn render_export(
    reports: &[TargetReport],
    files: &[(Pid, Vec<String>)],
    c: Clock,
) -> (s: String)
    requires
        complete(text::views(reports@)),
    ensures
        s@ == export_text(
            text::views(reports@),
            files_view(files@),
            c,
            reports@.len() as int,
        ),
{
    let ghost all = text::views(reports@);
    let mut t = text("");
    let mut i: usize = 0;
    while i < reports.len()
        invariant
            all == text::views(reports@),
            complete(all),
            i <= reports@.len(),
            t@ == export_text(all, files_view(files@), c, i as int),
        decreases reports@.len() - i,
    {
        assert(all[i as int] == reports@[i as int]@);
        assert(all[i as int].matches.len() == reports@[i as int].matches@.len());
        t.append(export_one_of(&reports[i], files, c).as_str());
        i += 1;
    }
    t
}

} // verus!
