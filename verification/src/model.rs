//! The data model: processes, sockets, containers, targets and reports.
//!
//! Each type that holds strings has a ghost counterpart, its view, in which
//! every string is the sequence of its characters.

use vstd::prelude::*;
use vstd::string::*;

use crate::num::dec_i32;
use crate::num::dec_u64;
use crate::risk::Risk;
use crate::text::{copy_texts, joined, opt_copy, text};
use crate::num;
use crate::risk::RiskView;
use crate::text;

verus! {

pub type Pid = i32;

// ---------- processes ----------

/// Everything we know about one process. Fields are optional because
/// each platform fills in a different subset (and permissions limit more).
#[derive(Debug)]
pub struct Process {
    pub pid: Pid,
    pub ppid: Option<Pid>,
    pub name: String,
    pub exe: Option<String>,
    pub exe_deleted: bool,
    pub cmdline: Vec<String>,
    pub cwd: Option<String>,
    pub user: Option<String>,
    pub uid: Option<u32>,
    /// Unix timestamp (seconds) the process started, when resolvable.
    pub started: Option<i64>,
    /// Only collected when the user asks for it; None = unavailable
    /// (other user's process, SIP, unsupported platform...).
    pub env: Option<Vec<(String, String)>>,
    pub kernel_thread: bool,
    /// Average CPU percent over the process lifetime (what ps pcpu reports),
    /// as the bit pattern of a double.
    pub cpu: Option<u64>,
    /// Resident set size in KiB.
    pub mem_kb: Option<u64>,
    /// Cumulative CPU time in milliseconds.
    pub cpu_time_ms: Option<u64>,
}

/// What a [`Process`] shows.
#[verifier::ext_equal]
pub struct ProcessView {
    pub pid: Pid,
    pub ppid: Option<Pid>,
    pub name: Seq<char>,
    pub exe: Option<Seq<char>>,
    pub exe_deleted: bool,
    pub cmdline: Seq<Seq<char>>,
    pub cwd: Option<Seq<char>>,
    pub user: Option<Seq<char>>,
    pub uid: Option<u32>,
    pub started: Option<i64>,
    pub env: Option<Seq<(Seq<char>, Seq<char>)>>,
    pub kernel_thread: bool,
    pub cpu: Option<u64>,
    pub mem_kb: Option<u64>,
    pub cpu_time_ms: Option<u64>,
}

/// What a list of environment variables shows.
pub open spec fn vars(v: Seq<(String, String)>) -> Seq<(Seq<char>, Seq<char>)> {
    Seq::new(v.len(), |i: int| (v[i].0@, v[i].1@))
}

/// What an optional list of environment variables shows.
pub open spec fn opt_vars(v: Option<Vec<(String, String)>>) -> Option<
    Seq<(Seq<char>, Seq<char>)>,
> {
    match v {
        Some(e) => Some(vars(e@)),
        None => None,
    }
}

/// Pushing a variable pushes what it shows.
pub broadcast proof fn vars_push(v: Seq<(String, String)>, x: (String, String))
    ensures
        #[trigger] vars(v.push(x)) == vars(v).push((x.0@, x.1@)),
{
    assert(vars(v.push(x)) =~= vars(v).push((x.0@, x.1@)));
}

impl View for Process {
    type V = ProcessView;

    open spec fn view(&self) -> ProcessView {
        ProcessView {
            pid: self.pid,
            ppid: self.ppid,
            name: self.name@,
            exe: text::opt(self.exe),
            exe_deleted: self.exe_deleted,
            cmdline: text::texts(self.cmdline@),
            cwd: text::opt(self.cwd),
            user: text::opt(self.user),
            uid: self.uid,
            started: self.started,
            env: opt_vars(self.env),
            kernel_thread: self.kernel_thread,
            cpu: self.cpu,
            mem_kb: self.mem_kb,
            cpu_time_ms: self.cpu_time_ms,
        }
    }
}

impl ProcessView {
    /// A process of which nothing is known.
    pub open spec fn blank() -> ProcessView {
        ProcessView {
            pid: 0,
            ppid: None,
            name: seq![],
            exe: None,
            exe_deleted: false,
            cmdline: seq![],
            cwd: None,
            user: None,
            uid: None,
            started: None,
            env: None,
            kernel_thread: false,
            cpu: None,
            mem_kb: None,
            cpu_time_ms: None,
        }
    }

    /// The command line for display: the arguments, or the name when there
    /// are none.
    pub open spec fn command(self) -> Seq<char> {
        if self.cmdline.len() == 0 {
            self.name
        } else {
            text::join(self.cmdline, " "@)
        }
    }
}

fn copy_vars(v: &Vec<(String, String)>) -> (r: Vec<(String, String)>)
    ensures
        vars(r@) == vars(v@),
{
    let mut out: Vec<(String, String)> = Vec::new();
    let mut i: usize = 0;
    while i < v.len()
        invariant
            i <= v@.len(),
            out@ == v@.take(i as int),
        decreases v@.len() - i,
    {
        out.push((v[i].0.clone(), v[i].1.clone()));
        assert(v@.take(i + 1) =~= v@.take(i as int).push(v@[i as int]));
        i += 1;
    }
    assert(v@.take(i as int) =~= v@);
    out
}

impl Clone for Process {
    fn clone(&self) -> (r: Process)
        ensures
            r@ == self@,
    {
        Process {
            pid: self.pid,
            ppid: self.ppid,
            name: self.name.clone(),
            exe: opt_copy(&self.exe),
            exe_deleted: self.exe_deleted,
            cmdline: copy_texts(&self.cmdline),
            cwd: opt_copy(&self.cwd),
            user: opt_copy(&self.user),
            uid: self.uid,
            started: self.started,
            env: match &self.env {
                Some(e) => Some(copy_vars(e)),
                None => None,
            },
            kernel_thread: self.kernel_thread,
            cpu: self.cpu,
            mem_kb: self.mem_kb,
            cpu_time_ms: self.cpu_time_ms,
        }
    }
}

impl Default for Process {
    fn default() -> (r: Process)
        ensures
            r@ == ProcessView::blank(),
    {
        let r = Process {
            pid: 0,
            ppid: None,
            name: String::new(),
            exe: None,
            exe_deleted: false,
            cmdline: Vec::new(),
            cwd: None,
            user: None,
            uid: None,
            started: None,
            env: None,
            kernel_thread: false,
            cpu: None,
            mem_kb: None,
            cpu_time_ms: None,
        };
        assert(r@ =~= ProcessView::blank());
        r
    }
}

impl Process {
    /// One-line command representation for display.
    pub fn command_line(&self) -> (r: String)
        ensures
            r@ == self@.command(),
    {
        if self.cmdline.len() == 0 {
            self.name.clone()
        } else {
            joined(&self.cmdline, " ")
        }
    }
}

/// A direct child of a traced process.
#[derive(Debug)]
pub struct Child {
    pub pid: Pid,
    pub name: String,
    pub command: String,
}

/// What a [`Child`] shows.
#[verifier::ext_equal]
pub struct ChildView {
    pub pid: Pid,
    pub name: Seq<char>,
    pub command: Seq<char>,
}

impl View for Child {
    type V = ChildView;

    open spec fn view(&self) -> ChildView {
        ChildView { pid: self.pid, name: self.name@, command: self.command@ }
    }
}

impl Clone for Child {
    fn clone(&self) -> (r: Child)
        ensures
            r@ == self@,
    {
        Child { pid: self.pid, name: self.name.clone(), command: self.command.clone() }
    }
}

// ---------- sockets ----------

#[derive(Debug)]
pub struct Socket {
    /// tcp / tcp6 / udp / udp6
    pub proto: String,
    pub local_addr: String,
    pub local_port: u16,
    pub peer_addr: Option<String>,
    pub peer_port: Option<u16>,
    /// LISTEN / ESTABLISHED / UNCONNECTED ...
    pub state: String,
    pub pid: Option<Pid>,
}

/// What a [`Socket`] shows.
#[verifier::ext_equal]
pub struct SocketView {
    pub proto: Seq<char>,
    pub local_addr: Seq<char>,
    pub local_port: u16,
    pub peer_addr: Option<Seq<char>>,
    pub peer_port: Option<u16>,
    pub state: Seq<char>,
    pub pid: Option<Pid>,
}

impl View for Socket {
    type V = SocketView;

    open spec fn view(&self) -> SocketView {
        SocketView {
            proto: self.proto@,
            local_addr: self.local_addr@,
            local_port: self.local_port,
            peer_addr: text::opt(self.peer_addr),
            peer_port: self.peer_port,
            state: self.state@,
            pid: self.pid,
        }
    }
}

impl Clone for Socket {
    fn clone(&self) -> (r: Socket)
        ensures
            r@ == self@,
    {
        Socket {
            proto: self.proto.clone(),
            local_addr: self.local_addr.clone(),
            local_port: self.local_port,
            peer_addr: opt_copy(&self.peer_addr),
            peer_port: self.peer_port,
            state: self.state.clone(),
            pid: self.pid,
        }
    }
}

/// A copy of a list of sockets.
pub fn copy_sockets(v: &Vec<Socket>) -> (r: Vec<Socket>)
    ensures
        text::views(r@) == text::views(v@),
{
    broadcast use crate::text::group_views;

    let mut out: Vec<Socket> = Vec::new();
    let mut i: usize = 0;
    while i < v.len()
        invariant
            i <= v@.len(),
            text::views(out@) == text::views(v@).take(i as int),
        decreases v@.len() - i,
    {
        out.push(v[i].clone());
        assert(text::views(v@).take(i + 1) =~= text::views(v@).take(i as int).push(v@[i as int]@));
        i += 1;
    }
    assert(text::views(v@).take(i as int) =~= text::views(v@));
    out
}

// ---------- containers ----------

#[derive(Debug)]
pub struct Container {
    /// docker / podman / nerdctl
    pub runtime: String,
    pub id: String,
    pub name: String,
    pub image: String,
    pub state: String,
    /// human readable, e.g. "Up 2 weeks (healthy)"
    pub status: String,
    /// published ports, e.g. "0.0.0.0:8088->8088/tcp"
    pub ports: String,
}

/// What a [`Container`] shows.
#[verifier::ext_equal]
pub struct ContainerView {
    pub runtime: Seq<char>,
    pub id: Seq<char>,
    pub name: Seq<char>,
    pub image: Seq<char>,
    pub state: Seq<char>,
    pub status: Seq<char>,
    pub ports: Seq<char>,
}

impl View for Container {
    type V = ContainerView;

    open spec fn view(&self) -> ContainerView {
        ContainerView {
            runtime: self.runtime@,
            id: self.id@,
            name: self.name@,
            image: self.image@,
            state: self.state@,
            status: self.status@,
            ports: self.ports@,
        }
    }
}

impl Clone for Container {
    fn clone(&self) -> (r: Container)
        ensures
            r@ == self@,
    {
        Container {
            runtime: self.runtime.clone(),
            id: self.id.clone(),
            name: self.name.clone(),
            image: self.image.clone(),
            state: self.state.clone(),
            status: self.status.clone(),
            ports: self.ports.clone(),
        }
    }
}

// ---------- sources ----------

/// Who or what started a process.
#[derive(Debug)]
pub struct Source {
    /// systemd | launchd | windows-service | cron | container | tmux | screen | ssh | shell | init
    pub kind: String,
    pub label: Option<String>,
    pub detail: Option<String>,
}

/// What a [`Source`] shows.
#[verifier::ext_equal]
pub struct SourceView {
    pub kind: Seq<char>,
    pub label: Option<Seq<char>>,
    pub detail: Option<Seq<char>>,
}

impl View for Source {
    type V = SourceView;

    open spec fn view(&self) -> SourceView {
        SourceView { kind: self.kind@, label: text::opt(self.label), detail: text::opt(self.detail) }
    }
}

impl Clone for Source {
    fn clone(&self) -> (r: Source)
        ensures
            r@ == self@,
    {
        Source {
            kind: self.kind.clone(),
            label: opt_copy(&self.label),
            detail: opt_copy(&self.detail),
        }
    }
}

/// What an optional source shows.
pub open spec fn opt_source(s: Option<Source>) -> Option<SourceView> {
    match s {
        Some(x) => Some(x@),
        None => None,
    }
}

// ---------- targets ----------

#[derive(Debug)]
pub enum TargetSpec {
    Name { pattern: String, exact: bool },
    Pid { pid: Pid },
    Port { port: u16 },
    File { path: String },
}

/// What a [`TargetSpec`] shows.
#[verifier::ext_equal]
pub enum TargetSpecView {
    Name { pattern: Seq<char>, exact: bool },
    Pid { pid: Pid },
    Port { port: u16 },
    File { path: Seq<char> },
}

impl View for TargetSpec {
    type V = TargetSpecView;

    open spec fn view(&self) -> TargetSpecView {
        match self {
            TargetSpec::Name { pattern, exact } => TargetSpecView::Name {
                pattern: pattern@,
                exact: *exact,
            },
            TargetSpec::Pid { pid } => TargetSpecView::Pid { pid: *pid },
            TargetSpec::Port { port } => TargetSpecView::Port { port: *port },
            TargetSpec::File { path } => TargetSpecView::File { path: path@ },
        }
    }
}

impl Clone for TargetSpec {
    fn clone(&self) -> (r: TargetSpec)
        ensures
            r@ == self@,
    {
        match self {
            TargetSpec::Name { pattern, exact } => TargetSpec::Name {
                pattern: pattern.clone(),
                exact: *exact,
            },
            TargetSpec::Pid { pid } => TargetSpec::Pid { pid: *pid },
            TargetSpec::Port { port } => TargetSpec::Port { port: *port },
            TargetSpec::File { path } => TargetSpec::File { path: path.clone() },
        }
    }
}

impl TargetSpecView {
    /// The target in words.
    pub open spec fn words(self) -> Seq<char> {
        match self {
            TargetSpecView::Name { pattern, exact } => if exact {
                "process named \""@ + pattern + "\" (exact)"@
            } else {
                "process matching \""@ + pattern + "\""@
            },
            TargetSpecView::Pid { pid } => "pid "@ + num::dec(pid as int),
            TargetSpecView::Port { port } => "port "@ + num::dec(port as int),
            TargetSpecView::File { path } => "file "@ + path,
        }
    }
}

impl TargetSpec {
    /// The target in words.
    pub fn describe(&self) -> (r: String)
        ensures
            r@ == self@.words(),
    {
        match self {
            TargetSpec::Name { pattern, exact } => {
                if *exact {
                    let mut out = text("process named \"");
                    out.append(pattern.as_str());
                    out.append("\" (exact)");
                    out
                } else {
                    let mut out = text("process matching \"");
                    out.append(pattern.as_str());
                    out.append("\"");
                    out
                }
            },
            TargetSpec::Pid { pid } => {
                let mut out = text("pid ");
                out.append(dec_i32(*pid).as_str());
                out
            },
            TargetSpec::Port { port } => {
                let mut out = text("port ");
                out.append(dec_u64(*port as u64).as_str());
                out
            },
            TargetSpec::File { path } => {
                let mut out = text("file ");
                out.append(path.as_str());
                out
            },
        }
    }
}

// ---------- reports ----------

#[derive(Debug)]
pub struct TargetReport {
    pub target: TargetSpec,
    /// false = nothing matched (report carries the reason in `error`)
    pub found: bool,
    pub error: Option<String>,
    /// The process(es) the target resolved to. Multiple when a name
    /// matches several processes.
    pub matches: Vec<Process>,
    /// Ancestor chain, root first, the matched process last.
    pub ancestry: Vec<Process>,
    /// Direct children of each matched process.
    pub children: Vec<Child>,
    pub source: Option<Source>,
    pub sockets: Vec<Socket>,
    pub warnings: Vec<String>,
    pub risk: Option<Risk>,
}

/// What a [`TargetReport`] shows.
#[verifier::ext_equal]
pub struct TargetReportView {
    pub target: TargetSpecView,
    pub found: bool,
    pub error: Option<Seq<char>>,
    pub matches: Seq<ProcessView>,
    pub ancestry: Seq<ProcessView>,
    pub children: Seq<ChildView>,
    pub source: Option<SourceView>,
    pub sockets: Seq<SocketView>,
    pub warnings: Seq<Seq<char>>,
    pub risk: Option<RiskView>,
}

/// What an optional risk shows.
pub open spec fn opt_risk(r: Option<Risk>) -> Option<RiskView> {
    match r {
        Some(x) => Some(x@),
        None => None,
    }
}

impl View for TargetReport {
    type V = TargetReportView;

    open spec fn view(&self) -> TargetReportView {
        TargetReportView {
            target: self.target@,
            found: self.found,
            error: text::opt(self.error),
            matches: text::views(self.matches@),
            ancestry: text::views(self.ancestry@),
            children: text::views(self.children@),
            source: opt_source(self.source),
            sockets: text::views(self.sockets@),
            warnings: text::texts(self.warnings@),
            risk: opt_risk(self.risk),
        }
    }
}

impl TargetReportView {
    /// The report for a target that nothing matched.
    pub open spec fn missing(target: TargetSpecView, error: Seq<char>) -> TargetReportView {
        TargetReportView {
            target,
            found: false,
            error: Some(error),
            matches: seq![],
            ancestry: seq![],
            children: seq![],
            source: None,
            sockets: seq![],
            warnings: seq![],
            risk: None,
        }
    }
}

impl TargetReport {
    pub fn not_found(target: TargetSpec, error: String) -> (r: TargetReport)
        ensures
            r@ == TargetReportView::missing(target@, error@),
    {
        let ghost want = TargetReportView::missing(target@, error@);
        let r = TargetReport {
            target,
            found: false,
            error: Some(error),
            matches: Vec::new(),
            ancestry: Vec::new(),
            children: Vec::new(),
            source: None,
            sockets: Vec::new(),
            warnings: Vec::new(),
            risk: None,
        };
        assert(r@ =~= want);
        r
    }
}

/// Whether no two processes have one pid.
pub open spec fn distinct_pids(procs: Seq<ProcessView>) -> bool {
    forall|i: int, j: int|
        0 <= i < j < procs.len() ==> (#[trigger] procs[i]).pid != (#[trigger] procs[j]).pid
}

/// A command line is shown as its arguments with spaces between them, and a
/// process without one by its name.
pub proof fn command_is_its_arguments(p: ProcessView, arg: Seq<char>)
    ensures
        p.cmdline.len() == 0 ==> p.command() == p.name,
        p.cmdline.len() == 0 ==> (ProcessView { cmdline: p.cmdline.push(arg), ..p }).command()
            == arg,
        p.cmdline.len() > 0 ==> (ProcessView { cmdline: p.cmdline.push(arg), ..p }).command()
            == p.command() + " "@ + arg,
{
    let longer = p.cmdline.push(arg);
    assert(longer.drop_last() =~= p.cmdline);
    assert(longer.last() == arg);
}

/// A target is told by what it was asked for: the pattern, the pid, the port or
/// the path.
pub proof fn target_is_told_by_what_was_asked(
    pattern: Seq<char>,
    pid: Pid,
    port: u16,
    path: Seq<char>,
)
    ensures
        text::contains((TargetSpecView::Name { pattern, exact: true }).words(), pattern),
        text::contains((TargetSpecView::Name { pattern, exact: false }).words(), pattern),
        text::ends_with((TargetSpecView::Name { pattern, exact: true }).words(), " (exact)"@),
        text::ends_with((TargetSpecView::Pid { pid }).words(), num::dec(pid as int)),
        text::starts_with((TargetSpecView::Pid { pid }).words(), "pid "@),
        text::ends_with((TargetSpecView::Port { port }).words(), num::dec(port as int)),
        text::starts_with((TargetSpecView::Port { port }).words(), "port "@),
        text::ends_with((TargetSpecView::File { path }).words(), path),
        text::starts_with((TargetSpecView::File { path }).words(), "file "@),
{
    let a = "process named \""@;
    let b = "process matching \""@;
    let e = "\" (exact)"@;
    text::longer_text_holds_it(a, pattern, pattern);
    text::longer_text_holds_it(a + pattern, e, pattern);
    text::longer_text_holds_it(b, pattern, pattern);
    text::longer_text_holds_it(b + pattern, "\""@, pattern);
    reveal_strlit("\" (exact)");
    reveal_strlit(" (exact)");
    reveal_strlit("\"");
    assert(e =~= "\""@ + " (exact)"@);
    let t = a + pattern + e;
    assert(t =~= (a + pattern + "\""@) + " (exact)"@);
    text::holding_is_standing_between(t, " (exact)"@);
    ends_with_its_end("pid "@, num::dec(pid as int));
    ends_with_its_end("port "@, num::dec(port as int));
    ends_with_its_end("file "@, path);
}

proof fn ends_with_its_end(a: Seq<char>, b: Seq<char>)
    ensures
        text::starts_with(a + b, a),
        text::ends_with(a + b, b),
{
    text::holding_is_standing_between(a + b, a);
    text::holding_is_standing_between(a + b, b);
}

} // verus!
