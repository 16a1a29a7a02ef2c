//! Target resolution, attribution and warnings.
//!
//! The platform is asked in between: its answers come in as arguments, and
//! every decision around them is made here.

use std::collections::HashMap;

use vstd::prelude::*;
use vstd::string::*;

use crate::ancestry::{build_ancestry, direct_children, keys_in_order};
use crate::model::{copy_sockets, Pid, Process, Socket, Source, TargetReport, TargetSpec};
use crate::model::{ProcessView, SocketView, SourceView, TargetReportView, TargetSpecView};
use crate::num::{dec_i32, dec_u64, dec_usize};
use crate::platform::{Capabilities, PlatError, PlatResult};
use crate::risk::{assess, is_injection};
use crate::text::{
    begins, chars_of, copy_texts, lowercase, same_str, same_str_nocase, str_holds, text,
};
use crate::{ancestry, model, num, risk, text};

verus! {

broadcast use vstd::std_specs::hash::group_hash_axioms;

/// How far an ancestry is followed.
pub const MAX_DEPTH: usize = 64;

pub struct Options {
    pub want_env: bool,
    /// cap for fuzzy name matches before we warn about truncation
    pub max_name_matches: usize,
}

impl Default for Options {
    fn default() -> (r: Options)
        ensures
            !r.want_env,
            r.max_name_matches == 20,
    {
        Options { want_env: false, max_name_matches: 20 }
    }
}

// ---------- the snapshot ----------

/// The table of the first `n` processes: of several with one pid the last.
pub open spec fn snapshot_of(procs: Seq<ProcessView>, n: int) -> Map<Pid, ProcessView>
    decreases n,
{
    if n <= 0 {
        Map::empty()
    } else {
        snapshot_of(procs, n - 1).insert(procs[n - 1].pid, procs[n - 1])
    }
}

/// Why a listing gives no snapshot.
pub open spec fn listing_error(listing: PlatResult<Vec<Process>>) -> Option<Seq<char>> {
    match listing {
        Ok(p) => if p@.len() == 0 {
            Some("no processes visible to this user"@)
        } else {
            None
        },
        Err(e) => Some("cannot list processes: "@ + e@.words()),
    }
}

/// The processes of a listing, or the reason why there are none.
pub fn listed(listing: PlatResult<Vec<Process>>) -> (r: Result<Vec<Process>, String>)
    ensures
        match r {
            Ok(procs) => listing_error(listing) is None && listing == Ok::<
                Vec<Process>,
                PlatError,
            >(procs),
            Err(e) => listing_error(listing) == Some(e@),
        },
{
    match listing {
        Ok(procs) => {
            if procs.len() == 0 {
                return Err(text("no processes visible to this user"));
            }
            Ok(procs)
        },
        Err(e) => {
            let mut msg = text("cannot list processes: ");
            msg.append(e.message().as_str());
            Err(msg)
        },
    }
}

/// The process table by pid, or the reason why there is none.
pub fn snapshot(listing: PlatResult<Vec<Process>>) -> (r: Result<HashMap<Pid, Process>, String>)
    ensures
        match r {
            Ok(m) => listing_error(listing) is None && listing is Ok && ancestry::table(m@)
                == snapshot_of(text::views(listing->Ok_0@), listing->Ok_0@.len() as int),
            Err(e) => listing_error(listing) == Some(e@),
        },
{
    let procs = match listed(listing) {
        Ok(procs) => procs,
        Err(e) => {
            return Err(e);
        },
    };
    let ghost all = text::views(procs@);
    let mut m: HashMap<Pid, Process> = HashMap::new();
    let mut i: usize = 0;
    assert(ancestry::table(m@) =~= Map::<Pid, ProcessView>::empty());
    while i < procs.len()
        invariant
            all == text::views(procs@),
            i <= procs@.len(),
            ancestry::table(m@) == snapshot_of(all, i as int),
        decreases procs@.len() - i,
    {
        let p = procs[i].clone();
        let ghost was = m@;
        let ghost pv = p@;
        m.insert(p.pid, p);
        assert(all[i as int] == pv);
        assert(ancestry::table(m@) =~= ancestry::table(was).insert(pv.pid, pv));
        i += 1;
    }
    Ok(m)
}

proof fn snapshot_keys(procs: Seq<ProcessView>, n: int)
    requires
        0 <= n <= procs.len(),
    ensures
        forall|k: Pid| #[trigger]
            snapshot_of(procs, n).contains_key(k) ==> snapshot_of(procs, n)[k].pid == k,
        forall|i: int|
            0 <= i < n ==> snapshot_of(procs, n).contains_key((#[trigger] procs[i]).pid),
    decreases n,
{
    if n > 0 {
        snapshot_keys(procs, n - 1);
        assert forall|i: int| 0 <= i < n implies snapshot_of(procs, n).contains_key(
            (#[trigger] procs[i]).pid,
        ) by {
            if i < n - 1 {
                assert(snapshot_of(procs, n - 1).contains_key(procs[i].pid));
            }
        }
    }
}

/// Every process of a snapshot stands under its own pid, and every process
/// listed has an entry.
pub proof fn snapshot_is_keyed_by_pid(procs: Seq<ProcessView>)
    ensures
        ({
            let m = snapshot_of(procs, procs.len() as int);
            &&& forall|k: Pid| #[trigger] m.contains_key(k) ==> m[k].pid == k
            &&& forall|i: int| 0 <= i < procs.len() ==> m.contains_key((#[trigger] procs[i]).pid)
        }),
{
    snapshot_keys(procs, procs.len() as int);
}

// ---------- resolving targets ----------

/// What a target resolved to.
pub struct Resolution {
    pub pids: Vec<Pid>,
    /// The sockets of a port target.
    pub sockets: Vec<Socket>,
    pub warnings: Vec<String>,
    pub error: Option<String>,
}

/// What a [`Resolution`] shows.
#[verifier::ext_equal]
pub struct ResolutionView {
    pub pids: Seq<Pid>,
    pub sockets: Seq<SocketView>,
    pub warnings: Seq<Seq<char>>,
    pub error: Option<Seq<char>>,
}

impl View for Resolution {
    type V = ResolutionView;

    open spec fn view(&self) -> ResolutionView {
        ResolutionView {
            pids: self.pids@,
            sockets: text::views(self.sockets@),
            warnings: text::texts(self.warnings@),
            error: text::opt(self.error),
        }
    }
}

impl ResolutionView {
    /// Nothing was found, and why.
    pub open spec fn nothing(error: Seq<char>) -> ResolutionView {
        ResolutionView { pids: seq![], sockets: seq![], warnings: seq![], error: Some(error) }
    }
}

fn nothing(error: String) -> (r: Resolution)
    ensures
        r@ == ResolutionView::nothing(error@),
{
    let ghost want = ResolutionView::nothing(error@);
    let r = Resolution {
        pids: Vec::new(),
        sockets: Vec::new(),
        warnings: Vec::new(),
        error: Some(error),
    };
    assert(r@ =~= want);
    r
}

/// What a pid target resolves to.
pub open spec fn pid_resolution(m: Map<Pid, ProcessView>, pid: Pid) -> ResolutionView {
    if m.contains_key(pid) {
        ResolutionView { pids: seq![pid], sockets: seq![], warnings: seq![], error: None }
    } else {
        ResolutionView::nothing(
            "no process with pid "@ + num::dec(pid as int)
                + " (already exited, or not visible to this user)"@,
        )
    }
}

/// Resolves a pid target.
pub fn resolve_pid(map: &HashMap<Pid, Process>, pid: Pid) -> (r: Resolution)
    ensures
        r@ == pid_resolution(ancestry::table(map@), pid),
{
    if map.contains_key(&pid) {
        let mut pids: Vec<Pid> = Vec::new();
        pids.push(pid);
        let r = Resolution { pids, sockets: Vec::new(), warnings: Vec::new(), error: None };
        assert(r@ =~= pid_resolution(ancestry::table(map@), pid));
        r
    } else {
        let mut msg = text("no process with pid ");
        msg.append(dec_i32(pid).as_str());
        msg.append(" (already exited, or not visible to this user)");
        nothing(msg)
    }
}

/// Whether lower-cased names hold a lower-cased pattern.
pub open spec fn fuzzy_hit(name: Seq<char>, exe: Option<Seq<char>>, pattern: Seq<char>) -> bool {
    text::contains(name, pattern) || match exe {
        Some(e) => text::contains(e, pattern),
        None => false,
    }
}

/// Whether a lower-cased name or path holds a lower-cased pattern.
pub fn lowered_hit(name: &str, exe: &Option<String>, pattern: &str) -> (r: bool)
    ensures
        r == fuzzy_hit(name@, text::opt(*exe), pattern@),
{
    if str_holds(name, pattern) {
        return true;
    }
    match exe {
        Some(e) => str_holds(e.as_str(), pattern),
        None => false,
    }
}

/// An optional text in lower case.
pub open spec fn opt_lower(o: Option<Seq<char>>) -> Option<Seq<char>> {
    match o {
        Some(t) => Some(text::unicode_lower(t)),
        None => None,
    }
}

/// Whether a process fits a name target: exactly, but for the case of ASCII
/// letters, or with the pattern anywhere in its name or path in any case.
pub open spec fn name_hit(p: ProcessView, pattern: Seq<char>, exact: bool) -> bool {
    if exact {
        text::same_ignoring_case(p.name, pattern)
    } else {
        fuzzy_hit(text::unicode_lower(p.name), opt_lower(p.exe), text::unicode_lower(pattern))
    }
}

/// The pids among the first `n` keys whose process fits the name.
pub open spec fn hits_among(
    m: Map<Pid, ProcessView>,
    ks: Seq<Pid>,
    pattern: Seq<char>,
    exact: bool,
    n: int,
) -> Seq<Pid>
    decreases n,
{
    if n <= 0 {
        seq![]
    } else if name_hit(m[ks[n - 1]], pattern, exact) {
        hits_among(m, ks, pattern, exact, n - 1).push(m[ks[n - 1]].pid)
    } else {
        hits_among(m, ks, pattern, exact, n - 1)
    }
}

/// The pids whose process fits the name, in ascending order.
pub open spec fn name_hits(m: Map<Pid, ProcessView>, pattern: Seq<char>, exact: bool) -> Seq<Pid> {
    hits_among(m, ancestry::key_order(m), pattern, exact, ancestry::key_order(m).len() as int)
}

/// What a name target resolves to: the first `max` hits, with a warning when
/// there are more, and an error when there are none left.
pub open spec fn name_resolution(
    m: Map<Pid, ProcessView>,
    pattern: Seq<char>,
    exact: bool,
    max: int,
) -> ResolutionView {
    let hits = name_hits(m, pattern, exact);
    let kept = if hits.len() > max {
        hits.take(max)
    } else {
        hits
    };
    ResolutionView {
        pids: kept,
        sockets: seq![],
        warnings: if hits.len() > max {
            seq![
                num::dec(hits.len() as int) + " processes match \""@ + pattern
                    + "\"; showing the first "@ + num::dec(max),
            ]
        } else {
            seq![]
        },
        error: if kept.len() == 0 {
            Some(
                "no process "@ + (if exact {
                    "named"@
                } else {
                    "matching"@
                }) + " \""@ + pattern + "\""@,
            )
        } else {
            None
        },
    }
}

fn hit(p: &Process, pattern: &str, pat: &str, exact: bool) -> (r: bool)
    requires
        pat@ == text::unicode_lower(pattern@),
    ensures
        r == name_hit(p@, pattern@, exact),
{
    if exact {
        same_str_nocase(p.name.as_str(), pattern)
    } else {
        let name = lowercase(p.name.as_str());
        let exe: Option<String> = match &p.exe {
            Some(e) => Some(lowercase(e.as_str())),
            None => None,
        };
        lowered_hit(name.as_str(), &exe, pat)
    }
}

/// Resolves a name target.
pub fn resolve_name(
    map: &HashMap<Pid, Process>,
    pattern: &str,
    exact: bool,
    opts: &Options,
) -> (r: Resolution)
    ensures
        r@ == name_resolution(
            ancestry::table(map@),
            pattern@,
            exact,
            opts.max_name_matches as int,
        ),
{
    broadcast use crate::text::group_views;

    let ghost m = ancestry::table(map@);
    let pat = lowercase(pattern);
    let ks = keys_in_order(map);
    let mut hits: Vec<Pid> = Vec::new();
    let mut i: usize = 0;
    while i < ks.len()
        invariant
            m == ancestry::table(map@),
            pat@ == text::unicode_lower(pattern@),
            ancestry::is_key_order(m, ks@),
            i <= ks@.len(),
            hits@ == hits_among(m, ks@, pattern@, exact, i as int),
        decreases ks@.len() - i,
    {
        assert(ks@.contains(ks@[i as int]));
        match map.get(&ks[i]) {
            Some(p) => {
                assert(m[ks@[i as int]] == p@);
                if hit(p, pattern, pat.as_str(), exact) {
                    hits.push(p.pid);
                }
            },
            None => {
                assert(false);
            },
        }
        i += 1;
    }
    let ghost all = hits@;
    assert(all == name_hits(m, pattern@, exact));
    let mut warnings: Vec<String> = Vec::new();
    if hits.len() > opts.max_name_matches {
        let mut w = dec_usize(hits.len());
        w.append(" processes match \"");
        w.append(pattern);
        w.append("\"; showing the first ");
        w.append(dec_usize(opts.max_name_matches).as_str());
        warnings.push(w);
        hits.truncate(opts.max_name_matches);
        assert(hits@ =~= all.take(opts.max_name_matches as int));
    }
    let error: Option<String> = if hits.len() == 0 {
        let mut e = text("no process ");
        e.append(
            if exact {
                "named"
            } else {
                "matching"
            },
        );
        e.append(" \"");
        e.append(pattern);
        e.append("\"");
        Some(e)
    } else {
        None
    };
    let r = Resolution { pids: hits, sockets: Vec::new(), warnings, error };
    assert(r@ =~= name_resolution(m, pattern@, exact, opts.max_name_matches as int));
    r
}

/// The owners of the first `n` sockets, each once, in the order of their
/// first socket.
pub open spec fn owners(sockets: Seq<SocketView>, n: int) -> Seq<Pid>
    decreases n,
{
    if n <= 0 {
        seq![]
    } else {
        match sockets[n - 1].pid {
            Some(p) => if owners(sockets, n - 1).contains(p) {
                owners(sockets, n - 1)
            } else {
                owners(sockets, n - 1).push(p)
            },
            None => owners(sockets, n - 1),
        }
    }
}

/// How many of the first `n` sockets have no owner.
pub open spec fn orphans(sockets: Seq<SocketView>, n: int) -> int
    decreases n,
{
    if n <= 0 {
        0
    } else {
        orphans(sockets, n - 1) + if sockets[n - 1].pid is None {
            1int
        } else {
            0int
        }
    }
}

/// What a port target resolves to when the platform found these sockets.
pub open spec fn port_resolution(port: u16, sockets: Seq<SocketView>) -> ResolutionView {
    let n = sockets.len() as int;
    if n == 0 {
        ResolutionView::nothing(
            "nothing is using port "@ + num::dec(port as int) + " (no tcp/udp socket)"@,
        )
    } else {
        ResolutionView {
            pids: owners(sockets, n),
            sockets,
            warnings: if orphans(sockets, n) > 0 {
                seq![
                    num::dec(orphans(sockets, n)) + " socket(s) on port "@ + num::dec(port as int)
                        + " have no owning process visible to this user — run with sudo to see them"@,
                ]
            } else {
                seq![]
            },
            error: if owners(sockets, n).len() == 0 {
                Some(
                    "port "@ + num::dec(port as int)
                        + " is only held by sockets no process owns (kernel/time-wait)"@,
                )
            } else {
                None
            },
        }
    }
}

fn has_pid(pids: &Vec<Pid>, p: Pid) -> (r: bool)
    ensures
        r == pids@.contains(p),
{
    let mut i: usize = 0;
    while i < pids.len()
        invariant
            i <= pids@.len(),
            forall|j: int| 0 <= j < i ==> pids@[j] != p,
        decreases pids@.len() - i,
    {
        if pids[i] == p {
            assert(pids@.contains(p));
            return true;
        }
        i += 1;
    }
    false
}

fn port_sockets(port: u16, sockets: Vec<Socket>) -> (r: Resolution)
    ensures
        r@ == port_resolution(port, text::views(sockets@)),
{
    broadcast use crate::text::group_views;

    let ghost all = text::views(sockets@);
    if sockets.len() == 0 {
        let mut e = text("nothing is using port ");
        e.append(dec_u64(port as u64).as_str());
        e.append(" (no tcp/udp socket)");
        return nothing(e);
    }
    let mut pids: Vec<Pid> = Vec::new();
    let mut orphan_sockets: usize = 0;
    let mut i: usize = 0;
    while i < sockets.len()
        invariant
            all == text::views(sockets@),
            i <= sockets@.len(),
            pids@ == owners(all, i as int),
            orphan_sockets == orphans(all, i as int),
            orphan_sockets <= i,
        decreases sockets@.len() - i,
    {
        assert(all[i as int] == sockets@[i as int]@);
        match sockets[i].pid {
            Some(p) => {
                if !has_pid(&pids, p) {
                    pids.push(p);
                }
            },
            None => {
                orphan_sockets += 1;
            },
        }
        i += 1;
    }
    let mut warnings: Vec<String> = Vec::new();
    if orphan_sockets > 0 {
        let mut w = dec_usize(orphan_sockets);
        w.append(" socket(s) on port ");
        w.append(dec_u64(port as u64).as_str());
        w.append(" have no owning process visible to this user — run with sudo to see them");
        warnings.push(w);
    }
    let error: Option<String> = if pids.len() == 0 {
        let mut e = text("port ");
        e.append(dec_u64(port as u64).as_str());
        e.append(" is only held by sockets no process owns (kernel/time-wait)");
        Some(e)
    } else {
        None
    };
    let r = Resolution { pids, sockets, warnings, error };
    assert(r@ =~= port_resolution(port, all));
    r
}

/// What a port target resolves to.
pub open spec fn port_answer(port: u16, answer: PlatResult<Vec<Socket>>) -> ResolutionView {
    match answer {
        Ok(sockets) => port_resolution(port, text::views(sockets@)),
        Err(e) => ResolutionView::nothing("port lookup failed: "@ + e@.words()),
    }
}

/// Resolves a port target from what the platform found on the port.
pub fn resolve_port(port: u16, answer: PlatResult<Vec<Socket>>) -> (r: Resolution)
    ensures
        r@ == port_answer(port, answer),
{
    match answer {
        Ok(sockets) => port_sockets(port, sockets),
        Err(e) => {
            let mut msg = text("port lookup failed: ");
            msg.append(e.message().as_str());
            nothing(msg)
        },
    }
}

/// What a file target resolves to when these processes hold the file.
pub open spec fn file_resolution(path: Seq<char>, pids: Seq<Pid>) -> ResolutionView {
    ResolutionView {
        pids,
        sockets: seq![],
        warnings: seq![],
        error: if pids.len() == 0 {
            Some("no process holds "@ + path + " open"@)
        } else {
            None
        },
    }
}

/// What a file target resolves to.
pub open spec fn file_answer(
    path: Seq<char>,
    caps: Capabilities,
    answer: PlatResult<Vec<Pid>>,
) -> ResolutionView {
    match answer {
        Ok(pids) => file_resolution(path, pids@),
        Err(e) => ResolutionView {
            warnings: if caps.file_lookup {
                seq![]
            } else {
                seq!["file lookup is not supported on this platform"@]
            },
            ..ResolutionView::nothing("file lookup failed: "@ + e@.words())
        },
    }
}

/// Resolves a file target from what the platform found.
pub fn resolve_file(path: &str, caps: Capabilities, answer: PlatResult<Vec<Pid>>) -> (r: Resolution)
    ensures
        r@ == file_answer(path@, caps, answer),
{
    broadcast use crate::text::group_views;

    match answer {
        Ok(pids) => {
            let error: Option<String> = if pids.len() == 0 {
                let mut e = text("no process holds ");
                e.append(path);
                e.append(" open");
                Some(e)
            } else {
                None
            };
            let ghost found = pids@;
            let r = Resolution { pids, sockets: Vec::new(), warnings: Vec::new(), error };
            assert(r@ =~= file_resolution(path@, found));
            r
        },
        Err(e) => {
            let mut warnings: Vec<String> = Vec::new();
            if !caps.file_lookup {
                warnings.push(text("file lookup is not supported on this platform"));
            }
            let mut msg = text("file lookup failed: ");
            msg.append(e.message().as_str());
            let mut r = nothing(msg);
            r.warnings = warnings;
            assert(r@.warnings =~= if caps.file_lookup {
                seq![]
            } else {
                seq!["file lookup is not supported on this platform"@]
            });
            r
        },
    }
}

/// What the platform was asked for a target, and what it answered.
pub enum Lookup {
    /// The process table is enough.
    Table,
    /// The sockets on the port of a port target.
    Sockets(PlatResult<Vec<Socket>>),
    /// The processes that hold the file of a file target open.
    Holders(PlatResult<Vec<Pid>>),
}

/// Whether the platform was asked what the target needs.
pub open spec fn answers(spec: TargetSpecView, lookup: Lookup) -> bool {
    match spec {
        TargetSpecView::Port { .. } => lookup is Sockets,
        TargetSpecView::File { .. } => lookup is Holders,
        _ => true,
    }
}

/// What a target resolves to.
pub open spec fn resolution(
    m: Map<Pid, ProcessView>,
    spec: TargetSpecView,
    caps: Capabilities,
    max: int,
    lookup: Lookup,
) -> ResolutionView {
    match spec {
        TargetSpecView::Pid { pid } => pid_resolution(m, pid),
        TargetSpecView::Name { pattern, exact } => name_resolution(m, pattern, exact, max),
        TargetSpecView::Port { port } => port_answer(port, lookup->Sockets_0),
        TargetSpecView::File { path } => file_answer(path, caps, lookup->Holders_0),
    }
}

/// Target spec to pids, sockets for port targets, warnings and error message.
pub fn resolve(
    map: &HashMap<Pid, Process>,
    spec: &TargetSpec,
    caps: Capabilities,
    opts: &Options,
    lookup: Lookup,
) -> (r: Resolution)
    requires
        answers(spec@, lookup),
    ensures
        r@ == resolution(
            ancestry::table(map@),
            spec@,
            caps,
            opts.max_name_matches as int,
            lookup,
        ),
{
    match spec {
        TargetSpec::Pid { pid } => resolve_pid(map, *pid),
        TargetSpec::Name { pattern, exact } => resolve_name(map, pattern.as_str(), *exact, opts),
        TargetSpec::Port { port } => match lookup {
            Lookup::Sockets(answer) => resolve_port(*port, answer),
            _ => {
                assert(false);
                nothing(String::new())
            },
        },
        TargetSpec::File { path } => match lookup {
            Lookup::Holders(answer) => resolve_file(path.as_str(), caps, answer),
            _ => {
                assert(false);
                nothing(String::new())
            },
        },
    }
}

// ---------- what to trace ----------

/// What to do about a resolved target.
pub enum Plan {
    /// Nothing matched: this is the whole answer.
    Missing(TargetReport),
    /// Each of these processes gets a report of its own.
    Trace { pids: Vec<Pid>, sockets: Vec<Socket>, warnings: Vec<String>, want_env: bool },
}

/// The warning when environment variables cannot be had.
pub open spec fn env_warning(platform: Seq<char>) -> Seq<char> {
    "environment variables are not available on "@ + platform + " (platform restriction)"@
}

/// Decide what to trace: nothing when no pid was found, and no environment
/// where the platform has none. That files cannot be looked up is a warning
/// even then.
pub fn plan(
    spec: &TargetSpec,
    res: Resolution,
    caps: Capabilities,
    opts: &Options,
    platform: &str,
) -> (r: Plan)
    ensures
        match r {
            Plan::Missing(report) => res.pids@.len() == 0 && report@ == (TargetReportView {
                warnings: if spec is File {
                    res@.warnings
                } else {
                    seq![]
                },
                ..TargetReportView::missing(
                    spec@,
                    match res@.error {
                        Some(e) => e,
                        None => "no process matched"@,
                    },
                )
            }),
            Plan::Trace { pids, sockets, warnings, want_env } => {
                &&& res.pids@.len() > 0
                &&& pids@ == res@.pids
                &&& text::views(sockets@) == res@.sockets
                &&& text::texts(warnings@) == if opts.want_env && !caps.env {
                    res@.warnings.push(env_warning(platform@))
                } else {
                    res@.warnings
                }
                &&& want_env == (opts.want_env && caps.env)
            },
        },
{
    broadcast use crate::text::group_views;

    if res.pids.len() == 0 {
        let error: String = match res.error {
            Some(e) => e,
            None => text("no process matched"),
        };
        let mut report = TargetReport::not_found(spec.clone(), error);
        if let TargetSpec::File { .. } = spec {
            report.warnings = res.warnings;
        }
        return Plan::Missing(report);
    }
    let mut warnings: Vec<String> = res.warnings;
    if opts.want_env && !caps.env {
        let mut w = text("environment variables are not available on ");
        w.append(platform);
        w.append(" (platform restriction)");
        warnings.push(w);
    }
    Plan::Trace {
        pids: res.pids,
        sockets: res.sockets,
        warnings,
        want_env: opts.want_env && caps.env,
    }
}

// ---------- risks ----------

/// The warnings about the first `n` environment variables.
pub open spec fn env_warnings(pid: Pid, env: Seq<(Seq<char>, Seq<char>)>, n: int) -> Seq<Seq<char>>
    decreases n,
{
    if n <= 0 {
        seq![]
    } else if risk::injects(env[n - 1].0, env[n - 1].1) {
        env_warnings(pid, env, n - 1).push(
            "pid "@ + num::dec(pid as int) + " has "@ + env[n - 1].0 + "="@ + env[n - 1].1,
        )
    } else {
        env_warnings(pid, env, n - 1)
    }
}

/// Whether a state says that a socket listens; not every platform names it
/// alike.
pub open spec fn is_listening(state: Seq<char>) -> bool {
    text::same_ignoring_case(state, "LISTEN"@) || text::same_ignoring_case(state, "LISTENING"@)
}

/// Whether a socket of `pid` listens on every interface.
pub open spec fn listens_everywhere(s: SocketView, pid: Pid) -> bool {
    s.pid == Some(pid) && is_listening(s.state) && (s.local_addr == "0.0.0.0"@ || s.local_addr
        == "::"@ || s.local_addr == "*"@)
}

/// The warnings about the first `n` sockets.
pub open spec fn socket_warnings(pid: Pid, sockets: Seq<SocketView>, n: int) -> Seq<Seq<char>>
    decreases n,
{
    if n <= 0 {
        seq![]
    } else if listens_everywhere(sockets[n - 1], pid) {
        socket_warnings(pid, sockets, n - 1).push(
            "pid "@ + num::dec(pid as int) + " listens on all interfaces ("@ + sockets[n
                - 1].local_addr + ":"@ + num::dec(sockets[n - 1].local_port as int) + ")"@,
        )
    } else {
        socket_warnings(pid, sockets, n - 1)
    }
}

/// The warnings about a process itself.
pub open spec fn own_warnings(p: ProcessView) -> Seq<Seq<char>> {
    let root = if p.uid == Some(0u32) {
        seq!["pid "@ + num::dec(p.pid as int) + " runs as root"@]
    } else {
        seq![]
    };
    if p.exe_deleted {
        root.push(
            "the binary of pid "@ + num::dec(p.pid as int)
                + " has been deleted from disk (updated in place?)"@,
        )
    } else {
        root
    }
}

/// The warnings about a process, its environment and its sockets.
pub open spec fn risk_warnings(p: ProcessView, sockets: Seq<SocketView>) -> Seq<Seq<char>> {
    own_warnings(p) + match p.env {
        Some(env) => env_warnings(p.pid, env, env.len() as int),
        None => seq![],
    } + socket_warnings(p.pid, sockets, sockets.len() as int)
}

/// Platform-agnostic risk checks over the collected data.
pub fn inspect_risks(p: &Process, sockets: &[Socket], warnings: &mut Vec<String>)
    ensures
        text::texts(final(warnings)@) == text::texts(old(warnings)@) + risk_warnings(
            p@,
            text::views(sockets@),
        ),
{
    broadcast use crate::text::group_views;

    let ghost start = text::texts(warnings@);
    if p.uid == Some(0u32) {
        let mut w = text("pid ");
        w.append(dec_i32(p.pid).as_str());
        w.append(" runs as root");
        warnings.push(w);
    }
    if p.exe_deleted {
        let mut w = text("the binary of pid ");
        w.append(dec_i32(p.pid).as_str());
        w.append(" has been deleted from disk (updated in place?)");
        warnings.push(w);
    }
    assert(text::texts(warnings@) =~= start + own_warnings(p@));
    let ghost own = start + own_warnings(p@);
    if let Some(env) = &p.env {
        let ghost vars = model::vars(env@);
        let mut i: usize = 0;
        assert(own + env_warnings(p.pid, vars, 0) =~= own);
        while i < env.len()
            invariant
                vars == model::vars(env@),
                i <= env@.len(),
                text::texts(warnings@) == own + env_warnings(p.pid, vars, i as int),
            decreases env@.len() - i,
        {
            assert(vars[i as int] == (env@[i as int].0@, env@[i as int].1@));
            if is_injection(env[i].0.as_str(), env[i].1.as_str()) {
                let mut w = text("pid ");
                w.append(dec_i32(p.pid).as_str());
                w.append(" has ");
                w.append(env[i].0.as_str());
                w.append("=");
                w.append(env[i].1.as_str());
                let ghost before = text::texts(warnings@);
                let ghost msg = w@;
                warnings.push(w);
                assert(text::texts(warnings@) == before.push(msg));
                assert(before.push(msg) =~= own + env_warnings(p.pid, vars, i as int).push(msg));
            }
            i += 1;
        }
    }
    let ghost mid = own + match p@.env {
        Some(env) => env_warnings(p.pid, env, env.len() as int),
        None => seq![],
    };
    assert(text::texts(warnings@) =~= mid);
    let ghost socks = text::views(sockets@);
    let mut i: usize = 0;
    assert(mid + socket_warnings(p.pid, socks, 0) =~= mid);
    while i < sockets.len()
        invariant
            socks == text::views(sockets@),
            i <= sockets@.len(),
            text::texts(warnings@) == mid + socket_warnings(p.pid, socks, i as int),
        decreases sockets@.len() - i,
    {
        let s = &sockets[i];
        assert(socks[i as int] == s@);
        if s.pid == Some(p.pid) && (same_str_nocase(s.state.as_str(), "LISTEN") || same_str_nocase(
            s.state.as_str(),
            "LISTENING",
        )) && (same_str(s.local_addr.as_str(), "0.0.0.0") || same_str(s.local_addr.as_str(), "::")
            || same_str(s.local_addr.as_str(), "*")) {
            let mut w = text("pid ");
            w.append(dec_i32(p.pid).as_str());
            w.append(" listens on all interfaces (");
            w.append(s.local_addr.as_str());
            w.append(":");
            w.append(dec_u64(s.local_port as u64).as_str());
            w.append(")");
            let ghost before = text::texts(warnings@);
            let ghost msg = w@;
            warnings.push(w);
            assert(text::texts(warnings@) == before.push(msg));
            assert(before.push(msg) =~= mid + socket_warnings(p.pid, socks, i as int).push(msg));
        }
        i += 1;
    }
    assert(text::texts(warnings@) =~= start + risk_warnings(p@, socks));
}

// ---------- attribution ----------

/// What an ancestor of this name started, when the name says so.
pub open spec fn named_source(p: ProcessView) -> Option<SourceView> {
    let n = p.name;
    if n == "cron"@ || n == "crond"@ || n == "anacron"@ {
        Some(
            SourceView {
                kind: "cron"@,
                label: Some(n),
                detail: Some("scheduled by "@ + n),
            },
        )
    } else if text::starts_with(n, "tmux"@) {
        Some(
            SourceView {
                kind: "tmux"@,
                label: Some(n),
                detail: Some("runs inside a tmux session (pid "@ + num::dec(p.pid as int) + ")"@),
            },
        )
    } else if text::starts_with(n, "screen"@) {
        Some(
            SourceView {
                kind: "screen"@,
                label: Some(n),
                detail: Some("runs inside a screen session (pid "@ + num::dec(p.pid as int) + ")"@),
            },
        )
    } else if text::starts_with(n, "sshd"@) {
        Some(
            SourceView {
                kind: "ssh"@,
                label: Some(n),
                detail: Some(
                    "started via an ssh session (sshd pid "@ + num::dec(p.pid as int) + ")"@,
                ),
            },
        )
    } else {
        None
    }
}

/// The nearest of the first `n` ancestors whose name is a source.
pub open spec fn nearest_named(chain: Seq<ProcessView>, n: int) -> Option<SourceView>
    decreases n,
{
    if n <= 0 {
        None
    } else if named_source(chain[n - 1]) is Some {
        named_source(chain[n - 1])
    } else {
        nearest_named(chain, n - 1)
    }
}

/// Whether a process of this name is a shell.
pub open spec fn is_shell(n: Seq<char>) -> bool {
    n == "zsh"@ || n == "bash"@ || n == "sh"@ || n == "fish"@ || n == "dash"@ || n == "ksh"@ || n
        == "tcsh"@ || n == "pwsh"@ || n == "powershell"@ || n == "cmd"@
}

/// The source read off the names of the ancestors: the nearest cron, tmux,
/// screen or ssh, or else the parent when it is a shell.
pub open spec fn chain_source(chain: Seq<ProcessView>) -> Option<SourceView> {
    let named = nearest_named(chain, chain.len() - 1);
    if named is Some {
        named
    } else if chain.len() >= 2 && is_shell(chain[chain.len() - 2].name) {
        let parent = chain[chain.len() - 2];
        Some(
            SourceView {
                kind: "shell"@,
                label: Some(parent.name),
                detail: Some(
                    "started from a "@ + parent.name + " shell (pid "@ + num::dec(parent.pid as int)
                        + ")"@,
                ),
            },
        )
    } else {
        None
    }
}

fn session(kind: &str, p: &Process, words: &str) -> (r: Source)
    ensures
        r@ == (SourceView {
            kind: kind@,
            label: Some(p@.name),
            detail: Some(words@ + num::dec(p.pid as int) + ")"@),
        }),
{
    let mut d = text(words);
    d.append(dec_i32(p.pid).as_str());
    d.append(")");
    Source { kind: text(kind), label: Some(p.name.clone()), detail: Some(d) }
}

fn source_by_name(p: &Process) -> (r: Option<Source>)
    ensures
        model::opt_source(r) == named_source(p@),
{
    let n = p.name.as_str();
    let c = chars_of(n);
    if same_str(n, "cron") || same_str(n, "crond") || same_str(n, "anacron") {
        let mut d = text("scheduled by ");
        d.append(n);
        Some(Source { kind: text("cron"), label: Some(text(n)), detail: Some(d) })
    } else if begins(c.as_slice(), "tmux") {
        Some(session("tmux", p, "runs inside a tmux session (pid "))
    } else if begins(c.as_slice(), "screen") {
        Some(session("screen", p, "runs inside a screen session (pid "))
    } else if begins(c.as_slice(), "sshd") {
        Some(session("ssh", p, "started via an ssh session (sshd pid "))
    } else {
        None
    }
}

fn shell_name(n: &str) -> (r: bool)
    ensures
        r == is_shell(n@),
{
    same_str(n, "zsh") || same_str(n, "bash") || same_str(n, "sh") || same_str(n, "fish")
        || same_str(n, "dash") || same_str(n, "ksh") || same_str(n, "tcsh") || same_str(n, "pwsh")
        || same_str(n, "powershell") || same_str(n, "cmd")
}

/// cron / tmux / screen / ssh / shell attribution from ancestor names.
pub fn generic_source(chain: &[Process]) -> (r: Option<Source>)
    ensures
        model::opt_source(r) == chain_source(text::views(chain@)),
{
    let ghost all = text::views(chain@);
    if chain.len() == 0 {
        return None;
    }
    let mut n: usize = chain.len() - 1;
    while n > 0
        invariant
            all == text::views(chain@),
            n < chain@.len(),
            nearest_named(all, all.len() - 1) == nearest_named(all, n as int),
        decreases n,
    {
        assert(all[n - 1] == chain@[n - 1]@);
        match source_by_name(&chain[n - 1]) {
            Some(s) => {
                return Some(s);
            },
            None => {},
        }
        n -= 1;
    }
    if chain.len() >= 2 {
        let parent = &chain[chain.len() - 2];
        assert(all[all.len() - 2] == parent@);
        if shell_name(parent.name.as_str()) {
            let mut d = text("started from a ");
            d.append(parent.name.as_str());
            d.append(" shell (pid ");
            d.append(dec_i32(parent.pid).as_str());
            d.append(")");
            return Some(
                Source { kind: text("shell"), label: Some(parent.name.clone()), detail: Some(d) },
            );
        }
    }
    None
}

/// Which source a process has: its container, or else its service unless
/// that is only the init system, or else what the names of its ancestors say.
pub open spec fn best_source(
    container: Option<SourceView>,
    service: Option<SourceView>,
    chain: Seq<ProcessView>,
) -> Option<SourceView> {
    if container is Some {
        container
    } else if service is Some && service->0.kind != "init"@ {
        service
    } else {
        chain_source(chain)
    }
}

/// Attribution, given what the platform knows of the container and the
/// service of the process.
pub fn detect_source(
    container: Option<Source>,
    service: Option<Source>,
    chain: &[Process],
) -> (r: Option<Source>)
    ensures
        model::opt_source(r) == best_source(
            model::opt_source(container),
            model::opt_source(service),
            text::views(chain@),
        ),
{
    if container.is_some() {
        return container;
    }
    match service {
        Some(s) => {
            // a generic "init" answer must not shadow the detectors below
            if !same_str(s.kind.as_str(), "init") {
                return Some(s);
            }
        },
        None => {},
    }
    generic_source(chain)
}

// ---------- reports ----------

/// The first `n` of `ws` without repetitions: each text stands where it first
/// occurs.
pub open spec fn distinct(ws: Seq<Seq<char>>, n: int) -> Seq<Seq<char>>
    decreases n,
{
    if n <= 0 {
        seq![]
    } else if distinct(ws, n - 1).contains(ws[n - 1]) {
        distinct(ws, n - 1)
    } else {
        distinct(ws, n - 1).push(ws[n - 1])
    }
}

fn has_text(v: &Vec<String>, s: &str) -> (r: bool)
    ensures
        r == text::texts(v@).contains(s@),
{
    let mut i: usize = 0;
    while i < v.len()
        invariant
            i <= v@.len(),
            forall|j: int| 0 <= j < i ==> text::texts(v@)[j] != s@,
        decreases v@.len() - i,
    {
        assert(text::texts(v@)[i as int] == v@[i as int]@);
        if same_str(v[i].as_str(), s) {
            return true;
        }
        i += 1;
    }
    false
}

fn without_repetitions(ws: &Vec<String>) -> (r: Vec<String>)
    ensures
        text::texts(r@) == distinct(text::texts(ws@), ws@.len() as int),
{
    broadcast use crate::text::group_views;

    let ghost all = text::texts(ws@);
    let mut out: Vec<String> = Vec::new();
    let mut i: usize = 0;
    while i < ws.len()
        invariant
            all == text::texts(ws@),
            i <= ws@.len(),
            text::texts(out@) == distinct(all, i as int),
        decreases ws@.len() - i,
    {
        assert(all[i as int] == ws@[i as int]@);
        if !has_text(&out, ws[i].as_str()) {
            out.push(ws[i].clone());
        }
        i += 1;
    }
    out
}

/// The report on one process.
pub open spec fn traced(
    m: Map<Pid, ProcessView>,
    spec: TargetSpecView,
    pid: Pid,
    sockets: Seq<SocketView>,
    shared: Seq<Seq<char>>,
    detailed: ProcessView,
    container: Option<SourceView>,
    service: Option<SourceView>,
) -> TargetReportView {
    let trail = ancestry::climb(m, seq![], pid, MAX_DEPTH as int);
    let chain = ancestry::root_first(m, trail.pids);
    let warnings = shared + ancestry::trail_warnings(trail) + risk_warnings(detailed, sockets);
    TargetReportView {
        target: spec,
        found: true,
        error: None,
        matches: seq![detailed],
        ancestry: chain,
        children: ancestry::children_of(m, pid),
        source: best_source(container, service, chain),
        sockets,
        warnings: distinct(warnings, warnings.len() as int),
        risk: Some(risk::graded(risk::findings(detailed, sockets))),
    }
}

/// The report on one process of the table, from its details and from what the
/// platform knows of its container and its service. `shared` are the warnings
/// about the target as a whole.
pub fn report(
    map: &HashMap<Pid, Process>,
    spec: &TargetSpec,
    pid: Pid,
    sockets: &Vec<Socket>,
    shared: &Vec<String>,
    detailed: Process,
    container: Option<Source>,
    service: Option<Source>,
) -> (r: TargetReport)
    ensures
        r@ == traced(
            ancestry::table(map@),
            spec@,
            pid,
            text::views(sockets@),
            text::texts(shared@),
            detailed@,
            model::opt_source(container),
            model::opt_source(service),
        ),
{
    broadcast use crate::text::group_views;

    let ghost m = ancestry::table(map@);
    let ghost want = traced(
        m,
        spec@,
        pid,
        text::views(sockets@),
        text::texts(shared@),
        detailed@,
        model::opt_source(container),
        model::opt_source(service),
    );
    let anc = build_ancestry(map, pid, MAX_DEPTH);
    let mut warnings = copy_texts(shared);
    let mut i: usize = 0;
    let ghost first = text::texts(shared@);
    let ghost trail = text::texts(anc.warnings@);
    assert(first + trail.take(0) =~= first);
    while i < anc.warnings.len()
        invariant
            trail == text::texts(anc.warnings@),
            i <= anc.warnings@.len(),
            text::texts(warnings@) == first + trail.take(i as int),
        decreases anc.warnings@.len() - i,
    {
        let ghost before = text::texts(warnings@);
        assert(trail[i as int] == anc.warnings@[i as int]@);
        warnings.push(anc.warnings[i].clone());
        assert(text::texts(warnings@) == before.push(trail[i as int]));
        assert(before.push(trail[i as int]) =~= first + trail.take(i + 1));
        i += 1;
    }
    assert(trail.take(i as int) =~= trail);
    inspect_risks(&detailed, sockets.as_slice(), &mut warnings);
    let assessed = assess(&detailed, sockets.as_slice());
    let source = detect_source(container, service, anc.chain.as_slice());
    let children = direct_children(map, pid);
    let ghost all = text::texts(warnings@);
    assert(all.len() == warnings@.len());
    let warnings = without_repetitions(&warnings);
    let ghost dv = detailed@;
    let mut matches: Vec<Process> = Vec::new();
    matches.push(detailed);
    let r = TargetReport {
        target: spec.clone(),
        found: true,
        error: None,
        matches,
        ancestry: anc.chain,
        children,
        source,
        sockets: copy_sockets(sockets),
        warnings,
        risk: Some(assessed),
    };
    assert(r@.matches =~= seq![dv]);
    assert(r@ =~= want);
    r
}

/// The pids among the first `n` that the table has.
pub open spec fn in_table(m: Map<Pid, ProcessView>, pids: Seq<Pid>, n: int) -> Seq<Pid>
    decreases n,
{
    if n <= 0 {
        seq![]
    } else if m.contains_key(pids[n - 1]) {
        in_table(m, pids, n - 1).push(pids[n - 1])
    } else {
        in_table(m, pids, n - 1)
    }
}

/// The pids that the table has, in their order: those that can be traced.
pub fn traceable(map: &HashMap<Pid, Process>, pids: &Vec<Pid>) -> (r: Vec<Pid>)
    ensures
        r@ == in_table(ancestry::table(map@), pids@, pids@.len() as int),
{
    let ghost m = ancestry::table(map@);
    let mut out: Vec<Pid> = Vec::new();
    let mut i: usize = 0;
    assert(out@ =~= seq![]);
    while i < pids.len()
        invariant
            m == ancestry::table(map@),
            i <= pids@.len(),
            out@ == in_table(m, pids@, i as int),
        decreases pids@.len() - i,
    {
        if map.contains_key(&pids[i]) {
            out.push(pids[i]);
        }
        i += 1;
    }
    out
}

/// What the platform found out about one process.
pub struct Findings {
    pub detailed: Process,
    pub container: Option<Source>,
    pub service: Option<Source>,
}

/// What [`Findings`] show.
#[verifier::ext_equal]
pub struct FindingsView {
    pub detailed: ProcessView,
    pub container: Option<SourceView>,
    pub service: Option<SourceView>,
}

impl View for Findings {
    type V = FindingsView;

    open spec fn view(&self) -> FindingsView {
        FindingsView {
            detailed: self.detailed@,
            container: model::opt_source(self.container),
            service: model::opt_source(self.service),
        }
    }
}

fn copy_source(s: &Option<Source>) -> (r: Option<Source>)
    ensures
        model::opt_source(r) == model::opt_source(*s),
{
    match s {
        Some(x) => Some(x.clone()),
        None => None,
    }
}

/// One target may resolve to several pids; each pid gets its own report so
/// ancestry and source are never shared between different processes. `found`
/// holds what the platform found out about each of them.
pub fn analyze(
    map: &HashMap<Pid, Process>,
    spec: &TargetSpec,
    pids: &Vec<Pid>,
    sockets: &Vec<Socket>,
    shared: &Vec<String>,
    found: &Vec<Findings>,
) -> (r: Vec<TargetReport>)
    requires
        found@.len() == pids@.len(),
    ensures
        r@.len() == pids@.len(),
        forall|i: int|
            0 <= i < r@.len() ==> (#[trigger] r@[i])@ == traced(
                ancestry::table(map@),
                spec@,
                pids@[i],
                text::views(sockets@),
                text::texts(shared@),
                found@[i]@.detailed,
                found@[i]@.container,
                found@[i]@.service,
            ),
{
    let mut out: Vec<TargetReport> = Vec::new();
    let mut n: usize = 0;
    while n < pids.len()
        invariant
            found@.len() == pids@.len(),
            n <= pids@.len(),
            out@.len() == n,
            forall|i: int|
                0 <= i < n ==> (#[trigger] out@[i])@ == traced(
                    ancestry::table(map@),
                    spec@,
                    pids@[i],
                    text::views(sockets@),
                    text::texts(shared@),
                    found@[i]@.detailed,
                    found@[i]@.container,
                    found@[i]@.service,
                ),
        decreases pids@.len() - n,
    {
        let f = &found[n];
        out.push(
            report(
                map,
                spec,
                pids[n],
                sockets,
                shared,
                f.detailed.clone(),
                copy_source(&f.container),
                copy_source(&f.service),
            ),
        );
        n += 1;
    }
    out
}

/// The reports when no process could be listed: one for each target, with the
/// reason.
pub fn unlisted(specs: &Vec<TargetSpec>, error: &str) -> (r: Vec<TargetReport>)
    ensures
        r@.len() == specs@.len(),
        forall|i: int|
            0 <= i < r@.len() ==> (#[trigger] r@[i])@ == TargetReportView::missing(
                specs@[i]@,
                error@,
            ),
{
    let mut out: Vec<TargetReport> = Vec::new();
    let mut n: usize = 0;
    while n < specs.len()
        invariant
            n <= specs@.len(),
            out@.len() == n,
            forall|i: int|
                0 <= i < n ==> (#[trigger] out@[i])@ == TargetReportView::missing(
                    specs@[i]@,
                    error@,
                ),
        decreases specs@.len() - n,
    {
        out.push(TargetReport::not_found(specs[n].clone(), text(error)));
        n += 1;
    }
    out
}

proof fn distinct_covers(ws: Seq<Seq<char>>, n: int)
    requires
        0 <= n <= ws.len(),
    ensures
        distinct(ws, n).no_duplicates(),
        forall|w: Seq<char>| #[trigger]
            distinct(ws, n).contains(w) <==> exists|i: int| 0 <= i < n && #[trigger] ws[i] == w,
    decreases n,
{
    if n > 0 {
        distinct_covers(ws, n - 1);
        let d = distinct(ws, n - 1);
        assert forall|w: Seq<char>| #[trigger]
            distinct(ws, n).contains(w) implies exists|i: int| 0 <= i < n && #[trigger] ws[i] == w by {
            if d.contains(w) {
                let i = choose|i: int| 0 <= i < n - 1 && #[trigger] ws[i] == w;
                assert(ws[i] == w);
            } else {
                assert(ws[n - 1] == w);
            }
        }
        assert forall|w: Seq<char>|
            (exists|i: int| 0 <= i < n && #[trigger] ws[i] == w) implies #[trigger] distinct(
            ws,
            n,
        ).contains(w) by {
            let i = choose|i: int| 0 <= i < n && #[trigger] ws[i] == w;
            if i < n - 1 {
                assert(ws[i] == w);
                assert(d.contains(w));
                let k = choose|k: int| 0 <= k < d.len() && d[k] == w;
                if !d.contains(ws[n - 1]) {
                    assert(d.push(ws[n - 1])[k] == w);
                }
            } else if !d.contains(w) {
                assert(d.push(w)[d.len() as int] == w);
            }
        }
    }
}

/// The warnings of a report repeat nothing and leave nothing out: they hold
/// exactly the warnings about the target, the ancestry and the risks.
pub proof fn warnings_are_distinct_and_complete(
    m: Map<Pid, ProcessView>,
    spec: TargetSpecView,
    pid: Pid,
    sockets: Seq<SocketView>,
    shared: Seq<Seq<char>>,
    detailed: ProcessView,
    container: Option<SourceView>,
    service: Option<SourceView>,
)
    ensures
        ({
            let ws = traced(m, spec, pid, sockets, shared, detailed, container, service).warnings;
            let all = shared + ancestry::trail_warnings(
                ancestry::climb(m, seq![], pid, MAX_DEPTH as int),
            ) + risk_warnings(detailed, sockets);
            &&& ws.no_duplicates()
            &&& forall|w: Seq<char>| #[trigger] ws.contains(w) <==> all.contains(w)
        }),
{
    let all = shared + ancestry::trail_warnings(
        ancestry::climb(m, seq![], pid, MAX_DEPTH as int),
    ) + risk_warnings(detailed, sockets);
    distinct_covers(all, all.len() as int);
    let ws = distinct(all, all.len() as int);
    assert forall|w: Seq<char>| #[trigger] ws.contains(w) implies all.contains(w) by {
        let i = choose|i: int| 0 <= i < all.len() && #[trigger] all[i] == w;
        assert(all[i] == w);
    }
}

/// A container decides over everything else, and an answer that only names
/// the init system decides nothing.
pub proof fn init_never_shadows(
    container: Option<SourceView>,
    service: Option<SourceView>,
    chain: Seq<ProcessView>,
)
    ensures
        container is Some ==> best_source(container, service, chain) == container,
        container is None && service is Some && service->0.kind == "init"@ ==> best_source(
            container,
            service,
            chain,
        ) == best_source(None, None, chain),
{
}

/// Attribution goes by priority: the container, then the service manager, then
/// cron, tmux, screen or ssh anywhere among the ancestors, then a shell as the
/// parent.
pub proof fn attribution_follows_priority(
    container: Option<SourceView>,
    service: Option<SourceView>,
    chain: Seq<ProcessView>,
    i: int,
)
    ensures
        container is Some ==> best_source(container, service, chain) == container,
        container is None && service is Some && service->0.kind != "init"@ ==> best_source(
            container,
            service,
            chain,
        ) == service,
        container is None && service is None && 0 <= i < chain.len() - 1 && named_source(
            chain[i],
        ) is Some ==> best_source(container, service, chain) is Some && best_source(
            container,
            service,
            chain,
        )->0.kind != "shell"@,
{
    if 0 <= i < chain.len() - 1 && named_source(chain[i]) is Some {
        nearest_is_named(chain, i, chain.len() - 1);
    }
}

proof fn nearest_is_named(chain: Seq<ProcessView>, i: int, n: int)
    requires
        0 <= i < n,
        named_source(chain[i]) is Some,
    ensures
        nearest_named(chain, n) is Some,
        nearest_named(chain, n)->0.kind != "shell"@,
    decreases n,
{
    reveal_strlit("cron");
    reveal_strlit("tmux");
    reveal_strlit("screen");
    reveal_strlit("ssh");
    reveal_strlit("shell");
    if named_source(chain[n - 1]) is None {
        nearest_is_named(chain, i, n - 1);
    } else {
        let kind = named_source(chain[n - 1])->0.kind;
        assert(kind.len() != 5);
    }
}

/// The nearest interesting ancestor wins: nothing between it and the process
/// itself has a name that is a source.
pub proof fn nearest_ancestor_wins(chain: Seq<ProcessView>, i: int)
    requires
        0 <= i < chain.len() - 1,
        named_source(chain[i]) is Some,
        forall|j: int| i < j < chain.len() - 1 ==> named_source(#[trigger] chain[j]) is None,
    ensures
        chain_source(chain) == named_source(chain[i]),
{
    nearest_is(chain, i, chain.len() - 1);
}

proof fn nearest_is(chain: Seq<ProcessView>, i: int, n: int)
    requires
        0 <= i < n <= chain.len() - 1,
        named_source(chain[i]) is Some,
        forall|j: int| i < j < chain.len() - 1 ==> named_source(#[trigger] chain[j]) is None,
    ensures
        nearest_named(chain, n) == named_source(chain[i]),
    decreases n,
{
    if n - 1 > i {
        assert(named_source(chain[n - 1]) is None);
        nearest_is(chain, i, n - 1);
    }
}

// ---------- laws of resolving ----------

proof fn snapshot_holds_the_last(procs: Seq<ProcessView>, n: int)
    requires
        0 <= n <= procs.len(),
    ensures
        snapshot_of(procs, n).dom().finite(),
        forall|k: Pid| #[trigger]
            snapshot_of(procs, n).contains_key(k) ==> exists|i: int|
                0 <= i < n && procs[i].pid == k && snapshot_of(procs, n)[k] == #[trigger] procs[i]
                    && forall|j: int| i < j < n ==> (#[trigger] procs[j]).pid != k,
    decreases n,
{
    if n > 0 {
        snapshot_holds_the_last(procs, n - 1);
        let a = snapshot_of(procs, n - 1);
        let b = snapshot_of(procs, n);
        assert forall|k: Pid| #[trigger] b.contains_key(k) implies exists|i: int|
            0 <= i < n && procs[i].pid == k && b[k] == #[trigger] procs[i] && forall|j: int|
                i < j < n ==> (#[trigger] procs[j]).pid != k by {
            if k == procs[n - 1].pid {
                assert(b[k] == procs[n - 1]);
            } else {
                assert(a.contains_key(k));
                let i = choose|i: int|
                    0 <= i < n - 1 && procs[i].pid == k && a[k] == #[trigger] procs[i] && forall|
                        j: int,
                    |
                        i < j < n - 1 ==> (#[trigger] procs[j]).pid != k;
                assert(b[k] == procs[i]);
            }
        }
    }
}

/// A snapshot holds the listed processes and no others: under each pid the
/// last that was listed with it.
pub proof fn snapshot_holds_what_is_listed(procs: Seq<ProcessView>, pid: Pid)
    ensures
        ({
            let m = snapshot_of(procs, procs.len() as int);
            &&& m.dom().finite()
            &&& ancestry::keyed_by_pid(m)
            &&& m.contains_key(pid) <==> exists|i: int|
                0 <= i < procs.len() && (#[trigger] procs[i]).pid == pid
            &&& m.contains_key(pid) ==> exists|i: int|
                0 <= i < procs.len() && procs[i].pid == pid && m[pid] == #[trigger] procs[i]
                    && forall|j: int|
                    i < j < procs.len() ==> (#[trigger] procs[j]).pid != pid
        }),
{
    snapshot_keys(procs, procs.len() as int);
    snapshot_holds_the_last(procs, procs.len() as int);
}

/// Whether `p` stands in `s`, with something or nothing around it.
pub open spec fn stands_in(p: Seq<char>, s: Seq<char>) -> bool {
    exists|a: Seq<char>, b: Seq<char>| s == #[trigger] (a + p + b)
}

/// Whether a process is meant by a name: by its whole name, where only the
/// case of ASCII letters may differ, or by a part of its name or its path in
/// any case.
pub open spec fn is_meant(p: ProcessView, pattern: Seq<char>, exact: bool) -> bool {
    if exact {
        &&& p.name.len() == pattern.len()
        &&& forall|i: int|
            0 <= i < pattern.len() ==> {
                ||| #[trigger] p.name[i] == pattern[i]
                ||| 'A' <= p.name[i] <= 'Z' && pattern[i] as u32 == p.name[i] as u32 + 32
                ||| 'A' <= pattern[i] <= 'Z' && p.name[i] as u32 == pattern[i] as u32 + 32
            }
    } else {
        let needle = text::unicode_lower(pattern);
        ||| stands_in(needle, text::unicode_lower(p.name))
        ||| p.exe is Some && stands_in(needle, text::unicode_lower(p.exe->0))
    }
}

proof fn hit_is_meant(p: ProcessView, pattern: Seq<char>, exact: bool)
    ensures
        name_hit(p, pattern, exact) <==> is_meant(p, pattern, exact),
{
    text::ignoring_case_is_by_letter(p.name, pattern);
    let needle = text::unicode_lower(pattern);
    text::holding_is_standing_between(text::unicode_lower(p.name), needle);
    if p.exe is Some {
        text::holding_is_standing_between(text::unicode_lower(p.exe->0), needle);
    }
}

proof fn hits_are_meant(
    m: Map<Pid, ProcessView>,
    ks: Seq<Pid>,
    pattern: Seq<char>,
    exact: bool,
    n: int,
)
    requires
        ancestry::is_key_order(m, ks),
        ancestry::keyed_by_pid(m),
        0 <= n <= ks.len(),
    ensures
        ({
            let h = hits_among(m, ks, pattern, exact, n);
            &&& forall|i: int|
                0 <= i < h.len() ==> m.contains_key(#[trigger] h[i]) && is_meant(
                    m[h[i]],
                    pattern,
                    exact,
                )
            &&& forall|i: int|
                0 <= i < n && is_meant(m[#[trigger] ks[i]], pattern, exact) ==> h.contains(ks[i])
            &&& forall|i: int, j: int| 0 <= i < j < h.len() ==> #[trigger] h[i] < #[trigger] h[j]
            &&& n < ks.len() ==> forall|i: int| 0 <= i < h.len() ==> #[trigger] h[i] < ks[n]
        }),
    decreases n,
{
    if n > 0 {
        hits_are_meant(m, ks, pattern, exact, n - 1);
        let g = hits_among(m, ks, pattern, exact, n - 1);
        let h = hits_among(m, ks, pattern, exact, n);
        let k = ks[n - 1];
        assert(ks.contains(k));
        assert(m.contains_key(k));
        hit_is_meant(m[k], pattern, exact);
        if n < ks.len() {
            assert(ancestry::earlier(m, ks[n - 1], ks[n]));
            assert(ks.contains(ks[n]));
            assert(m.contains_key(ks[n]));
        }
        assert forall|i: int| 0 <= i < h.len() implies m.contains_key(#[trigger] h[i]) && is_meant(
            m[h[i]],
            pattern,
            exact,
        ) by {
            if i < g.len() {
                assert(h[i] == g[i]);
            }
        }
        assert forall|i: int|
            0 <= i < n && is_meant(m[#[trigger] ks[i]], pattern, exact) implies h.contains(
            ks[i],
        ) by {
            if i < n - 1 {
                assert(g.contains(ks[i]));
                let x = choose|x: int| 0 <= x < g.len() && g[x] == ks[i];
                assert(h[x] == ks[i]);
            } else {
                assert(h[g.len() as int] == ks[i]);
            }
        }
        assert forall|i: int, j: int| 0 <= i < j < h.len() implies #[trigger] h[i]
            < #[trigger] h[j] by {
            assert(h[i] == g[i]);
            if j < g.len() {
                assert(h[j] == g[j]);
            }
        }
        assert forall|i: int| 0 <= i < h.len() && n < ks.len() implies #[trigger] h[i] < ks[n] by {
            if i < g.len() {
                assert(h[i] == g[i]);
            }
        }
    }
}

/// The processes that fit a name are exactly those of the table that it means,
/// from the lowest pid up.
pub proof fn hits_are_the_meant_processes(
    m: Map<Pid, ProcessView>,
    pattern: Seq<char>,
    exact: bool,
)
    requires
        m.dom().finite(),
        ancestry::keyed_by_pid(m),
    ensures
        ({
            let h = name_hits(m, pattern, exact);
            &&& forall|k: Pid| #[trigger]
                h.contains(k) <==> m.contains_key(k) && is_meant(m[k], pattern, exact)
            &&& forall|i: int, j: int| 0 <= i < j < h.len() ==> #[trigger] h[i] < #[trigger] h[j]
        }),
{
    ancestry::tables_have_an_order(m);
    let ks = ancestry::key_order(m);
    hits_are_meant(m, ks, pattern, exact, ks.len() as int);
    let h = name_hits(m, pattern, exact);
    assert forall|k: Pid| #[trigger] h.contains(k) <==> m.contains_key(k) && is_meant(
        m[k],
        pattern,
        exact,
    ) by {
        if h.contains(k) {
            let i = choose|i: int| 0 <= i < h.len() && h[i] == k;
            assert(m.contains_key(h[i]));
        }
        if m.contains_key(k) && is_meant(m[k], pattern, exact) {
            assert(ks.contains(k));
            let i = choose|i: int| 0 <= i < ks.len() && ks[i] == k;
            assert(h.contains(ks[i]));
        }
    }
}

/// A name target gives the processes of the table that it means, from the
/// lowest pid up and at most `max` of them. One that is missing comes after
/// all that are there, and then a warning tells how many there are. Where none
/// is given, the error says so, and else there is none.
pub proof fn name_target_finds_the_meant_processes(
    m: Map<Pid, ProcessView>,
    pattern: Seq<char>,
    exact: bool,
    caps: Capabilities,
    max: int,
    lookup: Lookup,
)
    requires
        m.dom().finite(),
        ancestry::keyed_by_pid(m),
        max >= 0,
    ensures
        ({
            let r = resolution(m, TargetSpecView::Name { pattern, exact }, caps, max, lookup);
            &&& r.pids.len() <= max
            &&& forall|i: int, j: int|
                0 <= i < j < r.pids.len() ==> #[trigger] r.pids[i] < #[trigger] r.pids[j]
            &&& forall|k: Pid| #[trigger]
                r.pids.contains(k) ==> m.contains_key(k) && is_meant(m[k], pattern, exact)
            &&& forall|k: Pid| #[trigger]
                m.contains_key(k) && is_meant(m[k], pattern, exact) && !r.pids.contains(k) ==> {
                    &&& r.pids.len() == max
                    &&& forall|i: int| 0 <= i < max ==> #[trigger] r.pids[i] < k
                    &&& r.warnings == seq![
                        num::dec(name_hits(m, pattern, exact).len() as int) + " processes match \""@
                            + pattern + "\"; showing the first "@ + num::dec(max),
                    ]
                }
            &&& r.warnings.len() > 0 ==> exists|k: Pid| #[trigger]
                m.contains_key(k) && is_meant(m[k], pattern, exact) && !r.pids.contains(k)
            &&& r.sockets.len() == 0
            &&& r.error == if r.pids.len() > 0 {
                None
            } else if exact {
                Some("no process "@ + "named"@ + " \""@ + pattern + "\""@)
            } else {
                Some("no process "@ + "matching"@ + " \""@ + pattern + "\""@)
            }
        }),
{
    hits_are_the_meant_processes(m, pattern, exact);
    let h = name_hits(m, pattern, exact);
    let r = resolution(m, TargetSpecView::Name { pattern, exact }, caps, max, lookup);
    assert forall|k: Pid| #[trigger] r.pids.contains(k) implies m.contains_key(k) && is_meant(
        m[k],
        pattern,
        exact,
    ) by {
        let i = choose|i: int| 0 <= i < r.pids.len() && r.pids[i] == k;
        assert(h[i] == k);
        assert(h.contains(k));
    }
    assert forall|k: Pid| #[trigger]
        m.contains_key(k) && is_meant(m[k], pattern, exact) && !r.pids.contains(k) implies {
        &&& r.pids.len() == max
        &&& forall|i: int| 0 <= i < max ==> #[trigger] r.pids[i] < k
        &&& h.len() > max
    } by {
        assert(h.contains(k));
        let x = choose|x: int| 0 <= x < h.len() && h[x] == k;
        if h.len() <= max || x < max {
            assert(r.pids[x] == k);
        }
        assert forall|i: int| 0 <= i < max implies #[trigger] r.pids[i] < k by {
            assert(r.pids[i] == h[i]);
        }
    }
    if r.warnings.len() > 0 {
        let k = h[max];
        assert(h.contains(k));
        if r.pids.contains(k) {
            let i = choose|i: int| 0 <= i < r.pids.len() && r.pids[i] == k;
            assert(h[i] == k);
        }
        assert(m.contains_key(k));
    }
}

/// A pid target gives that process where the table has it, and else an error.
pub proof fn pid_target_is_that_process(
    m: Map<Pid, ProcessView>,
    pid: Pid,
    caps: Capabilities,
    max: int,
    lookup: Lookup,
)
    ensures
        ({
            let r = resolution(m, TargetSpecView::Pid { pid }, caps, max, lookup);
            &&& m.contains_key(pid) ==> r.pids == seq![pid] && r.error is None
            &&& !m.contains_key(pid) ==> r.pids.len() == 0 && r.error == Some(
                "no process with pid "@ + num::dec(pid as int)
                    + " (already exited, or not visible to this user)"@,
            )
            &&& r.sockets.len() == 0
            &&& r.warnings.len() == 0
        }),
{
}

/// Whether the first socket of `p` comes before all of `q`.
pub open spec fn seen_before(sockets: Seq<SocketView>, p: Pid, q: Pid) -> bool {
    exists|i: int|
        0 <= i < sockets.len() && (#[trigger] sockets[i]).pid == Some(p) && forall|j: int|
            0 <= j <= i ==> (#[trigger] sockets[j]).pid != Some(q)
}

proof fn owners_own(sockets: Seq<SocketView>, n: int)
    requires
        0 <= n <= sockets.len(),
    ensures
        owners(sockets, n).no_duplicates(),
        forall|p: Pid| #[trigger]
            owners(sockets, n).contains(p) <==> exists|i: int|
                0 <= i < n && (#[trigger] sockets[i]).pid == Some(p),
        forall|a: int, b: int|
            0 <= a < b < owners(sockets, n).len() ==> seen_before(
                sockets.take(n),
                #[trigger] owners(sockets, n)[a],
                #[trigger] owners(sockets, n)[b],
            ),
        orphans(sockets, n) == sockets.take(n).filter(|s: SocketView| s.pid is None).len(),
    decreases n,
{
    reveal(Seq::filter);
    if n > 0 {
        owners_own(sockets, n - 1);
        let o = owners(sockets, n - 1);
        let q = owners(sockets, n);
        assert(sockets.take(n).drop_last() =~= sockets.take(n - 1));
        assert(sockets.take(n).last() == sockets[n - 1]);
        assert forall|p: Pid| #[trigger] q.contains(p) <==> exists|i: int|
            0 <= i < n && (#[trigger] sockets[i]).pid == Some(p) by {
            if q.contains(p) {
                let x = choose|x: int| 0 <= x < q.len() && q[x] == p;
                if x < o.len() {
                    assert(o[x] == p);
                    assert(o.contains(p));
                } else {
                    assert(sockets[n - 1].pid == Some(p));
                }
            }
            if exists|i: int| 0 <= i < n && (#[trigger] sockets[i]).pid == Some(p) {
                let i = choose|i: int| 0 <= i < n && (#[trigger] sockets[i]).pid == Some(p);
                if i < n - 1 {
                    assert(o.contains(p));
                    let x = choose|x: int| 0 <= x < o.len() && o[x] == p;
                    assert(q[x] == p);
                } else if !o.contains(p) {
                    assert(q[o.len() as int] == p);
                } else {
                    let x = choose|x: int| 0 <= x < o.len() && o[x] == p;
                    assert(q[x] == p);
                }
            }
        }
        assert forall|a: int, b: int| 0 <= a < b < q.len() implies seen_before(
            sockets.take(n),
            #[trigger] q[a],
            #[trigger] q[b],
        ) by {
            let now = sockets.take(n);
            let was = sockets.take(n - 1);
            assert(q[a] == o[a]);
            if b < o.len() {
                assert(q[b] == o[b]);
                assert(seen_before(was, o[a], o[b]));
                let i = choose|i: int|
                    0 <= i < was.len() && (#[trigger] was[i]).pid == Some(o[a]) && forall|j: int|
                        0 <= j <= i ==> (#[trigger] was[j]).pid != Some(o[b]);
                assert(now[i].pid == Some(q[a]));
                assert forall|j: int| 0 <= j <= i implies (#[trigger] now[j]).pid != Some(q[b]) by {
                    assert(was[j].pid != Some(o[b]));
                }
            } else {
                assert(o.contains(o[a]));
                let i = choose|i: int| 0 <= i < n - 1 && (#[trigger] sockets[i]).pid == Some(o[a]);
                assert(now[i].pid == Some(q[a]));
                assert forall|j: int| 0 <= j <= i implies (#[trigger] now[j]).pid != Some(q[b]) by {
                    if sockets[j].pid == Some(q[b]) {
                        assert(o.contains(q[b]));
                    }
                }
            }
        }
    }
}

/// A port target gives the sockets that were found and each of their owners
/// once, in the order of their first socket. Sockets without one are counted
/// in a warning, and where none has one the error says so.
pub proof fn port_target_names_the_owners(
    m: Map<Pid, ProcessView>,
    port: u16,
    caps: Capabilities,
    max: int,
    lookup: Lookup,
)
    requires
        lookup is Sockets,
        lookup->Sockets_0 is Ok,
    ensures
        ({
            let sockets = text::views(lookup->Sockets_0->Ok_0@);
            let lone = sockets.filter(|s: SocketView| s.pid is None).len();
            let r = resolution(m, TargetSpecView::Port { port }, caps, max, lookup);
            &&& r.sockets == sockets
            &&& r.pids.no_duplicates()
            &&& forall|p: Pid| #[trigger]
                r.pids.contains(p) <==> exists|i: int|
                    0 <= i < sockets.len() && (#[trigger] sockets[i]).pid == Some(p)
            &&& forall|a: int, b: int|
                0 <= a < b < r.pids.len() ==> seen_before(
                    sockets,
                    #[trigger] r.pids[a],
                    #[trigger] r.pids[b],
                )
            &&& r.warnings == if lone > 0 {
                seq![
                    num::dec(lone as int) + " socket(s) on port "@ + num::dec(port as int)
                        + " have no owning process visible to this user — run with sudo to see them"@,
                ]
            } else {
                seq![]
            }
            &&& r.error == if sockets.len() == 0 {
                Some("nothing is using port "@ + num::dec(port as int) + " (no tcp/udp socket)"@)
            } else if r.pids.len() == 0 {
                Some(
                    "port "@ + num::dec(port as int)
                        + " is only held by sockets no process owns (kernel/time-wait)"@,
                )
            } else {
                None
            }
        }),
{
    reveal(Seq::filter);
    let sockets = text::views(lookup->Sockets_0->Ok_0@);
    owners_own(sockets, sockets.len() as int);
    assert(sockets.take(sockets.len() as int) =~= sockets);
    let r = resolution(m, TargetSpecView::Port { port }, caps, max, lookup);
    if sockets.len() == 0 {
        assert(r.sockets =~= sockets);
        assert(sockets.filter(|s: SocketView| s.pid is None).len() == 0);
        assert(r.pids.len() == 0);
        assert(r.warnings =~= seq![]);
    } else {
        assert(r.pids == owners(sockets, sockets.len() as int));
    }
}

/// A file target gives the processes that hold the file, as they were found.
/// Where the platform cannot look files up, a warning says so.
pub proof fn file_target_names_the_holders(
    m: Map<Pid, ProcessView>,
    path: Seq<char>,
    caps: Capabilities,
    max: int,
    lookup: Lookup,
)
    requires
        lookup is Holders,
    ensures
        ({
            let r = resolution(m, TargetSpecView::File { path }, caps, max, lookup);
            match lookup->Holders_0 {
                Ok(pids) => {
                    &&& r.pids == pids@
                    &&& r.error == if pids@.len() == 0 {
                        Some("no process holds "@ + path + " open"@)
                    } else {
                        None
                    }
                    &&& r.warnings.len() == 0
                },
                Err(e) => {
                    &&& r.pids.len() == 0
                    &&& r.error == Some("file lookup failed: "@ + e@.words())
                    &&& r.warnings == if caps.file_lookup {
                        seq![]
                    } else {
                        seq!["file lookup is not supported on this platform"@]
                    }
                },
            }
        }),
{
}

/// Of the pids found, those that the table has can be traced, in their order.
pub proof fn traceable_are_in_the_table(m: Map<Pid, ProcessView>, pids: Seq<Pid>, n: int)
    requires
        0 <= n <= pids.len(),
    ensures
        in_table(m, pids, n) == pids.take(n).filter(|p: Pid| m.contains_key(p)),
    decreases n,
{
    reveal(Seq::filter);
    if n > 0 {
        traceable_are_in_the_table(m, pids, n - 1);
        assert(pids.take(n).drop_last() =~= pids.take(n - 1));
        assert(pids.take(n).last() == pids[n - 1]);
    }
}

// ---------- laws of the warnings ----------

proof fn env_warnings_name_injections(
    pid: Pid,
    env: Seq<(Seq<char>, Seq<char>)>,
    n: int,
    w: Seq<char>,
)
    requires
        0 <= n <= env.len(),
    ensures
        env_warnings(pid, env, n).contains(w) <==> exists|i: int|
            {
                &&& 0 <= i < n
                &&& text::same_ignoring_case((#[trigger] env[i]).0, "LD_PRELOAD"@)
                    || text::same_ignoring_case(env[i].0, "DYLD_INSERT_LIBRARIES"@)
                &&& env[i].1.len() > 0
                &&& w == "pid "@ + num::dec(pid as int) + " has "@ + env[i].0 + "="@ + env[i].1
            },
    decreases n,
{
    if n > 0 {
        env_warnings_name_injections(pid, env, n - 1, w);
        let a = env_warnings(pid, env, n - 1);
        let e = env[n - 1];
        let msg = "pid "@ + num::dec(pid as int) + " has "@ + e.0 + "="@ + e.1;
        pushed_text(a, msg, w);
        if a.contains(w) {
            let i = choose|i: int|
                {
                    &&& 0 <= i < n - 1
                    &&& text::same_ignoring_case((#[trigger] env[i]).0, "LD_PRELOAD"@)
                        || text::same_ignoring_case(env[i].0, "DYLD_INSERT_LIBRARIES"@)
                    &&& env[i].1.len() > 0
                    &&& w == "pid "@ + num::dec(pid as int) + " has "@ + env[i].0 + "="@ + env[i].1
                };
            assert(0 <= i < n && w == "pid "@ + num::dec(pid as int) + " has "@ + env[i].0 + "="@
                + env[i].1);
        }
    }
}

proof fn pushed_text(a: Seq<Seq<char>>, x: Seq<char>, w: Seq<char>)
    ensures
        a.push(x).contains(w) <==> a.contains(w) || x == w,
{
    if a.contains(w) {
        let i = choose|i: int| 0 <= i < a.len() && a[i] == w;
        assert(a.push(x)[i] == w);
    }
    if x == w {
        assert(a.push(x)[a.len() as int] == w);
    }
}

proof fn added_texts(a: Seq<Seq<char>>, b: Seq<Seq<char>>, w: Seq<char>)
    ensures
        (a + b).contains(w) <==> a.contains(w) || b.contains(w),
{
    if a.contains(w) {
        let i = choose|i: int| 0 <= i < a.len() && a[i] == w;
        assert((a + b)[i] == w);
    }
    if b.contains(w) {
        let i = choose|i: int| 0 <= i < b.len() && b[i] == w;
        assert((a + b)[a.len() + i] == w);
    }
}

proof fn socket_warnings_name_listeners(
    pid: Pid,
    sockets: Seq<SocketView>,
    n: int,
    w: Seq<char>,
)
    requires
        0 <= n <= sockets.len(),
    ensures
        socket_warnings(pid, sockets, n).contains(w) <==> exists|i: int|
            {
                &&& 0 <= i < n
                &&& (#[trigger] sockets[i]).pid == Some(pid)
                &&& text::same_ignoring_case(sockets[i].state, "LISTEN"@)
                    || text::same_ignoring_case(sockets[i].state, "LISTENING"@)
                &&& sockets[i].local_addr == "0.0.0.0"@ || sockets[i].local_addr == "::"@
                    || sockets[i].local_addr == "*"@
                &&& w == "pid "@ + num::dec(pid as int) + " listens on all interfaces ("@
                    + sockets[i].local_addr + ":"@ + num::dec(sockets[i].local_port as int) + ")"@
            },
    decreases n,
{
    if n > 0 {
        socket_warnings_name_listeners(pid, sockets, n - 1, w);
        let a = socket_warnings(pid, sockets, n - 1);
        let s = sockets[n - 1];
        let msg = "pid "@ + num::dec(pid as int) + " listens on all interfaces ("@ + s.local_addr
            + ":"@ + num::dec(s.local_port as int) + ")"@;
        pushed_text(a, msg, w);
        if a.contains(w) {
            let i = choose|i: int|
                {
                    &&& 0 <= i < n - 1
                    &&& (#[trigger] sockets[i]).pid == Some(pid)
                    &&& text::same_ignoring_case(sockets[i].state, "LISTEN"@)
                        || text::same_ignoring_case(sockets[i].state, "LISTENING"@)
                    &&& sockets[i].local_addr == "0.0.0.0"@ || sockets[i].local_addr == "::"@
                        || sockets[i].local_addr == "*"@
                    &&& w == "pid "@ + num::dec(pid as int) + " listens on all interfaces ("@
                        + sockets[i].local_addr + ":"@ + num::dec(sockets[i].local_port as int)
                        + ")"@
                };
            assert(0 <= i < n && sockets[i].pid == Some(pid));
        }
    }
}

/// The warnings about a process are these and no others: it runs as root, its
/// binary was deleted, a variable of its environment makes the loader inject a
/// library, a socket of its own listens on all interfaces.
pub proof fn risks_are_warned_of(p: ProcessView, sockets: Seq<SocketView>, w: Seq<char>)
    ensures
        risk_warnings(p, sockets).contains(w) <==> {
            ||| p.uid == Some(0u32) && w == "pid "@ + num::dec(p.pid as int) + " runs as root"@
            ||| p.exe_deleted && w == "the binary of pid "@ + num::dec(p.pid as int)
                + " has been deleted from disk (updated in place?)"@
            ||| p.env is Some && exists|i: int|
                {
                    &&& 0 <= i < p.env->0.len()
                    &&& text::same_ignoring_case((#[trigger] p.env->0[i]).0, "LD_PRELOAD"@)
                        || text::same_ignoring_case(p.env->0[i].0, "DYLD_INSERT_LIBRARIES"@)
                    &&& p.env->0[i].1.len() > 0
                    &&& w == "pid "@ + num::dec(p.pid as int) + " has "@ + p.env->0[i].0 + "="@
                        + p.env->0[i].1
                }
            ||| exists|i: int|
                {
                    &&& 0 <= i < sockets.len()
                    &&& (#[trigger] sockets[i]).pid == Some(p.pid)
                    &&& text::same_ignoring_case(sockets[i].state, "LISTEN"@)
                        || text::same_ignoring_case(sockets[i].state, "LISTENING"@)
                    &&& sockets[i].local_addr == "0.0.0.0"@ || sockets[i].local_addr == "::"@
                        || sockets[i].local_addr == "*"@
                    &&& w == "pid "@ + num::dec(p.pid as int) + " listens on all interfaces ("@
                        + sockets[i].local_addr + ":"@ + num::dec(sockets[i].local_port as int)
                        + ")"@
                }
        },
{
    let own = own_warnings(p);
    let env = match p.env {
        Some(env) => env_warnings(p.pid, env, env.len() as int),
        None => seq![],
    };
    let socks = socket_warnings(p.pid, sockets, sockets.len() as int);
    added_texts(own + env, socks, w);
    added_texts(own, env, w);
    if p.env is Some {
        env_warnings_name_injections(p.pid, p.env->0, p.env->0.len() as int, w);
    }
    socket_warnings_name_listeners(p.pid, sockets, sockets.len() as int, w);
    let root = "pid "@ + num::dec(p.pid as int) + " runs as root"@;
    let gone = "the binary of pid "@ + num::dec(p.pid as int)
        + " has been deleted from disk (updated in place?)"@;
    let none: Seq<Seq<char>> = seq![];
    pushed_text(none, root, w);
    pushed_text(none, gone, w);
    pushed_text(none.push(root), gone, w);
    assert(seq![root] =~= none.push(root));
    assert(own == if p.uid == Some(0u32) {
        if p.exe_deleted {
            none.push(root).push(gone)
        } else {
            none.push(root)
        }
    } else {
        if p.exe_deleted {
            none.push(gone)
        } else {
            none
        }
    });
}

// ---------- laws of attribution ----------

/// Whether a name is that of cron, tmux, screen or sshd.
pub open spec fn is_session_name(n: Seq<char>) -> bool {
    ||| n == "cron"@
    ||| n == "crond"@
    ||| n == "anacron"@
    ||| exists|rest: Seq<char>| n == #[trigger] ("tmux"@ + rest)
    ||| exists|rest: Seq<char>| n == #[trigger] ("screen"@ + rest)
    ||| exists|rest: Seq<char>| n == #[trigger] ("sshd"@ + rest)
}

proof fn session_names(p: ProcessView)
    ensures
        named_source(p) is Some <==> is_session_name(p.name),
{
    text::holding_is_standing_between(p.name, "tmux"@);
    text::holding_is_standing_between(p.name, "screen"@);
    text::holding_is_standing_between(p.name, "sshd"@);
}

proof fn none_is_named(chain: Seq<ProcessView>, n: int)
    requires
        forall|i: int| 0 <= i < n ==> !is_session_name((#[trigger] chain[i]).name),
    ensures
        nearest_named(chain, n) is None,
    decreases n,
{
    if n > 0 {
        session_names(chain[n - 1]);
        none_is_named(chain, n - 1);
    }
}

/// Where no container and no service is known and no ancestor is cron, tmux,
/// screen or sshd, the source is a shell exactly if the parent, the last but
/// one of the chain, has the name of one. It is labelled with that name, and
/// the detail holds the pid of the parent.
pub proof fn parent_shell_is_the_source(
    service: Option<SourceView>,
    chain: Seq<ProcessView>,
)
    requires
        service is None || service->0.kind == "init"@,
        forall|i: int| 0 <= i < chain.len() - 1 ==> !is_session_name((#[trigger] chain[i]).name),
    ensures
        ({
            let s = best_source(None, service, chain);
            let parent = chain[chain.len() - 2];
            let n = parent.name;
            &&& s is Some <==> chain.len() >= 2 && (n == "zsh"@ || n == "bash"@ || n == "sh"@ || n
                == "fish"@ || n == "dash"@ || n == "ksh"@ || n == "tcsh"@ || n == "pwsh"@ || n
                == "powershell"@ || n == "cmd"@)
            &&& s matches Some(x) ==> {
                &&& x.kind == "shell"@
                &&& x.label == Some(n)
                &&& x.detail == Some(
                    "started from a "@ + n + " shell (pid "@ + num::dec(parent.pid as int) + ")"@,
                )
            }
        }),
{
    none_is_named(chain, chain.len() - 1);
}

/// Where no container and no service is known, the source is the nearest
/// ancestor, the process itself left out, that is cron, tmux, screen or sshd.
/// It is labelled with the name of that ancestor.
pub proof fn nearest_session_is_the_source(
    service: Option<SourceView>,
    chain: Seq<ProcessView>,
    i: int,
)
    requires
        service is None || service->0.kind == "init"@,
        0 <= i < chain.len() - 1,
        is_session_name(chain[i].name),
        forall|j: int|
            i < j < chain.len() - 1 ==> !is_session_name((#[trigger] chain[j]).name),
    ensures
        ({
            let s = best_source(None, service, chain);
            let n = chain[i].name;
            let pid = num::dec(chain[i].pid as int);
            &&& s is Some
            &&& s->0.label == Some(n)
            &&& n == "cron"@ || n == "crond"@ || n == "anacron"@ ==> s->0.kind == "cron"@
                && s->0.detail == Some("scheduled by "@ + n)
            &&& (exists|rest: Seq<char>| n == #[trigger] ("tmux"@ + rest)) ==> s->0.kind
                == "tmux"@ && s->0.detail == Some(
                "runs inside a tmux session (pid "@ + pid + ")"@,
            )
            &&& (exists|rest: Seq<char>| n == #[trigger] ("screen"@ + rest)) ==> s->0.kind
                == "screen"@ && s->0.detail == Some(
                "runs inside a screen session (pid "@ + pid + ")"@,
            )
            &&& (exists|rest: Seq<char>| n == #[trigger] ("sshd"@ + rest)) ==> s->0.kind
                == "ssh"@ && s->0.detail == Some(
                "started via an ssh session (sshd pid "@ + pid + ")"@,
            )
        }),
{
    let n = chain[i].name;
    session_names(chain[i]);
    assert forall|j: int| i < j < chain.len() - 1 implies named_source(
        #[trigger] chain[j],
    ) is None by {
        session_names(chain[j]);
    }
    nearest_is(chain, i, chain.len() - 1);
    reveal_strlit("cron");
    reveal_strlit("crond");
    reveal_strlit("anacron");
    reveal_strlit("tmux");
    reveal_strlit("screen");
    reveal_strlit("sshd");
    text::holding_is_standing_between(n, "tmux"@);
    text::holding_is_standing_between(n, "screen"@);
    text::holding_is_standing_between(n, "sshd"@);
    if exists|rest: Seq<char>| n == #[trigger] ("tmux"@ + rest) {
        assert(n[0] == 't');
    }
    if exists|rest: Seq<char>| n == #[trigger] ("screen"@ + rest) {
        assert(n[0] == 's' && n[1] == 'c');
    }
    if exists|rest: Seq<char>| n == #[trigger] ("sshd"@ + rest) {
        assert(n[0] == 's' && n[1] == 's');
    }
}

// ---------- laws of the reports ----------

/// A report is about the process that was traced: it shows its details, its
/// whole ancestry where that leads to a root within 64 processes, its children
/// and the sockets of the target. Its source goes by container, service and
/// ancestry, its score by the details and the sockets.
pub proof fn report_is_about_the_process(
    m: Map<Pid, ProcessView>,
    spec: TargetSpecView,
    path: Seq<Pid>,
    sockets: Seq<SocketView>,
    shared: Seq<Seq<char>>,
    detailed: ProcessView,
    container: Option<SourceView>,
    service: Option<SourceView>,
)
    requires
        ancestry::leads_to_root(m, path),
        path.len() <= 64,
    ensures
        ({
            let r = traced(m, spec, path[0], sockets, shared, detailed, container, service);
            &&& r.target == spec
            &&& r.found
            &&& r.error is None
            &&& r.matches == seq![detailed]
            &&& r.sockets == sockets
            &&& r.ancestry.len() == path.len()
            &&& forall|i: int|
                0 <= i < path.len() ==> #[trigger] r.ancestry[i] == m[path[path.len() - 1 - i]]
            &&& r.children == ancestry::children_of(m, path[0])
            &&& r.source == best_source(container, service, r.ancestry)
            &&& r.risk == Some(risk::graded(risk::findings(detailed, sockets)))
            &&& forall|w: Seq<char>| #[trigger]
                r.warnings.contains(w) <==> shared.contains(w) || risk_warnings(
                    detailed,
                    sockets,
                ).contains(w)
        }),
{
    ancestry::whole_ancestry_is_shown(m, path, 64);
    warnings_are_distinct_and_complete(
        m,
        spec,
        path[0],
        sockets,
        shared,
        detailed,
        container,
        service,
    );
    let r = traced(m, spec, path[0], sockets, shared, detailed, container, service);
    let trail = ancestry::trail_warnings(ancestry::climb(m, seq![], path[0], 64));
    assert(trail =~= seq![]);
    assert(shared + trail =~= shared);
    assert forall|w: Seq<char>| #[trigger] r.warnings.contains(w) <==> shared.contains(w)
        || risk_warnings(detailed, sockets).contains(w) by {
        added_texts(shared, risk_warnings(detailed, sockets), w);
    }
}

/// A report always warns of what the walk up the ancestry met and of what
/// concerns the target as a whole, the latter first.
pub proof fn report_keeps_every_warning(
    m: Map<Pid, ProcessView>,
    spec: TargetSpecView,
    pid: Pid,
    sockets: Seq<SocketView>,
    shared: Seq<Seq<char>>,
    detailed: ProcessView,
    container: Option<SourceView>,
    service: Option<SourceView>,
    w: Seq<char>,
)
    ensures
        ({
            let r = traced(m, spec, pid, sockets, shared, detailed, container, service);
            &&& r.warnings.contains(w) <==> {
                ||| shared.contains(w)
                ||| ancestry::trail_warnings(ancestry::climb(m, seq![], pid, 64)).contains(w)
                ||| risk_warnings(detailed, sockets).contains(w)
            }
            &&& shared.len() > 0 ==> r.warnings.len() > 0 && r.warnings[0] == shared[0]
        }),
{
    warnings_are_distinct_and_complete(m, spec, pid, sockets, shared, detailed, container, service);
    let trail = ancestry::trail_warnings(ancestry::climb(m, seq![], pid, 64));
    added_texts(shared + trail, risk_warnings(detailed, sockets), w);
    added_texts(shared, trail, w);
    if shared.len() > 0 {
        let all = shared + trail + risk_warnings(detailed, sockets);
        first_stays_first(all, all.len() as int);
        assert(all[0] == shared[0]);
    }
}

proof fn first_stays_first(ws: Seq<Seq<char>>, n: int)
    requires
        0 < n <= ws.len(),
    ensures
        distinct(ws, n).len() > 0,
        distinct(ws, n)[0] == ws[0],
    decreases n,
{
    if n == 1 {
        assert(distinct(ws, 0) =~= seq![]);
        assert(!distinct(ws, 0).contains(ws[0]));
    } else {
        first_stays_first(ws, n - 1);
    }
}

/// The report for a target that nothing matched holds the target, the reason
/// and nothing else.
pub proof fn missing_reports_are_empty(spec: TargetSpecView, error: Seq<char>)
    ensures
        ({
            let r = TargetReportView::missing(spec, error);
            &&& r.target == spec
            &&& !r.found
            &&& r.error == Some(error)
            &&& r.matches.len() == 0
            &&& r.ancestry.len() == 0
            &&& r.children.len() == 0
            &&& r.source is None
            &&& r.sockets.len() == 0
            &&& r.warnings.len() == 0
            &&& r.risk is None
        }),
{
}

/// A listing fails where the platform failed, with its words, and where it has
/// no process; else it does not.
pub proof fn empty_listings_are_errors(listing: PlatResult<Vec<Process>>)
    ensures
        listing matches Ok(p) ==> (listing_error(listing) is None <==> p@.len() > 0),
        listing matches Err(e) ==> (listing_error(listing) matches Some(m) && text::starts_with(
            m,
            "cannot list processes: "@,
        ) && text::ends_with(m, e@.words())),
{
    if let Err(e) = listing {
        let a = "cannot list processes: "@;
        text::holding_is_standing_between(a + e@.words(), a);
        text::holding_is_standing_between(a + e@.words(), e@.words());
    }
}

} // verus!
