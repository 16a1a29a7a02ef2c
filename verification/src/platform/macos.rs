//! macOS: ps/lsof/launchctl shell-outs. What they print comes in as arguments.

use vstd::prelude::*;
use vstd::slice::slice_subrange;
use vstd::string::*;

use crate::model::{Pid, Process, Socket, Source};
use crate::model::{ProcessView, SocketView, SourceView};
use crate::num::{dec_i32, parse_i32, parse_i64, parse_u32, parse_u64};
use crate::platform::{PlatError, PlatResult, PlatErrorView};
use crate::text::{
    begins, chars_of, cut, cut_once, cut_once_str, cut_start, ends, find_in, find_out, has,
    holds_str, joined, lines_of, lossy_text, lower_of, rfind_sub, same_opt, same_str, string_of,
    text, without_prefix, words_of, Class,
};
use crate::util::{basename_of, etime_of, host_port_of, since, Users};
use crate::{model, num, text, util};

pub mod lsof;
pub mod ps;

verus! {

// ---------- ps ----------

/// Where the `k`th field of a line ends; fields are separated by ASCII white
/// space.
pub open spec fn field_end(line: Seq<char>, k: nat) -> int
    decreases k,
{
    if k == 0 {
        0
    } else {
        text::next_in(
            line,
            Class::AsciiWhite,
            text::next_out(line, Class::AsciiWhite, field_end(line, (k - 1) as nat)),
        )
    }
}

/// The `k`th field of a line, counted from 0.
pub open spec fn field(line: Seq<char>, k: nat) -> Seq<char> {
    line.subrange(
        text::next_out(line, Class::AsciiWhite, field_end(line, k)),
        field_end(line, k + 1),
    )
}

/// What stands behind the first `k` fields of a line.
pub open spec fn behind_fields(line: Seq<char>, k: nat) -> Seq<char> {
    line.subrange(
        text::next_out(line, Class::AsciiWhite, field_end(line, k)),
        line.len() as int,
    )
}

/// A positive number of KiB.
pub open spec fn positive(s: Seq<char>) -> Option<u64> {
    match num::parse_unsigned(s, 10, u64::MAX as int) {
        Some(v) => if v > 0 {
            Some(v as u64)
        } else {
            None
        },
        None => None,
    }
}

/// The process of a `ps` line with the fields pid, parent, uid, elapsed time,
/// cpu, memory and path, and the text of its cpu field.
pub open spec fn ps_row(line: Seq<char>, now: int) -> Option<(ProcessView, Seq<char>)> {
    let l = text::trim(line, Class::White);
    let comm = behind_fields(l, 6);
    match (
        num::parse_signed(field(l, 0), i32::MIN as int, i32::MAX as int),
        num::parse_signed(field(l, 1), i32::MIN as int, i32::MAX as int),
        num::parse_unsigned(field(l, 2), 10, u32::MAX as int),
    ) {
        (Some(pid), Some(ppid), Some(uid)) => Some(
            (
                ProcessView {
                    pid: pid as Pid,
                    ppid: Some(ppid as Pid),
                    name: util::base(comm),
                    exe: if comm.len() == 0 {
                        None
                    } else {
                        Some(comm)
                    },
                    uid: Some(uid as u32),
                    started: match util::etime_secs(field(l, 3)) {
                        Some(age) => Some(util::elapsed(now, age) as i64),
                        None => None,
                    },
                    mem_kb: positive(field(l, 5)),
                    ..ProcessView::blank()
                },
                field(l, 4),
            ),
        ),
        _ => None,
    }
}

/// What a row of `ps` shows.
pub open spec fn row_view(r: Option<(Process, String)>) -> Option<(ProcessView, Seq<char>)> {
    match r {
        Some(p) => Some((p.0@, p.1@)),
        None => None,
    }
}

fn next_field<'a>(line: &'a [char], k: Ghost<nat>, from: usize) -> (r: (&'a [char], usize))
    requires
        from == field_end(line@, k@),
        from <= line@.len(),
    ensures
        r.0@ == field(line@, k@),
        r.1 == field_end(line@, k@ + 1),
        r.1 <= line@.len(),
{
    let a = find_out(line, Class::AsciiWhite, from);
    let b = find_in(line, Class::AsciiWhite, a);
    (slice_subrange(line, a, b), b)
}

/// `ps -axo pid=,ppid=,uid=,etime=,pcpu=,rss=,comm=` — comm is the last
/// column and may contain spaces, so the first six fields are fixed and the
/// rest is the executable path. The user and the cpu percent, a decimal
/// fraction, are left to the caller, who gets the text of the latter.
pub fn parse_ps_list_line(line: &str, now: i64) -> (r: Option<(Process, String)>)
    ensures
        row_view(r) == ps_row(line@, now as int),
{
    let c = chars_of(line);
    let l = cut(c.as_slice(), Class::White);
    let (f0, e) = next_field(l, Ghost(0nat), 0);
    let (f1, e) = next_field(l, Ghost(1nat), e);
    let (f2, e) = next_field(l, Ghost(2nat), e);
    let (f3, e) = next_field(l, Ghost(3nat), e);
    let (f4, e) = next_field(l, Ghost(4nat), e);
    let (f5, e) = next_field(l, Ghost(5nat), e);
    let a = find_out(l, Class::AsciiWhite, e);
    let comm = slice_subrange(l, a, l.len());
    match (parse_i32(f0), parse_i32(f1), parse_u32(f2)) {
        (Some(pid), Some(ppid), Some(uid)) => {
            let started: Option<i64> = match etime_of(f3) {
                Some(age) => Some(since(now, age)),
                None => None,
            };
            let mem_kb: Option<u64> = match parse_u64(f5) {
                Some(m) => if m > 0 {
                    Some(m)
                } else {
                    None
                },
                None => None,
            };
            let p = Process {
                pid,
                ppid: Some(ppid),
                name: basename_of(comm),
                exe: if comm.len() == 0 {
                    None
                } else {
                    Some(string_of(comm))
                },
                exe_deleted: false,
                cmdline: Vec::new(),
                cwd: None,
                user: None,
                uid: Some(uid),
                started,
                env: None,
                kernel_thread: false,
                cpu: None,
                mem_kb,
                cpu_time_ms: None,
            };
            assert(p@.cmdline =~= seq![]);
            assert(p@ =~= (ps_row(line@, now as int)->0).0);
            Some((p, string_of(f4)))
        },
        _ => None,
    }
}

/// macOS, with the user names that it has resolved.
pub struct MacOs {
    users: Users,
}

impl View for MacOs {
    type V = Map<u32, Option<Seq<char>>>;

    closed spec fn view(&self) -> Map<u32, Option<Seq<char>>> {
        self.users@
    }
}

impl MacOs {
    pub fn new(users: Users) -> (r: MacOs)
        ensures
            r@ == users@,
    {
        MacOs { users }
    }

    /// Whether the name for `uid` has been resolved, with or without success.
    pub fn knows(&self, uid: u32) -> (r: bool)
        ensures
            r == self@.contains_key(uid),
    {
        self.users.knows(uid)
    }

    /// The entry of the process table for a row of `ps`: with the user and,
    /// where it is worth showing, the cpu percent. `id_output` is what `id -un`
    /// printed for the uid, which is asked only where `knows` says no.
    pub fn entry(&mut self, row: Process, id_output: Option<&str>, cpu: Option<u64>) -> (r: Process)
        ensures
            ({
                let user = match row.uid {
                    Some(u) => util::user_name(old(self)@, u, util::opt_str(id_output)),
                    None => None,
                };
                &&& r@ == (ProcessView { user, cpu, ..row@ })
                &&& final(self)@ == match row.uid {
                    Some(u) => old(self)@.insert(u, user),
                    None => old(self)@,
                }
            }),
    {
        let mut p = row;
        p.user = match p.uid {
            Some(u) => self.users.name_for(u, id_output),
            None => None,
        };
        p.cpu = cpu;
        p
    }
}

/// The pid and the command of a `ps` line.
pub open spec fn detail_row(line: Seq<char>) -> Option<(int, Seq<char>)> {
    match text::split_once(text::trim_start(line, Class::White), Class::Is(' ')) {
        Some(c) => match num::parse_signed(c.0, i32::MIN as int, i32::MAX as int) {
            Some(pid) => Some((pid, text::trim(c.1, Class::White))),
            None => None,
        },
        None => None,
    }
}

/// What a pid with a text shows.
pub open spec fn pid_text(r: Option<(Pid, String)>) -> Option<(int, Seq<char>)> {
    match r {
        Some(p) => Some((p.0 as int, p.1@)),
        None => None,
    }
}

/// `ps -ww -o pid=,command= -p N` to (pid, full command line as one string).
pub fn parse_ps_detail_line(line: &str) -> (r: Option<(Pid, String)>)
    ensures
        pid_text(r) == detail_row(line@),
{
    let c = chars_of(line);
    detail_row_of(c.as_slice())
}

fn detail_row_of(line: &[char]) -> (r: Option<(Pid, String)>)
    ensures
        pid_text(r) == detail_row(line@),
{
    match cut_once(cut_start(line, Class::White), Class::Is(' ')) {
        Some((p, rest)) => match parse_i32(p) {
            Some(pid) => Some((pid, string_of(cut(rest, Class::White)))),
            None => None,
        },
        None => None,
    }
}

/// The command on the first line from `i` on that has one.
pub open spec fn command_in(ls: Seq<Seq<char>>, i: int) -> Option<Seq<char>>
    decreases ls.len() - i,
{
    if i >= ls.len() {
        None
    } else if detail_row(ls[i]) is Some {
        Some((detail_row(ls[i])->0).1)
    } else {
        command_in(ls, i + 1)
    }
}

fn command_of(out: &str) -> (r: Option<String>)
    ensures
        text::opt(r) == command_in(text::lines(out@), 0),
{
    let c = chars_of(out);
    let ls = lines_of(c.as_slice());
    let ghost all = text::lines(out@);
    assert(all.len() == ls@.len());
    let mut i: usize = 0;
    while i < ls.len()
        invariant
            all == text::lines(out@),
            text::pieces(ls@) == all,
            all.len() == ls@.len(),
            i <= ls@.len(),
            command_in(all, 0) == command_in(all, i as int),
        decreases ls@.len() - i,
    {
        let line = ls[i];
        assert(line@ == all[i as int]);
        if let Some((_, cmd)) = detail_row_of(line) {
            return Some(cmd);
        }
        i += 1;
    }
    None
}

/// Whether a character may stand in the name of a variable.
pub open spec fn is_name_char(c: char) -> bool {
    'a' <= c <= 'z' || 'A' <= c <= 'Z' || '0' <= c <= '9' || c == '_'
}

/// Whether a text is the name of a variable.
pub open spec fn is_var_name(s: Seq<char>) -> bool {
    s.len() > 0 && !('0' <= s[0] <= '9') && forall|i: int|
        0 <= i < s.len() ==> is_name_char(#[trigger] s[i])
}

/// Whether some variable has this name.
pub open spec fn has_var(env: Seq<(Seq<char>, Seq<char>)>, name: Seq<char>) -> bool {
    exists|i: int| 0 <= i < env.len() && (#[trigger] env[i]).0 == name
}

/// The variables among the first `n` words; of those with one name the first.
pub open spec fn vars_among(words: Seq<Seq<char>>, n: int) -> Seq<(Seq<char>, Seq<char>)>
    decreases n,
{
    if n <= 0 {
        seq![]
    } else {
        let before = vars_among(words, n - 1);
        match text::split_once(words[n - 1], Class::Is('=')) {
            Some(kv) => if is_var_name(kv.0) && !has_var(before, kv.0) {
                before.push(kv)
            } else {
                before
            },
            None => before,
        }
    }
}

fn is_var_name_of(s: &[char]) -> (r: bool)
    ensures
        r == is_var_name(s@),
{
    if s.len() == 0 {
        return false;
    }
    let first = s[0];
    if '0' <= first && first <= '9' {
        return false;
    }
    let mut i: usize = 0;
    while i < s.len()
        invariant
            i <= s@.len(),
            forall|j: int| 0 <= j < i ==> is_name_char(#[trigger] s@[j]),
        decreases s@.len() - i,
    {
        let c = s[i];
        if !(('a' <= c && c <= 'z') || ('A' <= c && c <= 'Z') || ('0' <= c && c <= '9') || c
            == '_') {
            assert(!is_name_char(s@[i as int]));
            return false;
        }
        i += 1;
    }
    true
}

fn has_var_of(env: &Vec<(String, String)>, name: &str) -> (r: bool)
    ensures
        r == has_var(model::vars(env@), name@),
{
    let ghost all = model::vars(env@);
    let mut i: usize = 0;
    while i < env.len()
        invariant
            all == model::vars(env@),
            i <= env@.len(),
            forall|j: int| 0 <= j < i ==> (#[trigger] all[j]).0 != name@,
        decreases env@.len() - i,
    {
        assert(all[i as int].0 == env@[i as int].0@);
        if same_str(env[i].0.as_str(), name) {
            return true;
        }
        i += 1;
    }
    false
}

/// `ps -ww -p PID -E -o command=` appends KEY=VALUE env fields after the
/// command; scan whitespace-separated fields that look like env names
/// (best-effort: values containing whitespace lose their tail, and the
/// command line itself can yield false positives).
pub fn parse_ps_env(output: &str) -> (r: Vec<(String, String)>)
    ensures
        model::vars(r@) == vars_among(text::words(output@), text::words(output@).len() as int),
{
    broadcast use crate::model::vars_push;

    let c = chars_of(output);
    let words = words_of(c.as_slice());
    let ghost all = text::words(output@);
    assert(all.len() == words@.len());
    let mut env: Vec<(String, String)> = Vec::new();
    let mut i: usize = 0;
    assert(model::vars(env@) =~= seq![]);
    while i < words.len()
        invariant
            text::pieces(words@) == all,
            all.len() == words@.len(),
            i <= words@.len(),
            model::vars(env@) == vars_among(all, i as int),
        decreases words@.len() - i,
    {
        let part = words[i];
        assert(part@ == all[i as int]);
        if let Some((k, v)) = cut_once(part, Class::Is('=')) {
            if is_var_name_of(k) {
                let name = string_of(k);
                if !has_var_of(&env, name.as_str()) {
                    env.push((name, string_of(v)));
                }
            }
        }
        i += 1;
    }
    env
}

/// No variable is listed twice.
pub proof fn variables_are_distinct(words: Seq<Seq<char>>, n: int)
    requires
        0 <= n <= words.len(),
    ensures
        forall|i: int, j: int|
            0 <= i < j < vars_among(words, n).len() ==> (#[trigger] vars_among(words, n)[i]).0
                != (#[trigger] vars_among(words, n)[j]).0,
    decreases n,
{
    if n > 0 {
        variables_are_distinct(words, n - 1);
        let was = vars_among(words, n - 1);
        let now = vars_among(words, n);
        if now.len() > was.len() {
            assert forall|i: int, j: int| 0 <= i < j < now.len() implies (#[trigger] now[i]).0 != (
            #[trigger] now[j]).0 by {
                assert(now[i] == was[i]);
                if j < was.len() {
                    assert(now[j] == was[j]);
                }
            }
        }
    }
}

// ---------- details ----------

/// The path on the first line from `i` on that `lsof -Fn` marks as a name.
pub open spec fn name_in(ls: Seq<Seq<char>>, i: int) -> Option<Seq<char>>
    decreases ls.len() - i,
{
    if i >= ls.len() {
        None
    } else if text::starts_with(ls[i], "n"@) {
        text::strip_prefix(ls[i], "n"@)
    } else {
        name_in(ls, i + 1)
    }
}

fn name_of(out: &str) -> (r: Option<String>)
    ensures
        text::opt(r) == name_in(text::lines(out@), 0),
{
    let c = chars_of(out);
    let ls = lines_of(c.as_slice());
    let ghost all = text::lines(out@);
    assert(all.len() == ls@.len());
    let mut i: usize = 0;
    while i < ls.len()
        invariant
            all == text::lines(out@),
            text::pieces(ls@) == all,
            all.len() == ls@.len(),
            i <= ls@.len(),
            name_in(all, 0) == name_in(all, i as int),
        decreases ls@.len() - i,
    {
        let line = ls[i];
        assert(line@ == all[i as int]);
        if let Some(path) = without_prefix(line, "n") {
            return Some(string_of(path));
        }
        i += 1;
    }
    None
}

/// The command line of a process: what `ps` printed, where it printed one.
pub open spec fn detailed_cmdline(was: Seq<Seq<char>>, out: Option<Seq<char>>) -> Seq<Seq<char>> {
    match out {
        Some(o) => match command_in(text::lines(o), 0) {
            Some(cmd) => if cmd.len() > 0 {
                seq![cmd]
            } else {
                was
            },
            None => was,
        },
        None => was,
    }
}

/// The environment of a process: what `ps -E` printed, where it printed any.
pub open spec fn detailed_env(
    was: Option<Seq<(Seq<char>, Seq<char>)>>,
    out: Option<Seq<char>>,
) -> Option<Seq<(Seq<char>, Seq<char>)>> {
    match out {
        Some(o) => {
            let env = vars_among(text::words(o), text::words(o).len() as int);
            if env.len() > 0 {
                Some(env)
            } else {
                was
            }
        },
        None => was,
    }
}

/// The executable of a process: the program image that `lsof` printed.
pub open spec fn detailed_exe(was: Option<Seq<char>>, out: Option<Seq<char>>) -> Option<Seq<char>> {
    match out {
        Some(o) => match name_in(text::lines(o), 0) {
            Some(path) => if text::starts_with(path, "/"@) {
                Some(path)
            } else {
                was
            },
            None => was,
        },
        None => was,
    }
}

/// The working directory of a process that `lsof` printed.
pub open spec fn detailed_cwd(was: Option<Seq<char>>, out: Option<Seq<char>>) -> Option<Seq<char>> {
    match out {
        Some(o) => match name_in(text::lines(o), 0) {
            Some(path) => Some(path),
            None => was,
        },
        None => was,
    }
}

/// Fill in the details of a process from what `ps` printed for its command
/// and its environment, and `lsof` for its program image and its working
/// directory, each none where the command failed or was not asked.
pub fn detail(
    brief: &Process,
    command: Option<String>,
    env: Option<String>,
    image: Option<String>,
    cwd: Option<String>,
) -> (r: Process)
    ensures
        r@ == (ProcessView {
            cmdline: detailed_cmdline(brief@.cmdline, text::opt(command)),
            env: detailed_env(brief@.env, text::opt(env)),
            exe: detailed_exe(brief@.exe, text::opt(image)),
            cwd: detailed_cwd(brief@.cwd, text::opt(cwd)),
            ..brief@
        }),
{
    let mut p = brief.clone();
    if let Some(out) = &command {
        if let Some(cmd) = command_of(out.as_str()) {
            if !cmd.as_str().is_empty() {
                let ghost cv = cmd@;
                let mut v: Vec<String> = Vec::new();
                v.push(cmd);
                assert(text::texts(v@) =~= seq![cv]);
                p.cmdline = v;
            }
        }
    }
    if let Some(out) = &env {
        let vars = parse_ps_env(out.as_str());
        assert(model::vars(vars@).len() == vars@.len());
        if vars.len() > 0 {
            p.env = Some(vars);
        }
    }
    if let Some(out) = &image {
        if let Some(path) = name_of(out.as_str()) {
            let c = chars_of(path.as_str());
            if begins(c.as_slice(), "/") {
                p.exe = Some(path);
            }
        }
    }
    if let Some(out) = &cwd {
        if let Some(path) = name_of(out.as_str()) {
            p.cwd = Some(path);
        }
    }
    p
}

// ---------- lsof ----------

/// The name and the state in the last columns of an `lsof` row.
pub open spec fn name_and_state(tail: Seq<char>) -> (Seq<char>, Seq<char>) {
    match text::rfind_from(tail, " ("@, tail.len() as int) {
        Some(open) => if text::ends_with(tail, ")"@) {
            (tail.subrange(0, open), tail.subrange(open + 2, tail.len() - 1))
        } else {
            (tail, "CONNECTED"@)
        },
        None => (tail, "CONNECTED"@),
    }
}

/// The local and the remote end in a name.
pub open spec fn ends_of(name: Seq<char>) -> (Seq<char>, Option<Seq<char>>) {
    match text::split_once_str(name, "->"@) {
        Some(c) => (c.0, Some(c.1)),
        None => (name, None),
    }
}

/// The address and the port of the remote end.
pub open spec fn remote(end: Option<Seq<char>>) -> Option<(Seq<char>, int)> {
    match end {
        Some(e) => util::host_port(e),
        None => None,
    }
}

/// The protocol of an `lsof` row: with a 6 where the type column has one.
pub open spec fn row_proto(node: Seq<char>, kind: Seq<char>) -> Seq<char> {
    if text::has_in(kind, Class::Is('6')) {
        text::lower(node).push('6')
    } else {
        text::lower(node)
    }
}

/// The socket of an `lsof -nP -i` row.
pub open spec fn net_row(cols: Seq<Seq<char>>) -> Option<SocketView> {
    if cols.len() < 8 {
        None
    } else {
        let tail = text::join(cols.subrange(8, cols.len() as int), " "@);
        let ns = name_and_state(tail);
        let e = ends_of(ns.0);
        match (
            num::parse_signed(cols[1], i32::MIN as int, i32::MAX as int),
            util::host_port(e.0),
        ) {
            (Some(pid), Some(local)) => if text::lower(cols[7]) != "tcp"@ && text::lower(cols[7])
                != "udp"@ {
                None
            } else {
                Some(
                    SocketView {
                        proto: row_proto(cols[7], cols[4]),
                        local_addr: local.0,
                        local_port: local.1 as u16,
                        peer_addr: match remote(e.1) {
                            Some(p) => Some(p.0),
                            None => None,
                        },
                        peer_port: match remote(e.1) {
                            Some(p) => Some(p.1 as u16),
                            None => None,
                        },
                        state: ns.1,
                        pid: Some(pid as Pid),
                    },
                )
            },
            _ => None,
        }
    }
}

/// What an optional socket shows.
pub open spec fn opt_socket(s: Option<Socket>) -> Option<SocketView> {
    match s {
        Some(x) => Some(x@),
        None => None,
    }
}

/// Parse one data row of `lsof -nP -i :PORT`.
pub fn parse_lsof_net_line(line: &str) -> (r: Option<Socket>)
    ensures
        opt_socket(r) == net_row(text::words(line@)),
{
    let c = chars_of(line);
    net_row_of(c.as_slice())
}

fn tail_of(cols: &Vec<&[char]>) -> (r: String)
    requires
        cols@.len() >= 8,
    ensures
        r@ == text::join(text::pieces(cols@).subrange(8, cols@.len() as int), " "@),
{
    let ghost all = text::pieces(cols@).subrange(8, cols@.len() as int);
    let mut parts: Vec<String> = Vec::new();
    let mut i: usize = 8;
    while i < cols.len()
        invariant
            all == text::pieces(cols@).subrange(8, cols@.len() as int),
            8 <= i <= cols@.len(),
            parts@.len() == i - 8,
            forall|j: int| 0 <= j < parts@.len() ==> (#[trigger] parts@[j])@ == all[j],
        decreases cols@.len() - i,
    {
        assert(all[i - 8] == cols@[i as int]@);
        parts.push(string_of(cols[i]));
        i += 1;
    }
    assert(text::texts(parts@) =~= all);
    joined(&parts, " ")
}

fn name_and_state_of(tail: &[char]) -> (r: (String, String))
    ensures
        (r.0@, r.1@) == name_and_state(tail@),
{
    let n: usize = tail.len();
    proof {
        reveal_strlit(" (");
        reveal_strlit(")");
    }
    match rfind_sub(tail, " (") {
        Some(open) => {
            if ends(tail, ")") {
                proof {
                    text::rfind_from_is_last(tail@, " ("@, tail@.len() as int);
                    assert(tail@.subrange(open as int, open + 2)[1] == tail@[open + 1]);
                    assert(tail@.subrange(n - 1, n as int)[0] == tail@[n - 1]);
                }
                (
                    string_of(slice_subrange(tail, 0, open)),
                    string_of(slice_subrange(tail, open + 2, n - 1)),
                )
            } else {
                (string_of(tail), text("CONNECTED"))
            }
        },
        None => (string_of(tail), text("CONNECTED")),
    }
}

fn net_row_of(line: &[char]) -> (r: Option<Socket>)
    ensures
        opt_socket(r) == net_row(text::words(line@)),
{
    let cols = words_of(line);
    let ghost w = text::words(line@);
    assert(w.len() == cols@.len());
    if cols.len() < 8 {
        return None;
    }
    assert(w[1] == cols@[1]@);
    assert(w[4] == cols@[4]@);
    assert(w[7] == cols@[7]@);
    let tail = tail_of(&cols);
    let t = chars_of(tail.as_str());
    let (name, state) = name_and_state_of(t.as_slice());
    let n = chars_of(name.as_str());
    let (local, peer): (&[char], Option<(String, u16)>) = match cut_once_str(n.as_slice(), "->") {
        Some((l, r)) => (l, host_port_of(r)),
        None => (n.as_slice(), None),
    };
    match (parse_i32(cols[1]), host_port_of(local)) {
        (Some(pid), Some((local_addr, local_port))) => {
            let node = lower_of(cols[7]);
            let mut proto = string_of(node.as_slice());
            if !same_str(proto.as_str(), "tcp") && !same_str(proto.as_str(), "udp") {
                return None;
            }
            if has(cols[4], Class::Is('6')) {
                proto.push('6');
            }
            let (peer_addr, peer_port): (Option<String>, Option<u16>) = match peer {
                Some((a, p)) => (Some(a), Some(p)),
                None => (None, None),
            };
            Some(
                Socket {
                    proto,
                    local_addr,
                    local_port,
                    peer_addr,
                    peer_port,
                    state,
                    pid: Some(pid),
                },
            )
        },
        _ => None,
    }
}

/// The sockets on the lines 1 to `n`; line 0 is the header.
pub open spec fn net_rows(ls: Seq<Seq<char>>, n: int) -> Seq<SocketView>
    decreases n,
{
    if n <= 1 {
        seq![]
    } else {
        match net_row(text::words(ls[n - 1])) {
            Some(s) => net_rows(ls, n - 1).push(s),
            None => net_rows(ls, n - 1),
        }
    }
}

/// Reads what `lsof -nP -i` printed.
pub fn parse_lsof_net(out: &str) -> (r: Vec<Socket>)
    ensures
        text::views(r@) == net_rows(text::lines(out@), text::lines(out@).len() as int),
{
    broadcast use crate::text::group_views;

    let c = chars_of(out);
    let ls = lines_of(c.as_slice());
    let ghost all = text::lines(out@);
    assert(all.len() == ls@.len());
    let mut v: Vec<Socket> = Vec::new();
    let n: usize = ls.len();
    if n == 0 {
        return v;
    }
    let mut i: usize = 1;
    while i < n
        invariant
            text::pieces(ls@) == all,
            all.len() == ls@.len() == n,
            1 <= i <= n,
            text::views(v@) == net_rows(all, i as int),
        decreases n - i,
    {
        let line = ls[i];
        assert(line@ == all[i as int]);
        if let Some(s) = net_row_of(line) {
            v.push(s);
        }
        i += 1;
    }
    v
}

/// Whether two rows are the same socket, held by two descriptors.
pub open spec fn same_socket(a: SocketView, b: SocketView) -> bool {
    a.pid == b.pid && a.proto == b.proto && a.local_port == b.local_port && a.local_addr
        == b.local_addr
}

/// The first `n` sockets whose local port is `port`, each once: a socket may
/// have a row for every descriptor that holds it.
pub open spec fn on_port(v: Seq<SocketView>, port: u16, n: int) -> Seq<SocketView>
    decreases n,
{
    if n <= 0 {
        seq![]
    } else {
        let before = on_port(v, port, n - 1);
        if v[n - 1].local_port != port || before.contains(v[n - 1]) {
            before
        } else {
            before.push(v[n - 1])
        }
    }
}

/// A port lookup gives every socket whose local port is the one asked for,
/// each of them once, and no other.
pub proof fn port_lookup_is_exact(v: Seq<SocketView>, port: u16, n: int)
    requires
        0 <= n <= v.len(),
    ensures
        on_port(v, port, n).no_duplicates(),
        forall|s: SocketView| #[trigger]
            on_port(v, port, n).contains(s) ==> s.local_port == port,
        forall|i: int|
            0 <= i < n && (#[trigger] v[i]).local_port == port ==> on_port(v, port, n).contains(
                v[i],
            ),
    decreases n,
{
    if n > 0 {
        port_lookup_is_exact(v, port, n - 1);
        let before = on_port(v, port, n - 1);
        let all = on_port(v, port, n);
        if all != before {
            assert(all == before.push(v[n - 1]));
            assert(all[before.len() as int] == v[n - 1]);
            assert forall|s: SocketView| before.contains(s) implies #[trigger] all.contains(s) by {
                let i = choose|i: int| 0 <= i < before.len() && before[i] == s;
                assert(all[i] == s);
            }
            assert forall|s: SocketView| #[trigger] all.contains(s) implies s.local_port == port by {
                let i = choose|i: int| 0 <= i < all.len() && all[i] == s;
                if i < before.len() {
                    assert(before[i] == s);
                    assert(before.contains(s));
                }
            }
        }
    }
}

fn is_same_socket(a: &Socket, b: &Socket) -> (r: bool)
    ensures
        r == same_socket(a@, b@),
{
    a.pid == b.pid && same_str(a.proto.as_str(), b.proto.as_str()) && a.local_port == b.local_port
        && same_str(a.local_addr.as_str(), b.local_addr.as_str())
}

fn is_listed(v: &Vec<Socket>, s: &Socket) -> (r: bool)
    ensures
        r == text::views(v@).contains(s@),
{
    let ghost all = text::views(v@);
    let mut i: usize = 0;
    while i < v.len()
        invariant
            all == text::views(v@),
            i <= v@.len(),
            forall|j: int| 0 <= j < i ==> #[trigger] all[j] != s@,
        decreases v@.len() - i,
    {
        let x = &v[i];
        assert(all[i as int] == x@);
        if is_same_socket(x, s) && same_str(x.state.as_str(), s.state.as_str()) && same_opt(
            &x.peer_addr,
            &s.peer_addr,
        ) && x.peer_port == s.peer_port {
            assert(x@ =~= s@);
            return true;
        }
        assert(x@ != s@);
        i += 1;
    }
    false
}

fn of_port(v: &Vec<Socket>, port: u16) -> (r: Vec<Socket>)
    ensures
        text::views(r@) == on_port(text::views(v@), port, v@.len() as int),
{
    broadcast use crate::text::group_views;

    let ghost all = text::views(v@);
    let mut out: Vec<Socket> = Vec::new();
    let mut i: usize = 0;
    while i < v.len()
        invariant
            all == text::views(v@),
            i <= v@.len(),
            text::views(out@) == on_port(all, port, i as int),
        decreases v@.len() - i,
    {
        assert(all[i as int] == v@[i as int]@);
        if v[i].local_port == port && !is_listed(&out, &v[i]) {
            out.push(v[i].clone());
        }
        i += 1;
    }
    out
}

/// The sockets on a port that `lsof` found, or why it found none.
pub open spec fn port_sockets(
    port: u16,
    stdout: Seq<u8>,
    stderr: Seq<u8>,
) -> Result<Seq<SocketView>, PlatErrorView> {
    if stdout.len() > 0 {
        let ls = text::lines(text::lossy(stdout));
        let rows = net_rows(ls, ls.len() as int);
        Ok(on_port(rows, port, rows.len() as int))
    } else if text::contains(text::lossy(stderr), "Permission denied"@) {
        Err(PlatErrorView::Permission(text::trim(text::lossy(stderr), Class::White)))
    } else {
        Ok(seq![])
    }
}

/// What a list of sockets or an error shows.
pub open spec fn sockets_view(r: PlatResult<Vec<Socket>>) -> Result<
    Seq<SocketView>,
    PlatErrorView,
> {
    match r {
        Ok(v) => Ok(text::views(v@)),
        Err(e) => Err(e@),
    }
}

/// The sockets whose local port is `port`, from what `lsof -nP -w -i :PORT`
/// wrote; it also lists those whose peer has that port.
pub fn port_to_sockets(port: u16, stdout: &[u8], stderr: &[u8]) -> (r: PlatResult<Vec<Socket>>)
    ensures
        sockets_view(r) == port_sockets(port, stdout@, stderr@),
{
    if stdout.len() > 0 {
        let out = lossy_text(stdout);
        let rows = parse_lsof_net(out.as_str());
        assert(text::views(rows@).len() == rows@.len());
        return Ok(of_port(&rows, port));
    }
    let err = lossy_text(stderr);
    let c = chars_of(err.as_str());
    if holds_str(c.as_slice(), "Permission denied") {
        Err(PlatError::Permission(string_of(cut(c.as_slice(), Class::White))))
    } else {
        // exit 1 with no output just means "nothing found"
        let none: Vec<Socket> = Vec::new();
        assert(text::views(none@) =~= seq![]);
        Ok(none)
    }
}

/// Whether a socket stands among these.
pub open spec fn has_socket(v: Seq<SocketView>, s: SocketView) -> bool {
    exists|i: int| 0 <= i < v.len() && same_socket(#[trigger] v[i], s)
}

/// `v` with the first `n` of `more` that are not there yet.
pub open spec fn with_new(v: Seq<SocketView>, more: Seq<SocketView>, n: int) -> Seq<SocketView>
    decreases n,
{
    if n <= 0 {
        v
    } else if has_socket(with_new(v, more, n - 1), more[n - 1]) {
        with_new(v, more, n - 1)
    } else {
        with_new(v, more, n - 1).push(more[n - 1])
    }
}

fn has_socket_of(v: &Vec<Socket>, s: &Socket) -> (r: bool)
    ensures
        r == has_socket(text::views(v@), s@),
{
    let ghost all = text::views(v@);
    let mut i: usize = 0;
    while i < v.len()
        invariant
            all == text::views(v@),
            i <= v@.len(),
            forall|j: int| 0 <= j < i ==> !same_socket(#[trigger] all[j], s@),
        decreases v@.len() - i,
    {
        assert(all[i as int] == v@[i as int]@);
        if is_same_socket(&v[i], s) {
            return true;
        }
        i += 1;
    }
    false
}

/// Adds the sockets of one `lsof -nP` listing; the same socket can appear
/// once per owning descriptor.
pub fn add_listed(out: &mut Vec<Socket>, stdout: &[u8])
    ensures
        ({
            let ls = text::lines(text::lossy(stdout@));
            let rows = net_rows(ls, ls.len() as int);
            text::views(final(out)@) == with_new(text::views(old(out)@), rows, rows.len() as int)
        }),
{
    broadcast use crate::text::group_views;

    let listing = lossy_text(stdout);
    let rows = parse_lsof_net(listing.as_str());
    let ghost all = text::views(rows@);
    let ghost start = text::views(out@);
    let mut i: usize = 0;
    while i < rows.len()
        invariant
            all == text::views(rows@),
            i <= rows@.len(),
            text::views(out@) == with_new(start, all, i as int),
        decreases rows@.len() - i,
    {
        assert(all[i as int] == rows@[i as int]@);
        if !has_socket_of(out, &rows[i]) {
            out.push(rows[i].clone());
        }
        i += 1;
    }
}

/// The pids in the second column of the lines 1 to `n`.
pub open spec fn pids_among(ls: Seq<Seq<char>>, n: int) -> Seq<Pid>
    decreases n,
{
    if n <= 1 {
        seq![]
    } else {
        let w = text::words(ls[n - 1]);
        if w.len() >= 2 && num::parse_signed(w[1], i32::MIN as int, i32::MAX as int) is Some {
            pids_among(ls, n - 1).push(
                num::parse_signed(w[1], i32::MIN as int, i32::MAX as int)->0 as Pid,
            )
        } else {
            pids_among(ls, n - 1)
        }
    }
}

/// Reads the pids that an `lsof` listing names.
pub fn parse_lsof_pids(out: &str) -> (r: Vec<Pid>)
    ensures
        r@ == pids_among(text::lines(out@), text::lines(out@).len() as int),
{
    let c = chars_of(out);
    let ls = lines_of(c.as_slice());
    let ghost all = text::lines(out@);
    assert(all.len() == ls@.len());
    let mut v: Vec<Pid> = Vec::new();
    let n: usize = ls.len();
    if n == 0 {
        assert(v@ =~= seq![]);
        return v;
    }
    let mut i: usize = 1;
    assert(v@ =~= seq![]);
    while i < n
        invariant
            text::pieces(ls@) == all,
            all.len() == ls@.len() == n,
            1 <= i <= n,
            v@ == pids_among(all, i as int),
        decreases n - i,
    {
        let line = ls[i];
        assert(line@ == all[i as int]);
        let w = words_of(line);
        assert(text::words(line@).len() == w@.len());
        if w.len() >= 2 {
            assert(text::words(line@)[1] == w@[1]@);
            if let Some(pid) = parse_i32(w[1]) {
                v.push(pid);
            }
        }
        i += 1;
    }
    v
}

/// The processes that hold a file open, from what `lsof -w -- PATH` wrote.
pub fn file_to_pids(stdout: &[u8], stderr: &[u8]) -> (r: PlatResult<Vec<Pid>>)
    ensures
        stdout@.len() > 0 ==> r is Ok && r->Ok_0@ == pids_among(
            text::lines(text::lossy(stdout@)),
            text::lines(text::lossy(stdout@)).len() as int,
        ),
        stdout@.len() == 0 ==> (r is Err <==> text::contains(
            text::lossy(stderr@),
            "Permission denied"@,
        )),
        stdout@.len() == 0 && r is Ok ==> r->Ok_0@.len() == 0,
        r matches Err(e) ==> e@ == PlatErrorView::Permission(
            "lsof needs root to see other users' files"@,
        ),
{
    if stdout.len() == 0 {
        let err = lossy_text(stderr);
        let c = chars_of(err.as_str());
        if holds_str(c.as_slice(), "Permission denied") {
            return Err(PlatError::Permission(text("lsof needs root to see other users' files")));
        }
        return Ok(Vec::new());
    }
    let out = lossy_text(stdout);
    Ok(parse_lsof_pids(out.as_str()))
}

// ---------- launchd ----------

/// The pid and the label of a `launchctl list` row.
pub open spec fn job_row(line: Seq<char>) -> Option<(int, Seq<char>)> {
    let w = text::words(line);
    if w.len() < 2 {
        None
    } else {
        match (
            num::parse_signed(w[0], i32::MIN as int, i32::MAX as int),
            num::parse_signed(w[1], i64::MIN as int, i64::MAX as int),
        ) {
            (Some(pid), Some(_)) => match text::split_once(line, Class::White) {
                Some(a) => match text::split_once(a.1, Class::White) {
                    Some(b) => Some((pid, text::trim(b.1, Class::White))),
                    None => None,
                },
                None => None,
            },
            _ => None,
        }
    }
}

/// `launchctl list` row: "PID\tStatus\tLabel" (PID is "-" when not running).
pub fn parse_launchctl_pid_label(line: &str) -> (r: Option<(Pid, String)>)
    ensures
        pid_text(r) == job_row(line@),
{
    let c = chars_of(line);
    job_row_of(c.as_slice())
}

fn job_row_of(line: &[char]) -> (r: Option<(Pid, String)>)
    ensures
        pid_text(r) == job_row(line@),
{
    let w = words_of(line);
    assert(text::words(line@).len() == w@.len());
    if w.len() < 2 {
        return None;
    }
    assert(text::words(line@)[0] == w@[0]@);
    assert(text::words(line@)[1] == w@[1]@);
    match (parse_i32(w[0]), parse_i64(w[1])) {
        (Some(pid), Some(_)) => match cut_once(line, Class::White) {
            Some((_, a)) => match cut_once(a, Class::White) {
                Some((_, b)) => Some((pid, string_of(cut(b, Class::White)))),
                None => None,
            },
            None => None,
        },
        _ => None,
    }
}

/// The label of the first job from line `i` on that runs as `pid`.
pub open spec fn job_in(ls: Seq<Seq<char>>, pid: Pid, i: int) -> Option<Seq<char>>
    decreases ls.len() - i,
{
    if i >= ls.len() {
        None
    } else {
        match job_row(ls[i]) {
            Some(j) => if j.0 == pid {
                Some(j.1)
            } else {
                job_in(ls, pid, i + 1)
            },
            None => job_in(ls, pid, i + 1),
        }
    }
}

/// The label of the job that runs as `pid`, in what `launchctl list` printed.
pub fn job_label(out: &str, pid: Pid) -> (r: Option<String>)
    ensures
        text::opt(r) == job_in(text::lines(out@), pid, 0),
{
    let c = chars_of(out);
    let ls = lines_of(c.as_slice());
    let ghost all = text::lines(out@);
    assert(all.len() == ls@.len());
    let mut i: usize = 0;
    while i < ls.len()
        invariant
            all == text::lines(out@),
            text::pieces(ls@) == all,
            all.len() == ls@.len(),
            i <= ls@.len(),
            job_in(all, pid, 0) == job_in(all, pid, i as int),
        decreases ls@.len() - i,
    {
        let line = ls[i];
        assert(line@ == all[i as int]);
        if let Some((p, label)) = job_row_of(line) {
            if p == pid {
                return Some(label);
            }
        }
        i += 1;
    }
    None
}

/// Where the property list of a job may lie, in the order of the search.
pub open spec fn plist_paths(label: Seq<char>, home: Option<Seq<char>>) -> Seq<Seq<char>> {
    let file = "/"@ + label + ".plist"@;
    let own = match home {
        Some(h) => seq![h + "/"@ + "Library/LaunchAgents"@ + file],
        None => seq![],
    };
    own + seq![
        "/Library/LaunchAgents"@ + file,
        "/Library/LaunchDaemons"@ + file,
        "/System/Library/LaunchAgents"@ + file,
        "/System/Library/LaunchDaemons"@ + file,
    ]
}

fn under(dir: &str, file: &str) -> (r: String)
    ensures
        r@ == dir@ + file@,
{
    let mut s = text(dir);
    s.append(file);
    s
}

/// Where the property list of a job may lie. See the spec function
/// `plist_paths`.
pub fn plist_candidates(label: &str, home: Option<String>) -> (r: Vec<String>)
    ensures
        text::texts(r@) == plist_paths(label@, text::opt(home)),
{
    let mut file = text("/");
    file.append(label);
    file.append(".plist");
    let mut v: Vec<String> = Vec::new();
    if let Some(h) = &home {
        let mut s = text(h.as_str());
        s.append("/");
        s.append("Library/LaunchAgents");
        s.append(file.as_str());
        v.push(s);
    }
    v.push(under("/Library/LaunchAgents", file.as_str()));
    v.push(under("/Library/LaunchDaemons", file.as_str()));
    v.push(under("/System/Library/LaunchAgents", file.as_str()));
    v.push(under("/System/Library/LaunchDaemons", file.as_str()));
    assert(text::texts(v@) =~= plist_paths(label@, text::opt(home)));
    v
}

/// Whether the root of a chain is launchd.
pub open spec fn under_launchd(chain: Seq<ProcessView>) -> bool {
    chain.len() > 0 && (chain[0].pid == 1 || chain[0].name == "launchd"@)
}

/// Whether launchd is the parent of the last process of a chain.
pub open spec fn launchd_child(chain: Seq<ProcessView>) -> bool {
    chain.len() >= 2 && (chain[chain.len() - 2].pid == 1 || chain[chain.len() - 2].name
        == "launchd"@)
}

/// The source of a process by launchd: its job, or else launchd itself where
/// it is the direct parent.
pub open spec fn service(
    chain: Seq<ProcessView>,
    job: Option<Seq<char>>,
    plist: Option<Seq<char>>,
) -> Option<SourceView> {
    if !under_launchd(chain) {
        None
    } else {
        match job {
            Some(label) => Some(
                SourceView {
                    kind: "launchd"@,
                    label: Some(label),
                    detail: Some(
                        match plist {
                            Some(p) => "launchd job \""@ + label + "\" (plist: "@ + p + ")"@,
                            None => "launchd job \""@ + label + "\""@,
                        },
                    ),
                },
            ),
            None => if launchd_child(chain) {
                Some(
                    SourceView {
                        kind: "launchd"@,
                        label: None,
                        detail: Some(
                            "spawned directly by launchd (pid "@ + num::dec(
                                chain.last().pid as int,
                            ) + "), but no LaunchAgent/Daemon claims it (XPC?)"@,
                        ),
                    },
                )
            } else {
                None
            },
        }
    }
}

/// The pid to look for among the jobs of launchd, if any.
pub fn service_query(chain: &[Process]) -> (r: Option<Pid>)
    ensures
        r == if under_launchd(text::views(chain@)) {
            Some(text::views(chain@).last().pid)
        } else {
            None
        },
{
    let ghost all = text::views(chain@);
    let n: usize = chain.len();
    if n == 0 {
        return None;
    }
    assert(all[0] == chain@[0]@);
    assert(all.last() == chain@[n - 1]@);
    if chain[0].pid == 1 || same_str(chain[0].name.as_str(), "launchd") {
        Some(chain[n - 1].pid)
    } else {
        None
    }
}

/// Attribution by launchd for the last process of the chain. `job` is the
/// label of the job that runs as its pid, and `plist` its property list.
pub fn service_source(chain: &[Process], job: Option<String>, plist: Option<String>) -> (r: Option<
    Source,
>)
    ensures
        model::opt_source(r) == service(text::views(chain@), text::opt(job), text::opt(plist)),
{
    let ghost all = text::views(chain@);
    let n: usize = chain.len();
    match service_query(chain) {
        None => None,
        Some(pid) => match job {
            Some(label) => {
                let mut d = text("launchd job \"");
                d.append(label.as_str());
                match &plist {
                    Some(p) => {
                        d.append("\" (plist: ");
                        d.append(p.as_str());
                        d.append(")");
                    },
                    None => {
                        d.append("\"");
                    },
                }
                Some(Source { kind: text("launchd"), label: Some(label), detail: Some(d) })
            },
            None => {
                if n >= 2 {
                    assert(all[n - 2] == chain@[n - 2]@);
                }
                if n >= 2 && (chain[n - 2].pid == 1 || same_str(
                    chain[n - 2].name.as_str(),
                    "launchd",
                )) {
                    let mut d = text("spawned directly by launchd (pid ");
                    d.append(dec_i32(pid).as_str());
                    d.append("), but no LaunchAgent/Daemon claims it (XPC?)");
                    Some(Source { kind: text("launchd"), label: None, detail: Some(d) })
                } else {
                    None
                }
            },
        },
    }
}

} // verus!
