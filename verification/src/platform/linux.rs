//! Linux: everything comes from procfs; container runtime CLIs and systemctl
//! are consulted best-effort for attribution. The texts come in as arguments.

use std::collections::{HashMap, HashSet};

use vstd::prelude::*;
use vstd::slice::slice_subrange;
use vstd::string::*;

use crate::model::{Pid, Process, Socket, Source};
use crate::model::{ProcessView, SocketView, SourceView};
use crate::num::{dec_i32, dec_u64, dec_usize, hex_text, parse_hex_u16, parse_hex_u8};
use crate::num::{parse_i32, parse_i64, parse_u32, parse_u64};
use crate::platform::sort_sockets;
use crate::text::{
    begins, chars_of, cut, cut_at, cut_before, cut_once, cut_once_str, cut_start, ends, find_in,
    joined, lines_of, lossy_text, opt_copy, rfind_in, same_str, str_holds, string_of, text,
    without_prefix, without_suffix, words_of, Class,
};
use crate::util::{strip_deleted_suffix, Users};
use crate::{model, num, platform, text, util};

pub mod procfs;
pub mod sockets;

verus! {

broadcast use vstd::std_specs::hash::group_hash_axioms;

// ---------- /proc/stat and /proc/<pid> ----------

/// The first of the lines from `i` on that begins with `prefix`, without it.
pub open spec fn line_after(ls: Seq<Seq<char>>, prefix: Seq<char>, i: int) -> Option<Seq<char>>
    decreases ls.len() - i,
{
    if i >= ls.len() {
        None
    } else if text::starts_with(ls[i], prefix) {
        text::strip_prefix(ls[i], prefix)
    } else {
        line_after(ls, prefix, i + 1)
    }
}

fn first_line_after<'a>(raw: &'a [char], prefix: &str) -> (r: Option<&'a [char]>)
    ensures
        text::seen(r) == line_after(text::lines(raw@), prefix@, 0),
{
    let ls = lines_of(raw);
    let ghost all = text::lines(raw@);
    assert(all.len() == ls@.len());
    let mut i: usize = 0;
    while i < ls.len()
        invariant
            all == text::lines(raw@),
            text::pieces(ls@) == all,
            all.len() == ls@.len(),
            i <= ls@.len(),
            line_after(all, prefix@, 0) == line_after(all, prefix@, i as int),
        decreases ls@.len() - i,
    {
        let line = ls[i];
        assert(line@ == all[i as int]);
        if let Some(v) = without_prefix(line, prefix) {
            return Some(v);
        }
        i += 1;
    }
    None
}

/// The boot time in the text of `/proc/stat`.
pub open spec fn btime(stat: Seq<char>) -> Option<int> {
    match line_after(text::lines(stat), "btime "@, 0) {
        Some(v) => num::parse_signed(
            text::trim(v, Class::White),
            i64::MIN as int,
            i64::MAX as int,
        ),
        None => None,
    }
}

/// Reads the boot time from the text of `/proc/stat`.
pub fn boot_time(stat: &str) -> (r: Option<i64>)
    ensures
        (match r {
            Some(v) => Some(v as int),
            None => None,
        }) == btime(stat@),
{
    let c = chars_of(stat);
    match first_line_after(c.as_slice(), "btime ") {
        Some(v) => parse_i64(cut(v, Class::White)),
        None => None,
    }
}

/// A natural number, or 0 for any other text.
pub open spec fn number_or_zero(s: Seq<char>) -> int {
    match num::parse_unsigned(s, 10, u64::MAX as int) {
        Some(v) => v,
        None => 0,
    }
}

/// The resident pages: 0 for a negative number or any other text.
pub open spec fn pages(s: Seq<char>) -> int {
    match num::parse_signed(s, i64::MIN as int, i64::MAX as int) {
        Some(v) => if v < 0 {
            0
        } else {
            v
        },
        None => 0,
    }
}

/// The fields behind the command name in a stat line.
pub open spec fn stat_fields(comm: Seq<char>, rest: Seq<Seq<char>>) -> Option<
    (Seq<char>, int, char, int, int, int),
> {
    if rest.len() < 22 || rest[0].len() == 0 {
        None
    } else {
        match (
            num::parse_signed(rest[1], i32::MIN as int, i32::MAX as int),
            num::parse_unsigned(rest[19], 10, u64::MAX as int),
        ) {
            (Some(ppid), Some(start)) => {
                let ticks = number_or_zero(rest[11]) + number_or_zero(rest[12]);
                if ticks > u64::MAX {
                    None
                } else {
                    Some((comm, ppid, rest[0][0], start, ticks, pages(rest[21])))
                }
            },
            _ => None,
        }
    }
}

/// What a stat line says: command name, parent, state, start time in ticks,
/// cpu ticks and resident pages. The command name stands between the first
/// opening and the last closing parenthesis.
pub open spec fn stat_line(raw: Seq<char>) -> Option<(Seq<char>, int, char, int, int, int)> {
    let close = text::last_in(raw, Class::Is(')'), raw.len() as int);
    let open = text::next_in(raw, Class::Is('('), 0);
    if close < 0 || open >= close || close + 1 >= raw.len() {
        None
    } else {
        stat_fields(
            raw.subrange(open + 1, close),
            text::words(raw.subrange(close + 2, raw.len() as int)),
        )
    }
}

/// What a parsed stat line shows.
pub open spec fn stat_view(r: Option<(String, Pid, char, u64, u64, u64)>) -> Option<
    (Seq<char>, int, char, int, int, int),
> {
    match r {
        Some(s) => Some((s.0@, s.1 as int, s.2, s.3 as int, s.4 as int, s.5 as int)),
        None => None,
    }
}

fn ticks_of(s: &[char]) -> (r: u64)
    ensures
        r == number_or_zero(s@),
{
    match parse_u64(s) {
        Some(v) => v,
        None => 0,
    }
}

fn pages_of(s: &[char]) -> (r: u64)
    ensures
        r == pages(s@),
{
    match parse_i64(s) {
        Some(v) => if v < 0 {
            0
        } else {
            v as u64
        },
        None => 0,
    }
}

/// Parse /proc/<pid>/stat: comm may contain spaces and parentheses, so
/// cut at the last ')'. The result is (comm, ppid, state, starttime ticks,
/// total cpu ticks, rss pages).
pub fn parse_stat(raw: &str) -> (r: Option<(String, Pid, char, u64, u64, u64)>)
    ensures
        stat_view(r) == stat_line(raw@),
{
    let c = chars_of(raw);
    let s = c.as_slice();
    let close = match rfind_in(s, Class::Is(')')) {
        Some(i) => i,
        None => {
            return None;
        },
    };
    let open = find_in(s, Class::Is('('), 0);
    let n: usize = s.len();
    if open >= close || close + 1 >= n {
        return None;
    }
    let comm = slice_subrange(s, open + 1, close);
    let rest = words_of(slice_subrange(s, close + 2, n));
    let ghost fields = text::words(raw@.subrange(close + 2, n as int));
    assert(fields.len() == rest@.len());
    if rest.len() < 22 {
        return None;
    }
    assert(fields[0] == rest@[0]@);
    assert(fields[1] == rest@[1]@);
    assert(fields[11] == rest@[11]@);
    assert(fields[12] == rest@[12]@);
    assert(fields[19] == rest@[19]@);
    assert(fields[21] == rest@[21]@);
    if rest[0].len() == 0 {
        return None;
    }
    match (parse_i32(rest[1]), parse_u64(rest[19])) {
        (Some(ppid), Some(start)) => {
            let ut = ticks_of(rest[11]);
            let st = ticks_of(rest[12]);
            match ut.checked_add(st) {
                Some(ticks) => Some(
                    (string_of(comm), ppid, rest[0][0], start, ticks, pages_of(rest[21])),
                ),
                None => None,
            }
        },
        _ => None,
    }
}

/// The effective uid in the text of `/proc/<pid>/status`.
pub open spec fn status_uid(raw: Seq<char>) -> Option<int> {
    match line_after(text::lines(raw), "Uid:"@, 0) {
        Some(v) => if text::words(v).len() >= 2 {
            num::parse_unsigned(text::words(v)[1], 10, u32::MAX as int)
        } else {
            None
        },
        None => None,
    }
}

/// Reads the effective uid from the text of `/proc/<pid>/status`.
pub fn parse_uid_from_status(raw: &str) -> (r: Option<u32>)
    ensures
        (match r {
            Some(v) => Some(v as int),
            None => None,
        }) == status_uid(raw@),
{
    let c = chars_of(raw);
    match first_line_after(c.as_slice(), "Uid:") {
        Some(v) => {
            // real, effective, saved, fs
            let w = words_of(v);
            assert(text::words(v@).len() == w@.len());
            if w.len() >= 2 {
                assert(text::words(v@)[1] == w@[1]@);
                parse_u32(w[1])
            } else {
                None
            }
        },
        None => None,
    }
}

// ---------- the process table ----------

/// The clock ticks of a second.
pub const CLK_TCK: u64 = 100;

/// The KiB of a page.
pub const PAGE_KB: u64 = 4;

/// Whether a process is a kernel thread: kthreadd itself or a child of it.
pub open spec fn is_kernel_thread(pid: Pid, ppid: Pid) -> bool {
    pid == 2 || ppid == 2
}

/// The second in which a process started, `ticks` after boot, to the nearest.
pub open spec fn start_second(btime: int, ticks: int) -> int {
    btime + (ticks + 50) / 100
}

/// A product, at the end of the range when it does not fit.
pub open spec fn times(a: int, b: int) -> int {
    if a * b > u64::MAX {
        u64::MAX as int
    } else {
        a * b
    }
}

/// A process of the table.
pub open spec fn listed(
    pid: Pid,
    btime: int,
    name: Seq<char>,
    ppid: Pid,
    start: int,
    ticks: int,
    rss: int,
    uid: Option<u32>,
    user: Option<Seq<char>>,
    cpu: Option<u64>,
) -> ProcessView {
    let kernel = is_kernel_thread(pid, ppid);
    ProcessView {
        pid,
        ppid: Some(ppid),
        name,
        user,
        uid,
        started: if kernel || start_second(btime, start) > i64::MAX {
            None
        } else {
            Some(start_second(btime, start) as i64)
        },
        kernel_thread: kernel,
        cpu: if kernel {
            None
        } else {
            cpu
        },
        mem_kb: if rss > 0 {
            Some(times(rss, 4) as u64)
        } else {
            None
        },
        cpu_time_ms: if !kernel && ticks > 0 {
            Some(times(ticks, 10) as u64)
        } else {
            None
        },
        ..ProcessView::blank()
    }
}

fn scaled(a: u64, b: u64) -> (r: u64)
    ensures
        r == times(a as int, b as int),
{
    match a.checked_mul(b) {
        Some(p) => p,
        None => u64::MAX,
    }
}

/// When a process started that began `ticks` after boot.
pub fn started_at(btime: i64, ticks: u64) -> (r: Option<i64>)
    ensures
        r == if start_second(btime as int, ticks as int) > i64::MAX {
            None
        } else {
            Some(start_second(btime as int, ticks as int) as i64)
        },
{
    let t: i128 = btime as i128 + (ticks as i128 + 50) / 100;
    if t > i64::MAX as i128 {
        None
    } else {
        Some(t as i64)
    }
}

/// The entry of the process table for one parsed stat line. `cpu` is the
/// average cpu percent, where it is worth showing.
pub fn list_entry(
    pid: Pid,
    btime: i64,
    stat: (String, Pid, char, u64, u64, u64),
    uid: Option<u32>,
    user: Option<String>,
    cpu: Option<u64>,
) -> (r: Process)
    ensures
        r@ == listed(
            pid,
            btime as int,
            stat.0@,
            stat.1,
            stat.3 as int,
            stat.4 as int,
            stat.5 as int,
            uid,
            text::opt(user),
            cpu,
        ),
{
    let ghost want = listed(
        pid,
        btime as int,
        stat.0@,
        stat.1,
        stat.3 as int,
        stat.4 as int,
        stat.5 as int,
        uid,
        text::opt(user),
        cpu,
    );
    let kernel_thread = pid == 2 || stat.1 == 2;
    let started: Option<i64> = if kernel_thread {
        None
    } else {
        started_at(btime, stat.3)
    };
    let mem_kb: Option<u64> = if stat.5 > 0 {
        Some(scaled(stat.5, PAGE_KB))
    } else {
        None
    };
    let cpu_time_ms: Option<u64> = if !kernel_thread && stat.4 > 0 {
        Some(scaled(stat.4, 1000 / CLK_TCK))
    } else {
        None
    };
    let r = Process {
        pid,
        ppid: Some(stat.1),
        name: stat.0,
        exe: None,
        exe_deleted: false,
        cmdline: Vec::new(),
        cwd: None,
        user,
        uid,
        started,
        env: None,
        kernel_thread,
        cpu: if kernel_thread {
            None
        } else {
            cpu
        },
        mem_kb,
        cpu_time_ms,
    };
    assert(r@.cmdline =~= want.cmdline);
    assert(r@ =~= want);
    r
}

/// Linux, with the user names that it has resolved.
pub struct Linux {
    users: Users,
}

impl View for Linux {
    type V = Map<u32, Option<Seq<char>>>;

    closed spec fn view(&self) -> Map<u32, Option<Seq<char>>> {
        self.users@
    }
}

impl Linux {
    pub fn new(users: Users) -> (r: Linux)
        ensures
            r@ == users@,
    {
        Linux { users }
    }

    /// Whether the name for `uid` has been resolved, with or without success.
    pub fn knows(&self, uid: u32) -> (r: bool)
        ensures
            r == self@.contains_key(uid),
    {
        self.users.knows(uid)
    }

    /// The entry of the process table for one parsed stat line. `id_output` is
    /// what `id -un` printed for the uid, which is asked only where `knows`
    /// says no.
    pub fn entry(
        &mut self,
        pid: Pid,
        btime: i64,
        stat: (String, Pid, char, u64, u64, u64),
        uid: Option<u32>,
        id_output: Option<&str>,
        cpu: Option<u64>,
    ) -> (r: Process)
        ensures
            ({
                let user = match uid {
                    Some(u) => util::user_name(old(self)@, u, util::opt_str(id_output)),
                    None => None,
                };
                &&& r@ == listed(
                    pid,
                    btime as int,
                    stat.0@,
                    stat.1,
                    stat.3 as int,
                    stat.4 as int,
                    stat.5 as int,
                    uid,
                    user,
                    cpu,
                )
                &&& final(self)@ == match uid {
                    Some(u) => old(self)@.insert(u, user),
                    None => old(self)@,
                }
            }),
    {
        let user: Option<String> = match uid {
            Some(u) => self.users.name_for(u, id_output),
            None => None,
        };
        list_entry(pid, btime, stat, uid, user, cpu)
    }
}

// ---------- details ----------

/// The first position at or after `i` that holds a zero byte, or the length.
pub open spec fn next_zero(b: Seq<u8>, i: int) -> int
    decreases b.len() - i,
{
    if i >= b.len() {
        b.len() as int
    } else if b[i] == 0 {
        i
    } else {
        next_zero(b, i + 1)
    }
}

/// What `next_zero` finds lies in range.
pub proof fn next_zero_in_range(b: Seq<u8>, i: int)
    requires
        0 <= i <= b.len(),
    ensures
        i <= next_zero(b, i) <= b.len(),
    decreases b.len() - i,
{
    if i < b.len() && b[i] != 0 {
        next_zero_in_range(b, i + 1);
    }
}

/// The non-empty runs between zero bytes from position `i` on.
pub open spec fn fields_from(b: Seq<u8>, i: int) -> Seq<Seq<u8>>
    decreases b.len() - i,
    when 0 <= i <= b.len()
{
    proof {
        next_zero_in_range(b, i);
    }
    let j = next_zero(b, i);
    let here: Seq<Seq<u8>> = if j > i {
        seq![b.subrange(i, j)]
    } else {
        seq![]
    };
    if j >= b.len() {
        here
    } else {
        here + fields_from(b, j + 1)
    }
}

/// What a list of byte slices shows.
pub open spec fn runs(v: Seq<&[u8]>) -> Seq<Seq<u8>> {
    Seq::new(v.len(), |i: int| v[i]@)
}

fn zero_cut<'a>(b: &'a [u8]) -> (r: Vec<&'a [u8]>)
    ensures
        runs(r@) == fields_from(b@, 0),
{
    let n: usize = b.len();
    let mut out: Vec<&'a [u8]> = Vec::new();
    let mut i: usize = 0;
    assert(runs(out@) + fields_from(b@, 0) =~= fields_from(b@, 0));
    loop
        invariant
            n == b@.len(),
            0 <= i <= n,
            runs(out@) + fields_from(b@, i as int) == fields_from(b@, 0),
        decreases n - i,
    {
        let mut j: usize = i;
        while j < n && b[j] != 0
            invariant
                n == b@.len(),
                i <= j <= n,
                next_zero(b@, i as int) == next_zero(b@, j as int),
            decreases n - j,
        {
            j += 1;
        }
        let ghost before = out@;
        if j > i {
            out.push(slice_subrange(b, i, j));
            assert(runs(out@) =~= runs(before).push(b@.subrange(i as int, j as int)));
        }
        if j >= n {
            assert(runs(out@) =~= fields_from(b@, 0));
            return out;
        }
        assert(runs(out@) + fields_from(b@, j + 1) =~= runs(before) + fields_from(b@, i as int));
        i = j + 1;
    }
}

/// The arguments in the bytes of `/proc/<pid>/cmdline`.
pub open spec fn arguments(b: Seq<u8>) -> Seq<Seq<char>> {
    Seq::new(fields_from(b, 0).len(), |i: int| text::lossy(fields_from(b, 0)[i]))
}

/// Reads the arguments from the bytes of `/proc/<pid>/cmdline`.
pub fn parse_cmdline(b: &[u8]) -> (r: Vec<String>)
    ensures
        text::texts(r@) == arguments(b@),
{
    let f = zero_cut(b);
    let ghost all = fields_from(b@, 0);
    assert(all.len() == f@.len());
    let mut out: Vec<String> = Vec::new();
    let mut i: usize = 0;
    while i < f.len()
        invariant
            runs(f@) == all,
            all.len() == f@.len(),
            i <= f@.len(),
            out@.len() == i,
            forall|j: int| 0 <= j < i ==> (#[trigger] out@[j])@ == text::lossy(all[j]),
        decreases f@.len() - i,
    {
        let run = f[i];
        assert(run@ == all[i as int]);
        out.push(lossy_text(run));
        i += 1;
    }
    assert(text::texts(out@) =~= arguments(b@));
    out
}

/// The variables among the first `n` entries: an entry without `=` is none.
pub open spec fn assignments(entries: Seq<Seq<char>>, n: int) -> Seq<(Seq<char>, Seq<char>)>
    decreases n,
{
    if n <= 0 {
        seq![]
    } else {
        match text::split_once(entries[n - 1], Class::Is('=')) {
            Some(kv) => assignments(entries, n - 1).push(kv),
            None => assignments(entries, n - 1),
        }
    }
}

/// The variables among some entries of an environment.
pub fn parse_entries(entries: &Vec<String>) -> (r: Vec<(String, String)>)
    ensures
        model::vars(r@) == assignments(text::texts(entries@), entries@.len() as int),
{
    broadcast use crate::model::vars_push;

    let ghost all = text::texts(entries@);
    let mut out: Vec<(String, String)> = Vec::new();
    let mut i: usize = 0;
    assert(model::vars(out@) =~= seq![]);
    while i < entries.len()
        invariant
            all == text::texts(entries@),
            i <= entries@.len(),
            model::vars(out@) == assignments(all, i as int),
        decreases entries@.len() - i,
    {
        assert(all[i as int] == entries@[i as int]@);
        let c = chars_of(entries[i].as_str());
        match cut_once(c.as_slice(), Class::Is('=')) {
            Some((k, v)) => {
                out.push((string_of(k), string_of(v)));
            },
            None => {},
        }
        i += 1;
    }
    out
}

/// The variables in the bytes of `/proc/<pid>/environ`.
pub open spec fn environment(b: Seq<u8>) -> Seq<(Seq<char>, Seq<char>)> {
    assignments(arguments(b), arguments(b).len() as int)
}

/// Reads the variables from the bytes of `/proc/<pid>/environ`.
pub fn parse_environ(b: &[u8]) -> (r: Vec<(String, String)>)
    ensures
        model::vars(r@) == environment(b@),
{
    let entries = parse_cmdline(b);
    assert(arguments(b@).len() == entries@.len());
    parse_entries(&entries)
}

/// A link target that may carry a mark that the file is gone.
pub open spec fn unmarked(link: Seq<char>) -> Seq<char> {
    if text::ends_with(link, " (deleted)"@) {
        link.subrange(0, link.len() - 10)
    } else {
        link
    }
}

/// A process with its details.
pub open spec fn detailed(
    brief: ProcessView,
    exe: Option<Seq<char>>,
    cwd: Option<Seq<char>>,
    cmdline: Option<Seq<u8>>,
    environ: Option<Seq<u8>>,
) -> ProcessView {
    ProcessView {
        exe: match exe {
            Some(l) => Some(unmarked(l)),
            None => brief.exe,
        },
        exe_deleted: match exe {
            Some(l) => text::ends_with(l, " (deleted)"@),
            None => brief.exe_deleted,
        },
        cwd,
        cmdline: match cmdline {
            Some(b) => if arguments(b).len() > 0 {
                arguments(b)
            } else {
                brief.cmdline
            },
            None => brief.cmdline,
        },
        env: match environ {
            Some(b) => Some(environment(b)),
            None => brief.env,
        },
        ..brief
    }
}

/// What an optional list of bytes shows.
pub open spec fn opt_bytes(o: Option<&[u8]>) -> Option<Seq<u8>> {
    match o {
        Some(b) => Some(b@),
        None => None,
    }
}

/// Fill in the details of a process from its links and files in procfs, each
/// none where it could not be read.
pub fn detail(
    brief: &Process,
    exe: Option<String>,
    cwd: Option<String>,
    cmdline: Option<&[u8]>,
    environ: Option<&[u8]>,
) -> (r: Process)
    ensures
        r@ == detailed(
            brief@,
            text::opt(exe),
            text::opt(cwd),
            opt_bytes(cmdline),
            opt_bytes(environ),
        ),
{
    let mut p = brief.clone();
    if let Some(link) = &exe {
        let (path, deleted) = strip_deleted_suffix(link.as_str());
        p.exe = Some(text(path));
        p.exe_deleted = deleted;
    }
    p.cwd = opt_copy(&cwd);
    if let Some(b) = cmdline {
        let parts = parse_cmdline(b);
        assert(arguments(b@).len() == parts@.len());
        if parts.len() > 0 {
            p.cmdline = parts;
        }
    }
    if let Some(b) = environ {
        p.env = Some(parse_environ(b));
    }
    p
}

// ---------- addresses ----------

/// The name of a socket state.
pub open spec fn state_name(st: Seq<char>, proto: Seq<char>) -> Seq<char> {
    if proto != "tcp"@ && proto != "tcp6"@ {
        "UNCONNECTED"@
    } else if st == "01"@ {
        "ESTABLISHED"@
    } else if st == "02"@ {
        "SYN_SENT"@
    } else if st == "03"@ {
        "SYN_RECV"@
    } else if st == "04"@ {
        "FIN_WAIT1"@
    } else if st == "05"@ {
        "FIN_WAIT2"@
    } else if st == "06"@ {
        "TIME_WAIT"@
    } else if st == "07"@ {
        "CLOSE"@
    } else if st == "08"@ {
        "CLOSE_WAIT"@
    } else if st == "0A"@ {
        "LISTEN"@
    } else {
        "0x"@ + st
    }
}

/// See the spec function `state_name`.
pub fn socket_state_name(st: &str, proto: &str) -> (r: String)
    ensures
        r@ == state_name(st@, proto@),
{
    if !same_str(proto, "tcp") && !same_str(proto, "tcp6") {
        return text("UNCONNECTED");
    }
    if same_str(st, "01") {
        text("ESTABLISHED")
    } else if same_str(st, "02") {
        text("SYN_SENT")
    } else if same_str(st, "03") {
        text("SYN_RECV")
    } else if same_str(st, "04") {
        text("FIN_WAIT1")
    } else if same_str(st, "05") {
        text("FIN_WAIT2")
    } else if same_str(st, "06") {
        text("TIME_WAIT")
    } else if same_str(st, "07") {
        text("CLOSE")
    } else if same_str(st, "08") {
        text("CLOSE_WAIT")
    } else if same_str(st, "0A") {
        text("LISTEN")
    } else {
        let mut out = text("0x");
        out.append(st);
        out
    }
}

/// The value of the `i`th pair of hexadecimal digits.
pub open spec fn hex_pair(s: Seq<char>, i: int) -> Option<int> {
    num::parse_unsigned(s.subrange(2 * i, 2 * i + 2), 16, u8::MAX as int)
}

/// Whether every pair of characters is a byte in hexadecimal.
pub open spec fn all_hex(s: Seq<char>) -> bool {
    forall|i: int| 0 <= i < s.len() / 2 ==> #[trigger] hex_pair(s, i) is Some
}

/// The bytes that pairs of hexadecimal digits write.
pub open spec fn bytes_in_hex(s: Seq<char>) -> Option<Seq<u8>> {
    if s.len() % 2 == 0 && all_hex(s) {
        Some(Seq::new(s.len() / 2, |i: int| hex_pair(s, i)->0 as u8))
    } else {
        None
    }
}

/// What optional bytes show.
pub open spec fn byte_view(r: Option<Vec<u8>>) -> Option<Seq<u8>> {
    match r {
        Some(v) => Some(v@),
        None => None,
    }
}

/// See the spec function `bytes_in_hex`.
pub fn hex_bytes(s: &[char]) -> (r: Option<Vec<u8>>)
    ensures
        byte_view(r) == bytes_in_hex(s@),
{
    let n: usize = s.len();
    if n % 2 != 0 {
        return None;
    }
    let mut out: Vec<u8> = Vec::new();
    let mut i: usize = 0;
    while i < n / 2
        invariant
            n == s@.len(),
            n % 2 == 0,
            i <= n / 2,
            out@.len() == i,
            forall|j: int| 0 <= j < i ==> #[trigger] hex_pair(s@, j) == Some(out@[j] as int),
        decreases n / 2 - i,
    {
        match parse_hex_u8(slice_subrange(s, 2 * i, 2 * i + 2)) {
            Some(b) => {
                out.push(b);
            },
            None => {
                assert(hex_pair(s@, i as int) is None);
                return None;
            },
        }
        i += 1;
    }
    assert forall|j: int| 0 <= j < s@.len() / 2 implies #[trigger] hex_pair(s@, j) is Some by {
        assert(hex_pair(s@, j) == Some(out@[j] as int));
    }
    assert forall|j: int| 0 <= j < s@.len() / 2 implies out@[j] == hex_pair(s@, j)->0 as u8 by {
        assert(hex_pair(s@, j) == Some(out@[j] as int));
    }
    assert(out@ =~= bytes_in_hex(s@)->0);
    Some(out)
}

/// Four bytes as a dotted address.
pub open spec fn dotted(a: u8, b: u8, c: u8, d: u8) -> Seq<char> {
    num::dec(a as int) + "."@ + num::dec(b as int) + "."@ + num::dec(c as int) + "."@ + num::dec(
        d as int,
    )
}

fn dotted_text(a: u8, b: u8, c: u8, d: u8) -> (r: String)
    ensures
        r@ == dotted(a, b, c, d),
{
    let mut out = dec_u64(a as u64);
    out.append(".");
    out.append(dec_u64(b as u64).as_str());
    out.append(".");
    out.append(dec_u64(c as u64).as_str());
    out.append(".");
    out.append(dec_u64(d as u64).as_str());
    out
}

/// The IPv4 address that the kernel writes as one little-endian word.
pub open spec fn v4_address(s: Seq<char>) -> Option<Seq<char>> {
    match bytes_in_hex(s) {
        Some(b) => if b.len() == 4 {
            Some(dotted(b[3], b[2], b[1], b[0]))
        } else {
            None
        },
        None => None,
    }
}

/// Reads an IPv4 address of `/proc/net/tcp`.
pub fn hex_v4(s: &str) -> (r: Option<String>)
    ensures
        text::opt(r) == v4_address(s@),
{
    let c = chars_of(s);
    hex_v4_of(c.as_slice())
}

fn hex_v4_of(s: &[char]) -> (r: Option<String>)
    ensures
        text::opt(r) == v4_address(s@),
{
    match hex_bytes(s) {
        Some(b) => if b.len() == 4 {
            Some(dotted_text(b[3], b[2], b[1], b[0]))
        } else {
            None
        },
        None => None,
    }
}

/// The `i`th group of 16 bits.
pub open spec fn group(b: Seq<u8>, i: int) -> int {
    b[2 * i] * 256 + b[2 * i + 1]
}

/// The groups of an address of 16 bytes.
pub open spec fn groups(b: Seq<u8>) -> Seq<int> {
    Seq::new(8, |i: int| group(b, i))
}

/// How many zeros stand in `g` from position `i` on.
pub open spec fn zeros_from(g: Seq<int>, i: int) -> int
    decreases g.len() - i,
{
    if i < 0 || i >= g.len() || g[i] != 0 {
        0
    } else {
        1 + zeros_from(g, i + 1)
    }
}

/// Where the longest run of zeros at or after `i` begins, and its length; of
/// several the first.
pub open spec fn longest_zeros(g: Seq<int>, i: int) -> (int, int)
    decreases g.len() - i,
{
    if i >= g.len() {
        (g.len() as int, 0)
    } else {
        let later = longest_zeros(g, i + 1);
        if zeros_from(g, i) >= later.1 {
            (i, zeros_from(g, i))
        } else {
            later
        }
    }
}

/// The groups from `i` up to `j` in hexadecimal, with colons between them.
pub open spec fn coloned(g: Seq<int>, i: int, j: int) -> Seq<char> {
    text::join(
        Seq::new((j - i) as nat, |k: int| num::nat_text(g[i + k] as nat, 16)),
        ":"@,
    )
}

/// Whether an address of 16 bytes maps an IPv4 address.
pub open spec fn maps_v4(g: Seq<int>) -> bool {
    g[0] == 0 && g[1] == 0 && g[2] == 0 && g[3] == 0 && g[4] == 0 && g[5] == 0xffff
}

/// An IPv6 address in its canonical form: groups in hexadecimal, the longest
/// run of two or more zeros left out, and a mapped IPv4 address dotted.
pub open spec fn v6_text(b: Seq<u8>) -> Seq<char> {
    let g = groups(b);
    let z = longest_zeros(g, 0);
    if maps_v4(g) {
        "::ffff:"@ + dotted(b[12], b[13], b[14], b[15])
    } else if z.1 > 1 {
        coloned(g, 0, z.0) + "::"@ + coloned(g, z.0 + z.1, 8)
    } else {
        coloned(g, 0, 8)
    }
}

fn coloned_text(g: &Vec<u16>, i: usize, j: usize) -> (r: String)
    requires
        i <= j <= g@.len(),
    ensures
        r@ == coloned(Seq::new(g@.len(), |k: int| g@[k] as int), i as int, j as int),
{
    let ghost gs = Seq::new(g@.len(), |k: int| g@[k] as int);
    let ghost parts = Seq::new((j - i) as nat, |k: int| num::nat_text(gs[i + k] as nat, 16));
    let mut out: Vec<String> = Vec::new();
    let mut k: usize = i;
    while k < j
        invariant
            i <= k <= j <= g@.len(),
            gs == Seq::new(g@.len(), |k: int| g@[k] as int),
            parts == Seq::new((j - i) as nat, |k: int| num::nat_text(gs[i + k] as nat, 16)),
            out@.len() == k - i,
            forall|x: int| 0 <= x < k - i ==> (#[trigger] out@[x])@ == parts[x],
        decreases j - k,
    {
        out.push(hex_text(g[k]));
        assert(parts[k - i] == num::nat_text(gs[k as int] as nat, 16));
        k += 1;
    }
    assert(text::texts(out@) =~= parts);
    joined(&out, ":")
}

/// See the spec function `v6_text`.
pub fn fmt_v6(b: &Vec<u8>) -> (r: String)
    requires
        b@.len() == 16,
    ensures
        r@ == v6_text(b@),
{
    let mut g: Vec<u16> = Vec::new();
    let mut i: usize = 0;
    while i < 8
        invariant
            b@.len() == 16,
            i <= 8,
            g@.len() == i,
            forall|j: int| 0 <= j < i ==> #[trigger] g@[j] == group(b@, j),
        decreases 8 - i,
    {
        g.push(b[2 * i] as u16 * 256 + b[2 * i + 1] as u16);
        i += 1;
    }
    let ghost gs = groups(b@);
    assert(gs =~= Seq::new(g@.len(), |k: int| g@[k] as int));
    if g[0] == 0 && g[1] == 0 && g[2] == 0 && g[3] == 0 && g[4] == 0 && g[5] == 0xffff {
        assert(maps_v4(gs));
        let mut out = text("::ffff:");
        out.append(dotted_text(b[12], b[13], b[14], b[15]).as_str());
        return out;
    }
    let mut n: usize = 8;
    let mut run: usize = 0;
    let mut start: usize = 8;
    let mut len: usize = 0;
    while n > 0
        invariant
            g@.len() == 8,
            gs == groups(b@),
            gs == Seq::new(g@.len(), |k: int| g@[k] as int),
            n <= 8,
            run == zeros_from(gs, n as int),
            run <= 8 - n,
            (start as int, len as int) == longest_zeros(gs, n as int),
            start + len <= 8,
        decreases n,
    {
        n -= 1;
        if g[n] == 0 {
            run += 1;
        } else {
            run = 0;
        }
        assert(gs[n as int] == g@[n as int]);
        if run >= len {
            start = n;
            len = run;
        }
    }
    assert(!maps_v4(gs));
    if len > 1 {
        let mut out = coloned_text(&g, 0, start);
        out.append("::");
        out.append(coloned_text(&g, start + len, 8).as_str());
        out
    } else {
        coloned_text(&g, 0, 8)
    }
}

/// The `i`th word of eight hexadecimal digits, byte by byte.
pub open spec fn hex_word(s: Seq<char>, i: int) -> Option<Seq<u8>> {
    bytes_in_hex(s.subrange(8 * i, 8 * i + 8))
}

/// The IPv6 address that the kernel writes as four little-endian words.
pub open spec fn v6_address(s: Seq<char>) -> Option<Seq<char>> {
    if s.len() != 32 {
        None
    } else {
        match (hex_word(s, 0), hex_word(s, 1), hex_word(s, 2), hex_word(s, 3)) {
            (Some(a), Some(b), Some(c), Some(d)) => Some(
                v6_text(a.reverse() + b.reverse() + c.reverse() + d.reverse()),
            ),
            _ => None,
        }
    }
}

/// Reads an IPv6 address of `/proc/net/tcp6`.
pub fn hex_v6(s: &str) -> (r: Option<String>)
    ensures
        text::opt(r) == v6_address(s@),
{
    let c = chars_of(s);
    hex_v6_of(c.as_slice())
}

fn push_reversed(out: &mut Vec<u8>, w: &Vec<u8>)
    requires
        w@.len() == 4,
    ensures
        final(out)@ == old(out)@ + w@.reverse(),
{
    out.push(w[3]);
    out.push(w[2]);
    out.push(w[1]);
    out.push(w[0]);
    assert(out@ =~= old(out)@ + w@.reverse());
}

fn hex_v6_of(s: &[char]) -> (r: Option<String>)
    ensures
        text::opt(r) == v6_address(s@),
{
    if s.len() != 32 {
        return None;
    }
    match (
        hex_bytes(slice_subrange(s, 0, 8)),
        hex_bytes(slice_subrange(s, 8, 16)),
        hex_bytes(slice_subrange(s, 16, 24)),
        hex_bytes(slice_subrange(s, 24, 32)),
    ) {
        (Some(a), Some(b), Some(c), Some(d)) => {
            let mut out: Vec<u8> = Vec::new();
            push_reversed(&mut out, &a);
            push_reversed(&mut out, &b);
            push_reversed(&mut out, &c);
            push_reversed(&mut out, &d);
            assert(out@ =~= a@.reverse() + b@.reverse() + c@.reverse() + d@.reverse());
            Some(fmt_v6(&out))
        },
        _ => None,
    }
}

/// An address of a socket table: IPv6 where the protocol ends in 6.
pub open spec fn address(ip: Seq<char>, proto: Seq<char>) -> Option<Seq<char>> {
    if text::ends_with(proto, "6"@) {
        v6_address(ip)
    } else {
        v4_address(ip)
    }
}

fn address_of(ip: &[char], proto: &str) -> (r: Option<String>)
    ensures
        text::opt(r) == address(ip@, proto@),
{
    let p = chars_of(proto);
    if ends(p.as_slice(), "6") {
        hex_v6_of(ip)
    } else {
        hex_v4_of(ip)
    }
}

// ---------- socket tables ----------

/// What one line of a socket table says: local address and port, the remote
/// column, the state and the inode.
pub open spec fn net_columns(cols: Seq<Seq<char>>, proto: Seq<char>) -> Option<
    (Seq<char>, u16, Seq<char>, Seq<char>, u64),
> {
    if cols.len() < 10 {
        None
    } else {
        match text::split_once(cols[1], Class::Is(':')) {
            Some(local) => match (
                num::parse_unsigned(local.1, 16, u16::MAX as int),
                address(local.0, proto),
                num::parse_unsigned(cols[9], 10, u64::MAX as int),
            ) {
                (Some(port), Some(addr), Some(inode)) => Some(
                    (addr, port as u16, cols[2], state_name(cols[3], proto), inode as u64),
                ),
                _ => None,
            },
            None => None,
        }
    }
}

/// What an entry of a socket table shows.
pub open spec fn entry_view(e: (String, u16, String, String, u64)) -> (
    Seq<char>,
    u16,
    Seq<char>,
    Seq<char>,
    u64,
) {
    (e.0@, e.1, e.2@, e.3@, e.4)
}

/// What an optional entry of a socket table shows.
pub open spec fn opt_entry_view(e: Option<(String, u16, String, String, u64)>) -> Option<
    (Seq<char>, u16, Seq<char>, Seq<char>, u64),
> {
    match e {
        Some(x) => Some(entry_view(x)),
        None => None,
    }
}

/// One line of /proc/net/{tcp,udp}[6] (minus the header).
pub fn parse_net_entry(line: &str, proto: &str) -> (r: Option<(String, u16, String, String, u64)>)
    ensures
        opt_entry_view(r) == net_columns(text::words(line@), proto@),
{
    let c = chars_of(line);
    net_entry_of(c.as_slice(), proto)
}

fn net_entry_of(line: &[char], proto: &str) -> (r: Option<(String, u16, String, String, u64)>)
    ensures
        opt_entry_view(r) == net_columns(text::words(line@), proto@),
{
    let cols = words_of(line);
    let ghost w = text::words(line@);
    assert(w.len() == cols@.len());
    if cols.len() < 10 {
        return None;
    }
    assert(w[1] == cols@[1]@);
    assert(w[2] == cols@[2]@);
    assert(w[3] == cols@[3]@);
    assert(w[9] == cols@[9]@);
    match cut_once(cols[1], Class::Is(':')) {
        Some((ip, port)) => match (parse_hex_u16(port), address_of(ip, proto), parse_u64(cols[9])) {
            (Some(port), Some(addr), Some(inode)) => {
                let st = string_of(cols[3]);
                Some(
                    (
                        addr,
                        port,
                        string_of(cols[2]),
                        socket_state_name(st.as_str(), proto),
                        inode,
                    ),
                )
            },
            _ => None,
        },
        None => None,
    }
}

/// An entry of one of the socket tables.
pub struct Entry {
    pub proto: String,
    pub local_addr: String,
    pub local_port: u16,
    /// The remote column as it stands.
    pub rem: String,
    pub state: String,
    pub inode: u64,
}

/// What an [`Entry`] shows.
#[verifier::ext_equal]
pub struct EntryView {
    pub proto: Seq<char>,
    pub local_addr: Seq<char>,
    pub local_port: u16,
    pub rem: Seq<char>,
    pub state: Seq<char>,
    pub inode: u64,
}

impl View for Entry {
    type V = EntryView;

    open spec fn view(&self) -> EntryView {
        EntryView {
            proto: self.proto@,
            local_addr: self.local_addr@,
            local_port: self.local_port,
            rem: self.rem@,
            state: self.state@,
            inode: self.inode,
        }
    }
}

/// The entries among the lines 1 to `n` of a table; line 0 is the header.
pub open spec fn table_entries(ls: Seq<Seq<char>>, proto: Seq<char>, n: int) -> Seq<EntryView>
    decreases n,
{
    if n <= 1 {
        seq![]
    } else {
        match net_columns(text::words(ls[n - 1]), proto) {
            Some(e) => table_entries(ls, proto, n - 1).push(
                EntryView {
                    proto,
                    local_addr: e.0,
                    local_port: e.1,
                    rem: e.2,
                    state: e.3,
                    inode: e.4,
                },
            ),
            None => table_entries(ls, proto, n - 1),
        }
    }
}

/// The entries of a whole table.
pub open spec fn entries_in(raw: Seq<char>, proto: Seq<char>) -> Seq<EntryView> {
    table_entries(text::lines(raw), proto, text::lines(raw).len() as int)
}

/// Reads the table of one protocol and appends its entries.
pub fn read_socket_table(proto: &str, raw: &str, out: &mut Vec<Entry>)
    ensures
        text::views(final(out)@) == text::views(old(out)@) + entries_in(raw@, proto@),
{
    broadcast use crate::text::group_views;

    let c = chars_of(raw);
    let ls = lines_of(c.as_slice());
    let ghost all = text::lines(raw@);
    assert(all.len() == ls@.len());
    let ghost start = text::views(out@);
    let n: usize = ls.len();
    let mut i: usize = 1;
    assert(start + table_entries(all, proto@, 1) =~= start);
    if n == 0 {
        assert(start + entries_in(raw@, proto@) =~= start);
        return;
    }
    while i < n
        invariant
            text::pieces(ls@) == all,
            all.len() == ls@.len() == n,
            1 <= i <= n,
            text::views(out@) == start + table_entries(all, proto@, i as int),
        decreases n - i,
    {
        let line = ls[i];
        assert(line@ == all[i as int]);
        if let Some(e) = net_entry_of(line, proto) {
            let ghost before = text::views(out@);
            let x = Entry {
                proto: text(proto),
                local_addr: e.0,
                local_port: e.1,
                rem: e.2,
                state: e.3,
                inode: e.4,
            };
            let ghost xv = x@;
            out.push(x);
            assert(text::views(out@) == before.push(xv));
            assert(before.push(xv) =~= start + table_entries(all, proto@, i as int).push(xv));
        }
        i += 1;
    }
}

/// The peer in the remote column: none unless it has an address and a port
/// other than 0.
pub open spec fn peer(rem: Seq<char>, proto: Seq<char>) -> Option<(Seq<char>, u16)> {
    match text::split_once(rem, Class::Is(':')) {
        Some(c) => match (num::parse_unsigned(c.1, 16, u16::MAX as int), address(c.0, proto)) {
            (Some(port), Some(ip)) => if port != 0 {
                Some((ip, port as u16))
            } else {
                None
            },
            _ => None,
        },
        None => None,
    }
}

/// The socket of a table entry.
pub open spec fn socket_of(e: EntryView, owners: Map<u64, Pid>) -> SocketView {
    SocketView {
        proto: e.proto,
        local_addr: e.local_addr,
        local_port: e.local_port,
        peer_addr: match peer(e.rem, e.proto) {
            Some(p) => Some(p.0),
            None => None,
        },
        peer_port: match peer(e.rem, e.proto) {
            Some(p) => Some(p.1),
            None => None,
        },
        state: e.state,
        pid: if owners.contains_key(e.inode) {
            Some(owners[e.inode])
        } else {
            None
        },
    }
}

/// Remote column, inode and owner map to a finished socket.
pub fn build_socket(e: &Entry, owners: &HashMap<u64, Pid>) -> (r: Socket)
    ensures
        r@ == socket_of(e@, owners@),
{
    let rem = chars_of(e.rem.as_str());
    let (peer_addr, peer_port): (Option<String>, Option<u16>) = match cut_once(
        rem.as_slice(),
        Class::Is(':'),
    ) {
        Some((ip, port)) => match (parse_hex_u16(port), address_of(ip, e.proto.as_str())) {
            (Some(port), Some(ip)) => if port != 0 {
                (Some(ip), Some(port))
            } else {
                (None, None)
            },
            _ => (None, None),
        },
        None => (None, None),
    };
    let pid: Option<Pid> = match owners.get(&e.inode) {
        Some(p) => Some(*p),
        None => None,
    };
    Socket {
        proto: e.proto.clone(),
        local_addr: e.local_addr.clone(),
        local_port: e.local_port,
        peer_addr,
        peer_port,
        state: e.state.clone(),
        pid,
    }
}

/// Which entries of the socket tables are asked for.
#[derive(Clone, Copy)]
pub enum Want {
    /// Those on a local port.
    Port(u16),
    /// Listening tcp and bound udp.
    Listening,
}

impl Want {
    /// Whether an entry is asked for.
    pub open spec fn takes(self, e: EntryView) -> bool {
        match self {
            Want::Port(p) => e.local_port == p,
            Want::Listening => !text::starts_with(e.proto, "tcp"@) || e.state == "LISTEN"@,
        }
    }

    fn test(self, e: &Entry) -> (r: bool)
        ensures
            r == self.takes(e@),
    {
        match self {
            Want::Port(p) => e.local_port == p,
            Want::Listening => {
                let c = chars_of(e.proto.as_str());
                !begins(c.as_slice(), "tcp") || same_str(e.state.as_str(), "LISTEN")
            },
        }
    }
}

/// Whether some entry has this inode.
pub open spec fn has_inode(es: Seq<EntryView>, inode: u64) -> bool {
    exists|i: int| 0 <= i < es.len() && (#[trigger] es[i]).inode == inode
}

/// The entries asked for among the first `n`, each inode once.
pub open spec fn picked(es: Seq<EntryView>, want: Want, n: int) -> Seq<EntryView>
    decreases n,
{
    if n <= 0 {
        seq![]
    } else if want.takes(es[n - 1]) && !has_inode(picked(es, want, n - 1), es[n - 1].inode) {
        picked(es, want, n - 1).push(es[n - 1])
    } else {
        picked(es, want, n - 1)
    }
}

/// The sockets of the entries asked for.
pub open spec fn wanted_sockets(
    es: Seq<EntryView>,
    want: Want,
    owners: Map<u64, Pid>,
) -> Seq<SocketView> {
    let p = picked(es, want, es.len() as int);
    Seq::new(p.len(), |i: int| socket_of(p[i], owners))
}

/// The sockets of the entries asked for, each inode once.
pub fn pick_sockets(entries: &Vec<Entry>, want: Want, owners: &HashMap<u64, Pid>) -> (r: Vec<
    Socket,
>)
    ensures
        text::views(r@) == wanted_sockets(text::views(entries@), want, owners@),
{
    let ghost es = text::views(entries@);
    let mut seen: HashSet<u64> = HashSet::new();
    let mut out: Vec<Socket> = Vec::new();
    let mut i: usize = 0;
    while i < entries.len()
        invariant
            es == text::views(entries@),
            i <= entries@.len(),
            out@.len() == picked(es, want, i as int).len(),
            forall|j: int|
                0 <= j < out@.len() ==> (#[trigger] out@[j])@ == socket_of(
                    picked(es, want, i as int)[j],
                    owners@,
                ),
            forall|x: u64| #[trigger]
                seen@.contains(x) <==> has_inode(picked(es, want, i as int), x),
        decreases entries@.len() - i,
    {
        let e = &entries[i];
        assert(es[i as int] == e@);
        let ghost was = picked(es, want, i as int);
        if want.test(e) && !seen.contains(&e.inode) {
            out.push(build_socket(e, owners));
            seen.insert(e.inode);
            proof {
                let now = was.push(e@);
                assert(now == picked(es, want, i + 1));
                assert forall|x: u64| #[trigger] seen@.contains(x) <==> has_inode(now, x) by {
                    if has_inode(was, x) {
                        let k = choose|k: int| 0 <= k < was.len() && (#[trigger] was[k]).inode == x;
                        assert(now[k].inode == x);
                    }
                    if x == e.inode {
                        assert(now[was.len() as int].inode == x);
                    }
                    if has_inode(now, x) {
                        let k = choose|k: int| 0 <= k < now.len() && (#[trigger] now[k]).inode == x;
                        if k < was.len() {
                            assert(was[k].inode == x);
                        }
                    }
                }
            }
        }
        i += 1;
    }
    assert(text::views(out@) =~= wanted_sockets(es, want, owners@));
    out
}

/// All sockets on a local port, from the entries of every table.
pub fn port_to_sockets(entries: &Vec<Entry>, port: u16, owners: &HashMap<u64, Pid>) -> (r: Vec<
    Socket,
>)
    ensures
        text::views(r@) == wanted_sockets(text::views(entries@), Want::Port(port), owners@),
{
    pick_sockets(entries, Want::Port(port), owners)
}

/// Listening tcp and bound udp sockets by protocol and port, from the entries
/// of every table.
pub fn list_sockets(entries: &Vec<Entry>, owners: &HashMap<u64, Pid>) -> (r: Vec<Socket>)
    ensures
        text::views(r@) == platform::sorted_sockets(
            wanted_sockets(text::views(entries@), Want::Listening, owners@),
        ),
{
    sort_sockets(&pick_sockets(entries, Want::Listening, owners))
}

/// No two picked entries share an inode, and each one asked for is there, by
/// its inode.
pub proof fn inodes_are_picked_once(es: Seq<EntryView>, want: Want, n: int)
    requires
        0 <= n <= es.len(),
    ensures
        forall|i: int, j: int|
            0 <= i < j < picked(es, want, n).len() ==> (#[trigger] picked(es, want, n)[i]).inode
                != (#[trigger] picked(es, want, n)[j]).inode,
        forall|i: int|
            0 <= i < n && want.takes(#[trigger] es[i]) ==> has_inode(
                picked(es, want, n),
                es[i].inode,
            ),
    decreases n,
{
    if n > 0 {
        inodes_are_picked_once(es, want, n - 1);
        let was = picked(es, want, n - 1);
        let now = picked(es, want, n);
        if was != now {
            assert forall|i: int, j: int| 0 <= i < j < now.len() implies (#[trigger] now[i]).inode
                != (#[trigger] now[j]).inode by {
                if j == was.len() {
                    assert(now[i] == was[i]);
                } else {
                    assert(now[i] == was[i] && now[j] == was[j]);
                }
            }
        }
        assert forall|i: int| 0 <= i < n && want.takes(#[trigger] es[i]) implies has_inode(
            now,
            es[i].inode,
        ) by {
            if has_inode(was, es[i].inode) {
                let k = choose|k: int|
                    0 <= k < was.len() && (#[trigger] was[k]).inode == es[i].inode;
                assert(now[k].inode == es[i].inode);
            } else {
                assert(i == n - 1);
                assert(now[was.len() as int].inode == es[i].inode);
            }
        }
    }
}

// ---------- open files ----------

/// The inode that a link of `/proc/<pid>/fd` to a socket names.
pub open spec fn link_inode(target: Seq<char>) -> Option<int> {
    match text::strip_prefix(target, "socket:["@) {
        Some(r) => match text::strip_suffix(r, "]"@) {
            Some(n) => num::parse_unsigned(n, 10, u64::MAX as int),
            None => None,
        },
        None => None,
    }
}

/// Reads the inode out of a link to a socket, "socket:[inode]".
pub fn socket_inode(target: &str) -> (r: Option<u64>)
    ensures
        (match r {
            Some(v) => Some(v as int),
            None => None,
        }) == link_inode(target@),
{
    let c = chars_of(target);
    match without_prefix(c.as_slice(), "socket:[") {
        Some(r) => match without_suffix(r, "]") {
            Some(n) => parse_u64(n),
            None => None,
        },
        None => None,
    }
}

/// The inodes of the sockets among the first `n` links, as owned by `pid`.
pub open spec fn with_links(
    m: Map<u64, Pid>,
    pid: Pid,
    links: Seq<Seq<char>>,
    n: int,
) -> Map<u64, Pid>
    decreases n,
{
    if n <= 0 {
        m
    } else {
        match link_inode(links[n - 1]) {
            Some(i) => with_links(m, pid, links, n - 1).insert(i as u64, pid),
            None => with_links(m, pid, links, n - 1),
        }
    }
}

/// Note the sockets among the links of `/proc/<pid>/fd` as owned by `pid`.
pub fn note_owners(owners: &mut HashMap<u64, Pid>, pid: Pid, links: &Vec<String>)
    ensures
        final(owners)@ == with_links(
            old(owners)@,
            pid,
            text::texts(links@),
            links@.len() as int,
        ),
{
    let ghost start = owners@;
    let ghost all = text::texts(links@);
    let mut i: usize = 0;
    while i < links.len()
        invariant
            all == text::texts(links@),
            i <= links@.len(),
            owners@ == with_links(start, pid, all, i as int),
        decreases links@.len() - i,
    {
        assert(all[i as int] == links@[i as int]@);
        if let Some(inode) = socket_inode(links[i].as_str()) {
            owners.insert(inode, pid);
        }
        i += 1;
    }
}

/// What kind of thing a link of `/proc/<pid>/fd` leads to.
pub open spec fn is_socket_link(t: Seq<char>) -> bool {
    text::starts_with(t, "socket:["@)
}

/// Whether a link leads to a pipe.
pub open spec fn is_pipe_link(t: Seq<char>) -> bool {
    !is_socket_link(t) && text::starts_with(t, "pipe:"@)
}

/// Whether a link leads to a file, and not to something without a name.
pub open spec fn is_file_link(t: Seq<char>) -> bool {
    !is_socket_link(t) && !is_pipe_link(t) && !text::starts_with(t, "anon_inode:"@)
}

/// The files among the first `n` links, each once.
pub open spec fn files_among(links: Seq<Seq<char>>, n: int) -> Seq<Seq<char>>
    decreases n,
{
    if n <= 0 {
        seq![]
    } else if is_file_link(links[n - 1]) && !files_among(links, n - 1).contains(links[n - 1]) {
        files_among(links, n - 1).push(links[n - 1])
    } else {
        files_among(links, n - 1)
    }
}

/// How many of the first `n` links lead to a socket.
pub open spec fn sockets_among(links: Seq<Seq<char>>, n: int) -> int
    decreases n,
{
    if n <= 0 {
        0
    } else {
        sockets_among(links, n - 1) + if is_socket_link(links[n - 1]) {
            1int
        } else {
            0int
        }
    }
}

/// How many of the first `n` links lead to a pipe.
pub open spec fn pipes_among(links: Seq<Seq<char>>, n: int) -> int
    decreases n,
{
    if n <= 0 {
        0
    } else {
        pipes_among(links, n - 1) + if is_pipe_link(links[n - 1]) {
            1int
        } else {
            0int
        }
    }
}

/// How many lines of open files are shown.
pub const MAX_OPEN_FILES: usize = 200;

/// Files and a summary of sockets and pipes, before the limit.
pub open spec fn open_file_lines(links: Seq<Seq<char>>) -> Seq<Seq<char>> {
    let n = links.len() as int;
    let files = files_among(links, n);
    let with_sockets = if sockets_among(links, n) > 0 {
        files.push("["@ + num::dec(sockets_among(links, n)) + " socket(s) — see Ports tab]"@)
    } else {
        files
    };
    if pipes_among(links, n) > 0 {
        with_sockets.push("["@ + num::dec(pipes_among(links, n)) + " pipe(s)]"@)
    } else {
        with_sockets
    }
}

/// The first `n` of the lines, or all of them.
pub open spec fn at_most(lines: Seq<Seq<char>>, n: int) -> Seq<Seq<char>> {
    if lines.len() > n {
        lines.take(n)
    } else {
        lines
    }
}

fn has_line(v: &Vec<String>, s: &str) -> (r: bool)
    ensures
        r == text::texts(v@).contains(s@),
{
    let mut i: usize = 0;
    while i < v.len()
        invariant
            i <= v@.len(),
            forall|j: int| 0 <= j < i ==> text::texts(v@)[j] != s@,
        decreases v@.len() - i,
    {
        assert(text::texts(v@)[i as int] == v@[i as int]@);
        if same_str(v[i].as_str(), s) {
            return true;
        }
        i += 1;
    }
    false
}

/// Files (and a socket/pipe summary) behind the links of `/proc/<pid>/fd`, as
/// display lines.
pub fn open_files(links: &Vec<String>) -> (r: Vec<String>)
    ensures
        text::texts(r@) == at_most(open_file_lines(text::texts(links@)), MAX_OPEN_FILES as int),
{
    broadcast use crate::text::group_views;

    let ghost all = text::texts(links@);
    let mut files: Vec<String> = Vec::new();
    let mut sockets: usize = 0;
    let mut pipes: usize = 0;
    let mut i: usize = 0;
    while i < links.len()
        invariant
            all == text::texts(links@),
            i <= links@.len(),
            text::texts(files@) == files_among(all, i as int),
            sockets == sockets_among(all, i as int),
            pipes == pipes_among(all, i as int),
            sockets <= i,
            pipes <= i,
        decreases links@.len() - i,
    {
        assert(all[i as int] == links@[i as int]@);
        let c = chars_of(links[i].as_str());
        if begins(c.as_slice(), "socket:[") {
            sockets += 1;
        } else if begins(c.as_slice(), "pipe:") {
            pipes += 1;
        } else if !begins(c.as_slice(), "anon_inode:") {
            if !has_line(&files, links[i].as_str()) {
                files.push(links[i].clone());
            }
        }
        i += 1;
    }
    if sockets > 0 {
        let mut line = text("[");
        line.append(dec_usize(sockets).as_str());
        line.append(" socket(s) — see Ports tab]");
        files.push(line);
    }
    if pipes > 0 {
        let mut line = text("[");
        line.append(dec_usize(pipes).as_str());
        line.append(" pipe(s)]");
        files.push(line);
    }
    let ghost lines = text::texts(files@);
    assert(lines == open_file_lines(all));
    files.truncate(MAX_OPEN_FILES);
    assert(text::texts(files@) =~= at_most(lines, MAX_OPEN_FILES as int));
    files
}

/// Whether one of the links leads to `path`, be the file deleted or not.
pub open spec fn leads_to(links: Seq<Seq<char>>, path: Seq<char>) -> bool {
    exists|i: int| 0 <= i < links.len() && unmarked(#[trigger] links[i]) == path
}

/// Whether one of the links of `/proc/<pid>/fd` leads to `path`.
pub fn holds_file(links: &Vec<String>, path: &str) -> (r: bool)
    ensures
        r == leads_to(text::texts(links@), path@),
{
    let ghost all = text::texts(links@);
    let mut i: usize = 0;
    while i < links.len()
        invariant
            all == text::texts(links@),
            i <= links@.len(),
            forall|j: int| 0 <= j < i ==> unmarked(#[trigger] all[j]) != path@,
        decreases links@.len() - i,
    {
        assert(all[i as int] == links@[i as int]@);
        let (t, _) = strip_deleted_suffix(links[i].as_str());
        if same_str(t, path) {
            return true;
        }
        i += 1;
    }
    false
}

// ---------- containers ----------

/// What stands between the first and the second `sep`, or up to the end.
pub open spec fn second_part(s: Seq<char>, sep: Seq<char>) -> Option<Seq<char>> {
    match text::split_once_str(s, sep) {
        Some(c) => Some(text::before_str(c.1, sep)),
        None => None,
    }
}

/// The runtime and what follows its mark in a cgroup path.
pub open spec fn runtime_mark(path: Seq<char>) -> Option<(Seq<char>, Seq<char>)> {
    if text::starts_with(path, "/docker/"@) {
        Some(("docker"@, text::strip_prefix(path, "/docker/"@)->0))
    } else if text::starts_with(path, "/system.slice/docker-"@) && text::ends_with(
        text::strip_prefix(path, "/system.slice/docker-"@)->0,
        ".scope"@,
    ) {
        Some(
            (
                "docker"@,
                text::strip_suffix(
                    text::strip_prefix(path, "/system.slice/docker-"@)->0,
                    ".scope"@,
                )->0,
            ),
        )
    } else if text::starts_with(path, "/system.slice/containerd-"@) {
        Some(("containerd"@, text::strip_prefix(path, "/system.slice/containerd-"@)->0))
    } else if second_part(path, "cri-containerd:"@) is Some {
        Some(("containerd"@, second_part(path, "cri-containerd:"@)->0))
    } else if second_part(path, "cri-containerd-"@) is Some {
        Some(("containerd"@, second_part(path, "cri-containerd-"@)->0))
    } else if second_part(path, "libpod-"@) is Some {
        Some(("podman"@, text::before_str(second_part(path, "libpod-"@)->0, ".scope"@)))
    } else if text::starts_with(path, "/lxc/"@) {
        Some(("lxc"@, text::strip_prefix(path, "/lxc/"@)->0))
    } else {
        None
    }
}

/// The path of a cgroup line, behind its second colon.
pub open spec fn cgroup_path(line: Seq<char>) -> Option<Seq<char>> {
    match text::split_once(line, Class::Is(':')) {
        Some(a) => match text::split_once(a.1, Class::Is(':')) {
            Some(b) => Some(b.1),
            None => None,
        },
        None => None,
    }
}

/// How many characters of a container id are shown.
pub const SHORT_ID: usize = 12;

/// The first characters of an id, up to a slash.
pub open spec fn short_id(id: Seq<char>) -> Seq<char> {
    let own = match text::split_once(id, Class::Is('/')) {
        Some(c) => c.0,
        None => id,
    };
    if own.len() > 12 {
        own.take(12)
    } else {
        own
    }
}

/// The runtime and the short id that one cgroup line names.
pub open spec fn line_container(line: Seq<char>) -> Option<(Seq<char>, Seq<char>)> {
    match cgroup_path(line) {
        Some(path) => match runtime_mark(path) {
            Some(m) => Some((m.0, short_id(m.1))),
            None => None,
        },
        None => None,
    }
}

/// What the first line from `i` on that names a container says.
pub open spec fn first_container(ls: Seq<Seq<char>>, i: int) -> Option<(Seq<char>, Seq<char>)>
    decreases ls.len() - i,
{
    if i >= ls.len() {
        None
    } else if line_container(ls[i]) is Some {
        line_container(ls[i])
    } else {
        first_container(ls, i + 1)
    }
}

/// What a runtime and an id show.
pub open spec fn named_pair(r: Option<(String, String)>) -> Option<(Seq<char>, Seq<char>)> {
    match r {
        Some(p) => Some((p.0@, p.1@)),
        None => None,
    }
}

fn second_part_of<'a>(s: &'a [char], sep: &str) -> (r: Option<&'a [char]>)
    ensures
        text::seen(r) == second_part(s@, sep@),
{
    match cut_once_str(s, sep) {
        Some((_, rest)) => Some(cut_before(rest, sep)),
        None => None,
    }
}

/// What a runtime and what follows it show.
pub open spec fn mark_view(r: Option<(&str, &[char])>) -> Option<(Seq<char>, Seq<char>)> {
    match r {
        Some(p) => Some((p.0@, p.1@)),
        None => None,
    }
}

fn runtime_mark_of<'a>(path: &'a [char]) -> (r: Option<(&'static str, &'a [char])>)
    ensures
        mark_view(r) == runtime_mark(path@),
{
    if let Some(rest) = without_prefix(path, "/docker/") {
        return Some(("docker", rest));
    }
    if let Some(rest) = without_prefix(path, "/system.slice/docker-") {
        if let Some(id) = without_suffix(rest, ".scope") {
            return Some(("docker", id));
        }
    }
    if let Some(rest) = without_prefix(path, "/system.slice/containerd-") {
        return Some(("containerd", rest));
    }
    if let Some(rest) = second_part_of(path, "cri-containerd:") {
        return Some(("containerd", rest));
    }
    if let Some(rest) = second_part_of(path, "cri-containerd-") {
        return Some(("containerd", rest));
    }
    if let Some(rest) = second_part_of(path, "libpod-") {
        return Some(("podman", cut_before(rest, ".scope")));
    }
    if let Some(rest) = without_prefix(path, "/lxc/") {
        return Some(("lxc", rest));
    }
    None
}

fn short_id_of(id: &[char]) -> (r: String)
    ensures
        r@ == short_id(id@),
{
    let own: &[char] = match cut_once(id, Class::Is('/')) {
        Some((a, _)) => a,
        None => id,
    };
    if own.len() > SHORT_ID {
        let t = slice_subrange(own, 0, SHORT_ID);
        assert(t@ =~= own@.take(12));
        string_of(t)
    } else {
        string_of(own)
    }
}

fn container_on_line(line: &[char]) -> (r: Option<(String, String)>)
    ensures
        named_pair(r) == line_container(line@),
{
    match cut_once(line, Class::Is(':')) {
        Some((_, a)) => match cut_once(a, Class::Is(':')) {
            Some((_, path)) => match runtime_mark_of(path) {
                Some((runtime, id)) => Some((text(runtime), short_id_of(id))),
                None => None,
            },
            None => None,
        },
        None => None,
    }
}

/// The container runtime and the short id in the text of `/proc/<pid>/cgroup`.
pub fn parse_cgroup(cgroup: &str) -> (r: Option<(String, String)>)
    ensures
        named_pair(r) == first_container(text::lines(cgroup@), 0),
{
    let c = chars_of(cgroup);
    let ls = lines_of(c.as_slice());
    let ghost all = text::lines(cgroup@);
    assert(all.len() == ls@.len());
    let mut i: usize = 0;
    while i < ls.len()
        invariant
            all == text::lines(cgroup@),
            text::pieces(ls@) == all,
            all.len() == ls@.len(),
            i <= ls@.len(),
            first_container(all, 0) == first_container(all, i as int),
        decreases ls@.len() - i,
    {
        let line = ls[i];
        assert(line@ == all[i as int]);
        if let Some(found) = container_on_line(line) {
            return Some(found);
        }
        i += 1;
    }
    None
}

/// The name of a container, when the runtime printed one.
pub open spec fn printed_name(out: Option<Seq<char>>) -> Option<Seq<char>> {
    match out {
        Some(t) => if text::trim(t, Class::White).len() > 0 {
            Some(text::trim(t, Class::White))
        } else {
            None
        },
        None => None,
    }
}

/// A process in a container: its name where docker told it, or else its short
/// id.
pub open spec fn in_container(
    runtime: Seq<char>,
    id: Seq<char>,
    docker: Option<Seq<char>>,
) -> SourceView {
    let name = if runtime == "docker"@ {
        printed_name(docker)
    } else {
        None
    };
    match name {
        Some(n) => SourceView {
            kind: "container"@,
            label: Some(n),
            detail: Some("docker container \""@ + n + "\""@),
        },
        None => SourceView {
            kind: "container"@,
            label: Some(id),
            detail: Some("runtime: "@ + runtime),
        },
    }
}

/// Attribution to a container. `docker` is what `docker ps` printed for the
/// id, where the runtime is docker and the command worked.
pub fn container_source(runtime: &str, id: &str, docker: Option<String>) -> (r: Source)
    ensures
        r@ == in_container(runtime@, id@, text::opt(docker)),
{
    if same_str(runtime, "docker") {
        if let Some(out) = &docker {
            let c = chars_of(out.as_str());
            let name = cut(c.as_slice(), Class::White);
            if name.len() > 0 {
                let n = string_of(name);
                let mut d = text("docker container \"");
                d.append(n.as_str());
                d.append("\"");
                return Source { kind: text("container"), label: Some(n), detail: Some(d) };
            }
        }
    }
    let mut d = text("runtime: ");
    d.append(runtime);
    Source { kind: text("container"), label: Some(text(id)), detail: Some(d) }
}

/// Whether a cgroup text places its process in the container `id`.
pub fn belongs_to(cgroup: &str, id: &str) -> (r: bool)
    ensures
        r == text::contains(cgroup@, id@),
{
    str_holds(cgroup, id)
}

// ---------- services ----------

/// What `systemctl status` says of a unit.
pub struct Unit {
    pub name: Option<String>,
    pub description: Option<String>,
    pub loaded_from: Option<String>,
}

/// What a [`Unit`] shows.
#[verifier::ext_equal]
pub struct UnitView {
    pub name: Option<Seq<char>>,
    pub description: Option<Seq<char>>,
    pub loaded_from: Option<Seq<char>>,
}

impl View for Unit {
    type V = UnitView;

    open spec fn view(&self) -> UnitView {
        UnitView {
            name: text::opt(self.name),
            description: text::opt(self.description),
            loaded_from: text::opt(self.loaded_from),
        }
    }
}

/// The text behind the bullet of a unit line.
pub open spec fn bulleted(t: Seq<char>) -> Option<Seq<char>> {
    if text::starts_with(t, "●"@) {
        Some(text::trim(text::strip_prefix(t, "●"@)->0, Class::White))
    } else if text::starts_with(t, "*"@) {
        Some(text::trim(text::strip_prefix(t, "*"@)->0, Class::White))
    } else {
        None
    }
}

/// Whether a text names a unit file.
pub open spec fn is_unit_file(t: Seq<char>) -> bool {
    text::ends_with(t, ".service"@) || text::ends_with(t, ".timer"@) || text::ends_with(
        t,
        ".scope"@,
    ) || text::ends_with(t, ".slice"@)
}

/// The first unit file among the parts from `i` on.
pub open spec fn unit_file(parts: Seq<Seq<char>>, i: int) -> Option<Seq<char>>
    decreases parts.len() - i,
{
    if i >= parts.len() {
        None
    } else if is_unit_file(text::trim(parts[i], Class::White)) {
        Some(text::trim(parts[i], Class::White))
    } else {
        unit_file(parts, i + 1)
    }
}

/// What is known of a unit after one more line.
pub open spec fn with_status_line(u: UnitView, line: Seq<char>) -> UnitView {
    let t = text::trim_start(line, Class::White);
    let named = match bulleted(t) {
        Some(l) => match text::split_once_str(l, " - "@) {
            Some(c) => UnitView {
                name: Some(text::trim(c.0, Class::White)),
                description: Some(text::trim(c.1, Class::White)),
                ..u
            },
            None => UnitView { name: Some(text::trim(l, Class::White)), description: None, ..u },
        },
        None => u,
    };
    match text::strip_prefix(t, "Loaded:"@) {
        Some(rest) => UnitView {
            loaded_from: unit_file(text::split(rest, Class::Either('(', ';')), 0),
            ..named
        },
        None => named,
    }
}

/// What the first `n` lines say of a unit.
pub open spec fn status(ls: Seq<Seq<char>>, n: int) -> UnitView
    decreases n,
{
    if n <= 0 {
        UnitView { name: None, description: None, loaded_from: None }
    } else {
        with_status_line(status(ls, n - 1), ls[n - 1])
    }
}

fn bullet_of<'a>(t: &'a [char]) -> (r: Option<&'a [char]>)
    ensures
        text::seen(r) == bulleted(t@),
{
    if let Some(rest) = without_prefix(t, "●") {
        return Some(cut(rest, Class::White));
    }
    if let Some(rest) = without_prefix(t, "*") {
        return Some(cut(rest, Class::White));
    }
    None
}

fn unit_file_of(rest: &[char]) -> (r: Option<String>)
    ensures
        text::opt(r) == unit_file(text::split(rest@, Class::Either('(', ';')), 0),
{
    let parts = cut_at(rest, Class::Either('(', ';'));
    let ghost all = text::split(rest@, Class::Either('(', ';'));
    assert(all.len() == parts@.len());
    let mut i: usize = 0;
    while i < parts.len()
        invariant
            all == text::split(rest@, Class::Either('(', ';')),
            text::pieces(parts@) == all,
            all.len() == parts@.len(),
            i <= parts@.len(),
            unit_file(all, 0) == unit_file(all, i as int),
        decreases parts@.len() - i,
    {
        let part = parts[i];
        assert(part@ == all[i as int]);
        let t = cut(part, Class::White);
        if ends(t, ".service") || ends(t, ".timer") || ends(t, ".scope") || ends(t, ".slice") {
            return Some(string_of(t));
        }
        i += 1;
    }
    None
}

/// Reads what `systemctl status` printed.
pub fn parse_status(out: &str) -> (r: Unit)
    ensures
        r@ == status(text::lines(out@), text::lines(out@).len() as int),
{
    let c = chars_of(out);
    let ls = lines_of(c.as_slice());
    let ghost all = text::lines(out@);
    assert(all.len() == ls@.len());
    let mut u = Unit { name: None, description: None, loaded_from: None };
    let mut i: usize = 0;
    while i < ls.len()
        invariant
            text::pieces(ls@) == all,
            all.len() == ls@.len(),
            i <= ls@.len(),
            u@ == status(all, i as int),
        decreases ls@.len() - i,
    {
        let line = ls[i];
        assert(line@ == all[i as int]);
        let t = cut_start(line, Class::White);
        if let Some(l) = bullet_of(t) {
            match cut_once_str(l, " - ") {
                Some((a, b)) => {
                    u.name = Some(string_of(cut(a, Class::White)));
                    u.description = Some(string_of(cut(b, Class::White)));
                },
                None => {
                    u.name = Some(string_of(cut(l, Class::White)));
                    u.description = None;
                },
            }
        }
        if let Some(rest) = without_prefix(t, "Loaded:") {
            u.loaded_from = unit_file_of(rest);
        }
        i += 1;
    }
    u
}

/// The detail of a unit: its description and where it was loaded from.
pub open spec fn unit_detail(u: UnitView) -> Option<Seq<char>> {
    match (u.description, u.loaded_from) {
        (Some(d), Some(p)) => Some(d + " — loaded from "@ + p),
        (Some(d), None) => Some(d),
        (None, Some(p)) => Some("loaded from "@ + p),
        (None, None) => None,
    }
}

/// Whether the root of a chain is an init system that systemctl knows.
pub open spec fn under_systemd(chain: Seq<ProcessView>) -> bool {
    chain.len() > 0 && (text::contains(chain[0].name, "systemd"@) || chain[0].pid == 1)
}

/// The source of a process by the service manager. `out` is what `systemctl
/// status` printed for the last process of the chain.
pub open spec fn service(chain: Seq<ProcessView>, out: Option<Seq<char>>) -> Option<SourceView> {
    if !under_systemd(chain) {
        None
    } else {
        match out {
            None => Some(
                SourceView {
                    kind: "init"@,
                    label: Some(chain[0].name),
                    detail: Some("systemctl unavailable; started under init"@),
                },
            ),
            Some(o) => {
                let u = status(text::lines(o), text::lines(o).len() as int);
                match u.name {
                    Some(name) => Some(
                        SourceView { kind: "systemd"@, label: Some(name), detail: unit_detail(u) },
                    ),
                    None => Some(
                        SourceView {
                            kind: "init"@,
                            label: Some(chain[0].name),
                            detail: Some(
                                "pid "@ + num::dec(chain.last().pid as int)
                                    + " is not part of a systemd unit"@,
                            ),
                        },
                    ),
                }
            },
        }
    }
}

/// The pid to ask systemctl about, if any.
pub fn service_query(chain: &[Process]) -> (r: Option<Pid>)
    ensures
        r == if under_systemd(text::views(chain@)) {
            Some(text::views(chain@).last().pid)
        } else {
            None
        },
{
    let ghost all = text::views(chain@);
    let n: usize = chain.len();
    if n == 0 {
        return None;
    }
    assert(all[0] == chain@[0]@);
    assert(all.last() == chain@[n - 1]@);
    if str_holds(chain[0].name.as_str(), "systemd") || chain[0].pid == 1 {
        Some(chain[n - 1].pid)
    } else {
        None
    }
}

fn unit_detail_of(u: &Unit) -> (r: Option<String>)
    ensures
        text::opt(r) == unit_detail(u@),
{
    match (&u.description, &u.loaded_from) {
        (Some(d), Some(p)) => {
            let mut s = text(d.as_str());
            s.append(" — loaded from ");
            s.append(p.as_str());
            Some(s)
        },
        (Some(d), None) => Some(d.clone()),
        (None, Some(p)) => {
            let mut s = text("loaded from ");
            s.append(p.as_str());
            Some(s)
        },
        (None, None) => None,
    }
}

/// Attribution by systemd for the last process of the chain. `out` is what
/// `systemctl status` printed for it, where the command worked.
pub fn service_source(chain: &[Process], out: Option<String>) -> (r: Option<Source>)
    ensures
        model::opt_source(r) == service(text::views(chain@), text::opt(out)),
{
    let ghost all = text::views(chain@);
    match service_query(chain) {
        None => None,
        Some(pid) => {
            assert(all[0] == chain@[0]@);
            let init = &chain[0].name;
            match &out {
                None => Some(
                    Source {
                        kind: text("init"),
                        label: Some(init.clone()),
                        detail: Some(text("systemctl unavailable; started under init")),
                    },
                ),
                Some(o) => {
                    let u = parse_status(o.as_str());
                    let detail = unit_detail_of(&u);
                    match u.name {
                        Some(name) => Some(
                            Source { kind: text("systemd"), label: Some(name), detail },
                        ),
                        None => {
                            let mut d = text("pid ");
                            d.append(dec_i32(pid).as_str());
                            d.append(" is not part of a systemd unit");
                            Some(
                                Source {
                                    kind: text("init"),
                                    label: Some(init.clone()),
                                    detail: Some(d),
                                },
                            )
                        },
                    }
                },
            }
        },
    }
}

} // verus!
