//! Windows: a process snapshot, PowerShell (Get-CimInstance) per target for
//! cmdline/user/start time, netstat -ano for port ownership and tasklist for
//! service names and memory. What they print comes in as arguments.

use std::collections::HashMap;

use vstd::prelude::*;
use vstd::string::*;

use crate::calendar::count_days;
use crate::model::{Pid, Process, Socket, Source};
use crate::model::{ProcessView, SocketView, SourceView};
use crate::num::{dec_i32, parse_i32, parse_i64, parse_u64};
use crate::platform::sort_sockets;
use crate::text::{
    begins, chars_of, cut, cut_at, cut_end, cut_end_str, cut_once, joined, lines_of, lossy_text,
    lower_of, opt_copy, same_nocase, same_str_nocase, string_of, text, without_prefix, words_of,
    Class,
};
use crate::util::{basename, host_port_of, Users};
use crate::{calendar, model, num, platform, text, util};

pub mod listings;
pub mod powershell;

verus! {

broadcast use vstd::std_specs::hash::group_hash_axioms;

/// Windows. PowerShell names the owner of a process itself, so no user name
/// is looked up.
pub struct Windows {
    users: Users,
}

impl View for Windows {
    type V = Map<u32, Option<Seq<char>>>;

    closed spec fn view(&self) -> Map<u32, Option<Seq<char>>> {
        self.users@
    }
}

impl Windows {
    pub fn new(users: Users) -> (r: Windows)
        ensures
            r@ == users@,
    {
        Windows { users }
    }
}

// ---------- PowerShell ----------

/// The UTF-16 units of one character.
pub open spec fn units_of(c: char) -> Seq<int> {
    let n = c as u32 as int;
    if n < 0x10000 {
        seq![n]
    } else {
        seq![0xD800 + (n - 0x10000) / 0x400, 0xDC00 + (n - 0x10000) % 0x400]
    }
}

/// The UTF-16 units of the first `n` characters.
pub open spec fn units(s: Seq<char>, n: int) -> Seq<int>
    decreases n,
{
    if n <= 0 {
        seq![]
    } else {
        units(s, n - 1) + units_of(s[n - 1])
    }
}

/// The first `n` units as bytes, the low one first.
pub open spec fn low_first(u: Seq<int>, n: int) -> Seq<int>
    decreases n,
{
    if n <= 0 {
        seq![]
    } else {
        low_first(u, n - 1).push(u[n - 1] % 256).push(u[n - 1] / 256)
    }
}

/// A digit of base64.
pub open spec fn base64_digit(d: int) -> char {
    if d < 26 {
        (65 + d) as char
    } else if d < 52 {
        (97 + d - 26) as char
    } else if d < 62 {
        (48 + d - 52) as char
    } else if d == 62 {
        '+'
    } else {
        '/'
    }
}

/// The `k`th byte of a group of three at `i`, 0 behind the end.
pub open spec fn byte_or_zero(b: Seq<int>, i: int) -> int {
    if i < b.len() {
        b[i]
    } else {
        0
    }
}

/// The group of four digits for the bytes from `i` on.
pub open spec fn base64_group(b: Seq<int>, i: int) -> Seq<char> {
    let n = byte_or_zero(b, i) * 65536 + byte_or_zero(b, i + 1) * 256 + byte_or_zero(b, i + 2);
    seq![
        base64_digit(n / 262144),
        base64_digit((n / 4096) % 64),
        if i + 1 < b.len() {
            base64_digit((n / 64) % 64)
        } else {
            '='
        },
        if i + 2 < b.len() {
            base64_digit(n % 64)
        } else {
            '='
        },
    ]
}

/// The first `k` groups of three bytes in base64.
pub open spec fn base64(b: Seq<int>, k: int) -> Seq<char>
    decreases k,
{
    if k <= 0 {
        seq![]
    } else {
        base64(b, k - 1) + base64_group(b, 3 * (k - 1))
    }
}

/// The bytes of a text in UTF-16, the low byte of each unit first.
pub open spec fn utf16_bytes(s: Seq<char>) -> Seq<int> {
    let u = units(s, s.len() as int);
    low_first(u, u.len() as int)
}

/// The base64 of the UTF-16 bytes of a text.
pub open spec fn encoded(s: Seq<char>) -> Seq<char> {
    let b = utf16_bytes(s);
    base64(b, (b.len() + 2) as int / 3)
}

fn digit_of(d: u32) -> (r: char)
    requires
        d < 64,
    ensures
        r == base64_digit(d as int),
{
    if d < 26 {
        (65 + d as u8) as char
    } else if d < 52 {
        (97 + (d as u8 - 26)) as char
    } else if d < 62 {
        (48 + (d as u8 - 52)) as char
    } else if d == 62 {
        '+'
    } else {
        '/'
    }
}

/// What bytes show as numbers.
pub open spec fn numbers_of(b: Seq<u8>) -> Seq<int> {
    Seq::new(b.len(), |i: int| b[i] as int)
}

proof fn low_first_grows(u: Seq<int>, x: int)
    ensures
        low_first(u.push(x), u.len() as int + 1) == low_first(u, u.len() as int).push(x % 256).push(
            x / 256,
        ),
{
    low_first_prefix(u, u.push(x), u.len() as int);
}

proof fn low_first_prefix(a: Seq<int>, b: Seq<int>, n: int)
    requires
        n <= a.len(),
        n <= b.len(),
        forall|i: int| 0 <= i < n ==> a[i] == b[i],
    ensures
        low_first(a, n) == low_first(b, n),
    decreases n,
{
    if n > 0 {
        low_first_prefix(a, b, n - 1);
    }
}

fn push_unit(out: &mut Vec<u8>, x: u32, done: Ghost<Seq<int>>)
    requires
        x < 0x10000,
        numbers_of(old(out)@) == low_first(done@, done@.len() as int),
    ensures
        numbers_of(final(out)@) == low_first(done@.push(x as int), done@.len() as int + 1),
{
    let ghost was = numbers_of(out@);
    out.push((x % 256) as u8);
    out.push((x / 256) as u8);
    proof {
        low_first_grows(done@, x as int);
        assert(numbers_of(out@) =~= was.push(x as int % 256).push(x as int / 256));
    }
}

fn utf16_of(s: &str) -> (r: Vec<u8>)
    ensures
        numbers_of(r@) == utf16_bytes(s@),
{
    let c = chars_of(s);
    let mut out: Vec<u8> = Vec::new();
    let mut i: usize = 0;
    assert(numbers_of(out@) =~= seq![]);
    while i < c.len()
        invariant
            c@ == s@,
            i <= c@.len(),
            numbers_of(out@) == low_first(units(s@, i as int), units(s@, i as int).len() as int),
        decreases c@.len() - i,
    {
        let ch: char = c[i];
        let n: u32 = ch as u32;
        proof {
            vstd::utf8::char_is_scalar(ch);
        }
        let ghost done = units(s@, i as int);
        if n < 0x10000 {
            push_unit(&mut out, n, Ghost(done));
            assert(units(s@, i + 1) =~= done.push(n as int));
        } else {
            let m: u32 = n - 0x10000;
            push_unit(&mut out, 0xD800 + m / 0x400, Ghost(done));
            let ghost half = done.push(0xD800 + m as int / 0x400);
            push_unit(&mut out, 0xDC00 + m % 0x400, Ghost(half));
            assert(units(s@, i + 1) =~= half.push(0xDC00 + m as int % 0x400));
        }
        i += 1;
    }
    out
}

/// Minimal base64 (standard alphabet, padding) for -EncodedCommand.
pub fn base64_utf16le(s: &str) -> (r: String)
    ensures
        r@ == encoded(s@),
{
    let b = utf16_of(s);
    let ghost bytes = numbers_of(b@);
    let len: usize = b.len();
    let groups: usize = len / 3 + if len % 3 == 0 {
        0usize
    } else {
        1usize
    };
    assert(groups == (len as int + 2) / 3);
    let mut out = String::new();
    let mut k: usize = 0;
    assert(out@ =~= base64(bytes, 0));
    while k < groups
        invariant
            len == b@.len(),
            bytes == numbers_of(b@),
            groups == (len as int + 2) / 3,
            k <= groups,
            out@ == base64(bytes, k as int),
        decreases groups - k,
    {
        let i: usize = 3 * k;
        assert(i < len);
        let two = len - i > 1;
        let three = len - i > 2;
        let b0: u32 = b[i] as u32;
        let b1: u32 = if two {
            b[i + 1] as u32
        } else {
            0
        };
        let b2: u32 = if three {
            b[i + 2] as u32
        } else {
            0
        };
        let n: u32 = b0 * 65536 + b1 * 256 + b2;
        let ghost before = out@;
        out.push(digit_of(n / 262144));
        out.push(digit_of((n / 4096) % 64));
        out.push(
            if two {
                digit_of((n / 64) % 64)
            } else {
                '='
            },
        );
        out.push(
            if three {
                digit_of(n % 64)
            } else {
                '='
            },
        );
        assert(out@ =~= before + base64_group(bytes, i as int));
        k += 1;
    }
    out
}

/// The condition that picks the first `n` processes.
pub open spec fn conditions(pids: Seq<Pid>) -> Seq<Seq<char>> {
    Seq::new(pids.len(), |i: int| "ProcessId="@ + num::dec(pids[i] as int))
}

/// The script that asks for the details of some processes.
pub open spec fn script(pids: Seq<Pid>) -> Seq<char> {
    "Get-CimInstance Win32_Process -Filter '"@ + text::join(conditions(pids), " OR "@)
        + "' | ForEach-Object { $o = $_ | Invoke-CimMethod -MethodName GetOwner; [PSCustomObject]@{ pid = $_.ProcessId; ppid = $_.ParentProcessId; exe = $_.ExecutablePath; cmd = $_.CommandLine; started = $_.CreationDate; user = if ($o -and $o.User) { '\\' + $o.Domain + '\\' + $o.User } else { $null } } } | ConvertTo-Json -Compress -Depth 3"@
}

/// The PowerShell script that prints cmdline/exe/started/user for a batch of
/// pids as JSON.
pub fn cim_script(pids: &Vec<Pid>) -> (r: String)
    ensures
        r@ == script(pids@),
{
    let mut parts: Vec<String> = Vec::new();
    let mut i: usize = 0;
    while i < pids.len()
        invariant
            i <= pids@.len(),
            parts@.len() == i,
            forall|j: int| 0 <= j < i ==> (#[trigger] parts@[j])@ == conditions(pids@)[j],
        decreases pids@.len() - i,
    {
        let mut s = text("ProcessId=");
        s.append(dec_i32(pids[i]).as_str());
        parts.push(s);
        i += 1;
    }
    assert(text::texts(parts@) =~= conditions(pids@));
    let mut out = text("Get-CimInstance Win32_Process -Filter '");
    out.append(joined(&parts, " OR ").as_str());
    out.append(
        "' | ForEach-Object { $o = $_ | Invoke-CimMethod -MethodName GetOwner; [PSCustomObject]@{ pid = $_.ProcessId; ppid = $_.ParentProcessId; exe = $_.ExecutablePath; cmd = $_.CommandLine; started = $_.CreationDate; user = if ($o -and $o.User) { '\\' + $o.Domain + '\\' + $o.User } else { $null } } } | ConvertTo-Json -Compress -Depth 3",
    );
    out
}

// ---------- dates ----------

/// A date that PowerShell printed, as far as it is read without fractions.
pub enum Stamp {
    /// Seconds since 1970.
    Seconds(i64),
    /// A civil date and the parts of the time of day, as they stand.
    Civil { year: i64, month: u32, day: u32, clock: Vec<String> },
}

/// What a [`Stamp`] shows.
#[verifier::ext_equal]
pub enum StampView {
    Seconds(i64),
    Civil { year: i64, month: u32, day: u32, clock: Seq<Seq<char>> },
}

/// What an optional stamp shows.
pub open spec fn stamp_view(s: Option<Stamp>) -> Option<StampView> {
    match s {
        Some(Stamp::Seconds(t)) => Some(StampView::Seconds(t)),
        Some(Stamp::Civil { year, month, day, clock }) => Some(
            StampView::Civil { year, month, day, clock: text::texts(clock@) },
        ),
        None => None,
    }
}

/// The numbers among the first `n` parts.
pub open spec fn numbers_among(parts: Seq<Seq<char>>, n: int) -> Seq<i64>
    decreases n,
{
    if n <= 0 {
        seq![]
    } else {
        match num::parse_signed(parts[n - 1], i64::MIN as int, i64::MAX as int) {
            Some(v) => numbers_among(parts, n - 1).push(v as i64),
            None => numbers_among(parts, n - 1),
        }
    }
}

/// A number of milliseconds in whole seconds, towards 0.
pub open spec fn whole_seconds(ms: int) -> int {
    if ms >= 0 {
        ms / 1000
    } else {
        -((-ms) / 1000)
    }
}

/// The shapes of a date: `/Date(ms)/`, or `y-m-dTh:m:s` with an optional `Z`.
pub open spec fn stamp(s: Seq<char>) -> Option<StampView> {
    match text::strip_prefix(s, "/Date("@) {
        Some(rest) => match num::parse_signed(
            text::trim_end_str(rest, ")/"@),
            i64::MIN as int,
            i64::MAX as int,
        ) {
            Some(ms) => Some(StampView::Seconds(whole_seconds(ms) as i64)),
            None => None,
        },
        None => match text::split_once(s, Class::Is('T')) {
            Some(c) => {
                let parts = text::split(c.0, Class::Is('-'));
                let d = numbers_among(parts, parts.len() as int);
                if d.len() == 3 {
                    Some(
                        StampView::Civil {
                            year: d[0],
                            month: d[1] as u32,
                            day: d[2] as u32,
                            clock: text::split(
                                text::trim_end(c.1, Class::Is('Z')),
                                Class::Is(':'),
                            ),
                        },
                    )
                } else {
                    None
                }
            },
            None => None,
        },
    }
}

fn numbers_in(parts: &Vec<&[char]>) -> (r: Vec<i64>)
    ensures
        r@ == numbers_among(text::pieces(parts@), parts@.len() as int),
{
    let ghost all = text::pieces(parts@);
    let mut out: Vec<i64> = Vec::new();
    let mut i: usize = 0;
    assert(out@ =~= seq![]);
    while i < parts.len()
        invariant
            all == text::pieces(parts@),
            i <= parts@.len(),
            out@ == numbers_among(all, i as int),
        decreases parts@.len() - i,
    {
        let part = parts[i];
        assert(part@ == all[i as int]);
        if let Some(v) = parse_i64(part) {
            out.push(v);
        }
        i += 1;
    }
    out
}

fn strings_of(parts: &Vec<&[char]>) -> (r: Vec<String>)
    ensures
        text::texts(r@) == text::pieces(parts@),
{
    let mut out: Vec<String> = Vec::new();
    let mut i: usize = 0;
    while i < parts.len()
        invariant
            i <= parts@.len(),
            out@.len() == i,
            forall|j: int| 0 <= j < i ==> (#[trigger] out@[j])@ == parts@[j]@,
        decreases parts@.len() - i,
    {
        out.push(string_of(parts[i]));
        i += 1;
    }
    assert(text::texts(out@) =~= text::pieces(parts@));
    out
}

/// Parse the DateTime shapes PowerShell produces for CIM values:
/// PS 5.1 has "/Date(1694499200123)/" (UTC ms), PS 7 an ISO 8601 string.
pub fn parse_stamp(s: &str) -> (r: Option<Stamp>)
    ensures
        stamp_view(r) == stamp(s@),
{
    let c = chars_of(s);
    if let Some(rest) = without_prefix(c.as_slice(), "/Date(") {
        return match parse_i64(cut_end_str(rest, ")/")) {
            Some(ms) => {
                let t: i64 = if ms >= 0 {
                    ms / 1000
                } else {
                    // negating after the division keeps clear of the smallest number
                    -((-(ms + 1)) / 1000 + if (-(ms + 1)) % 1000 == 999 {
                        1i64
                    } else {
                        0i64
                    })
                };
                assert(t == whole_seconds(ms as int));
                Some(Stamp::Seconds(t))
            },
            None => None,
        };
    }
    match cut_once(c.as_slice(), Class::Is('T')) {
        Some((date, rest)) => {
            let parts = cut_at(date, Class::Is('-'));
            let d = numbers_in(&parts);
            assert(text::pieces(parts@).len() == parts@.len());
            if d.len() != 3 {
                return None;
            }
            let clock = cut_at(cut_end(rest, Class::Is('Z')), Class::Is(':'));
            Some(
                Stamp::Civil {
                    year: d[0],
                    month: #[verifier::truncate] (d[1] as u32),
                    day: #[verifier::truncate] (d[2] as u32),
                    clock: strings_of(&clock),
                },
            )
        },
        None => None,
    }
}

/// The seconds since 1970 of a date and a time of day in whole numbers: hours,
/// minutes and, where given, seconds.
pub open spec fn civil_seconds(year: int, month: int, day: int, clock: Seq<i64>) -> Option<int> {
    if clock.len() < 2 {
        None
    } else {
        util::fitting(
            Some(
                calendar::march_count(year, month, day) * 86_400 + clock[0] * 3600 + clock[1] * 60
                    + if clock.len() > 2 {
                    clock[2] as int
                } else {
                    0
                },
            ),
        )
    }
}

/// The time of a civil date. `clock` are the parts of the time of day that
/// are numbers, without their fractions.
pub fn stamp_seconds(year: i64, month: u32, day: u32, clock: &Vec<i64>) -> (r: Option<i64>)
    ensures
        (match r {
            Some(v) => Some(v as int),
            None => None,
        }) == civil_seconds(year as int, month as int, day as int, clock@),
{
    if clock.len() < 2 {
        return None;
    }
    let days: i128 = count_days(year, month, day);
    let secs: i128 = if clock.len() > 2 {
        clock[2] as i128
    } else {
        0
    };
    let t: i128 = days * 86_400 + clock[0] as i128 * 3600 + clock[1] as i128 * 60 + secs;
    if i64::MIN as i128 <= t && t <= i64::MAX as i128 {
        Some(t as i64)
    } else {
        None
    }
}

// ---------- processes ----------

/// What the snapshot and `tasklist` say of a process.
pub open spec fn listed(pid: Pid, ppid: Pid, exe: Seq<char>, mem: Map<Pid, u64>) -> ProcessView {
    ProcessView {
        pid,
        ppid: Some(ppid),
        name: util::base(exe),
        mem_kb: if mem.contains_key(pid) {
            Some(mem[pid])
        } else {
            None
        },
        ..ProcessView::blank()
    }
}

/// The entry of the process table for one process of the snapshot.
pub fn list_entry(pid: Pid, ppid: Pid, exe: &str, mem: &HashMap<Pid, u64>) -> (r: Process)
    ensures
        r@ == listed(pid, ppid, exe@, mem@),
{
    let mem_kb: Option<u64> = match mem.get(&pid) {
        Some(m) => Some(*m),
        None => None,
    };
    let r = Process {
        pid,
        ppid: Some(ppid),
        name: basename(exe),
        exe: None,
        exe_deleted: false,
        cmdline: Vec::new(),
        cwd: None,
        user: None,
        uid: None,
        started: None,
        env: None,
        kernel_thread: false,
        cpu: None,
        mem_kb,
        cpu_time_ms: None,
    };
    assert(r@.cmdline =~= seq![]);
    assert(r@ =~= listed(pid, ppid, exe@, mem@));
    r
}

/// What PowerShell says of a process.
pub struct CimRow {
    pub ppid: Option<i64>,
    pub exe: Option<String>,
    pub cmd: Option<String>,
    pub started: Option<i64>,
    pub user: Option<String>,
}

/// A process with its details.
pub open spec fn detailed(brief: ProcessView, row: Option<CimRow>) -> ProcessView {
    match row {
        Some(d) => ProcessView {
            ppid: match d.ppid {
                Some(p) => Some(p as Pid),
                None => brief.ppid,
            },
            exe: text::opt(d.exe),
            cmdline: match d.cmd {
                Some(c) => seq![c@],
                None => brief.cmdline,
            },
            started: d.started,
            user: text::opt(d.user),
            ..brief
        },
        None => brief,
    }
}

/// Fill in the details of a process.
pub fn detail(brief: &Process, row: &Option<CimRow>) -> (r: Process)
    ensures
        r@ == detailed(brief@, *row),
{
    let mut p = brief.clone();
    if let Some(d) = row {
        if let Some(ppid) = d.ppid {
            p.ppid = Some(#[verifier::truncate] (ppid as Pid));
        }
        p.exe = opt_copy(&d.exe);
        if let Some(cmd) = &d.cmd {
            let mut v: Vec<String> = Vec::new();
            v.push(cmd.clone());
            assert(text::texts(v@) =~= seq![cmd@]);
            p.cmdline = v;
        }
        p.started = d.started;
        p.user = opt_copy(&d.user);
    }
    p
}

// ---------- netstat ----------

/// The remote end of a row; none when its port is 0.
pub open spec fn foreign(s: Seq<char>) -> (Option<Seq<char>>, Option<u16>) {
    match util::host_port(s) {
        Some(p) => if p.1 == 0 {
            (None, None)
        } else {
            (
                if p.0.len() == 0 {
                    None
                } else {
                    Some(p.0)
                },
                Some(p.1 as u16),
            )
        },
        None => (None, None),
    }
}

/// The socket of a `netstat -ano` row.
pub open spec fn netstat_row(cols: Seq<Seq<char>>) -> Option<SocketView> {
    if cols.len() < 4 || !(text::same_ignoring_case(cols[0], "tcp"@) || text::same_ignoring_case(
        cols[0],
        "udp"@,
    )) {
        None
    } else {
        match (
            num::parse_signed(cols.last(), i32::MIN as int, i32::MAX as int),
            util::host_port(cols[1]),
        ) {
            (Some(pid), Some(local)) => Some(
                SocketView {
                    proto: if text::starts_with(cols[1], "["@) {
                        text::lower(cols[0]).push('6')
                    } else {
                        text::lower(cols[0])
                    },
                    local_addr: local.0,
                    local_port: local.1 as u16,
                    peer_addr: foreign(cols[2]).0,
                    peer_port: foreign(cols[2]).1,
                    state: if cols.len() >= 5 {
                        cols[3]
                    } else {
                        "UNCONNECTED"@
                    },
                    pid: Some(pid as Pid),
                },
            ),
            _ => None,
        }
    }
}

/// The sockets on the first `n` lines.
pub open spec fn netstat_rows(ls: Seq<Seq<char>>, n: int) -> Seq<SocketView>
    decreases n,
{
    if n <= 0 {
        seq![]
    } else {
        match netstat_row(text::words(ls[n - 1])) {
            Some(s) => netstat_rows(ls, n - 1).push(s),
            None => netstat_rows(ls, n - 1),
        }
    }
}

/// The sockets that a listing of `netstat -ano` names.
pub open spec fn netstat(out: Seq<char>) -> Seq<SocketView> {
    netstat_rows(text::lines(out), text::lines(out).len() as int)
}

fn foreign_of(s: &[char]) -> (r: (Option<String>, Option<u16>))
    ensures
        (text::opt(r.0), r.1) == foreign(s@),
{
    match host_port_of(s) {
        Some((addr, port)) => if port == 0 {
            (None, None)
        } else if addr.as_str().is_empty() {
            (None, Some(port))
        } else {
            (Some(addr), Some(port))
        },
        None => (None, None),
    }
}

fn netstat_row_of(line: &[char]) -> (r: Option<Socket>)
    ensures
        (match r {
            Some(s) => Some(s@),
            None => None,
        }) == netstat_row(text::words(line@)),
{
    let cols = words_of(line);
    let ghost w = text::words(line@);
    let n: usize = cols.len();
    assert(w.len() == n);
    if n < 4 {
        return None;
    }
    assert(w[0] == cols@[0]@);
    assert(w[1] == cols@[1]@);
    assert(w[2] == cols@[2]@);
    assert(w[3] == cols@[3]@);
    assert(w.last() == cols@[n - 1]@);
    if !(same_nocase(cols[0], "tcp") || same_nocase(cols[0], "udp")) {
        return None;
    }
    match (parse_i32(cols[n - 1]), host_port_of(cols[1])) {
        (Some(pid), Some((local_addr, local_port))) => {
            let node = lower_of(cols[0]);
            let mut proto = string_of(node.as_slice());
            // netstat prints IPv6 locals bracketed: [::]:445
            if begins(cols[1], "[") {
                proto.push('6');
            }
            let (peer_addr, peer_port) = foreign_of(cols[2]);
            let state = if n >= 5 {
                string_of(cols[3])
            } else {
                text("UNCONNECTED")
            };
            Some(
                Socket {
                    proto,
                    local_addr,
                    local_port,
                    peer_addr,
                    peer_port,
                    state,
                    pid: Some(pid),
                },
            )
        },
        _ => None,
    }
}

/// Reads what `netstat -ano -p PROTO` printed; the rows name the protocol
/// themselves.
pub fn parse_netstat(out: &str, _proto_hint: &str) -> (r: Vec<Socket>)
    ensures
        text::views(r@) == netstat(out@),
{
    broadcast use crate::text::group_views;

    let c = chars_of(out);
    let ls = lines_of(c.as_slice());
    let ghost all = text::lines(out@);
    assert(all.len() == ls@.len());
    let mut v: Vec<Socket> = Vec::new();
    let mut i: usize = 0;
    while i < ls.len()
        invariant
            text::pieces(ls@) == all,
            all.len() == ls@.len(),
            i <= ls@.len(),
            text::views(v@) == netstat_rows(all, i as int),
        decreases ls@.len() - i,
    {
        let line = ls[i];
        assert(line@ == all[i as int]);
        if let Some(s) = netstat_row_of(line) {
            v.push(s);
        }
        i += 1;
    }
    v
}

/// Which sockets of a listing are asked for.
pub enum Want {
    /// Those on a local port.
    Port(u16),
    /// Those that listen.
    Listening,
    All,
}

impl Want {
    /// Whether a socket is asked for.
    pub open spec fn takes(self, s: SocketView) -> bool {
        match self {
            Want::Port(p) => s.local_port == p,
            Want::Listening => text::same_ignoring_case(s.state, "LISTENING"@),
            Want::All => true,
        }
    }

    fn test(&self, s: &Socket) -> (r: bool)
        ensures
            r == self.takes(s@),
    {
        match self {
            Want::Port(p) => s.local_port == *p,
            Want::Listening => same_str_nocase(s.state.as_str(), "LISTENING"),
            Want::All => true,
        }
    }
}

/// `v` with those of the first `n` of `more` that are asked for.
pub open spec fn with_wanted(
    v: Seq<SocketView>,
    more: Seq<SocketView>,
    want: Want,
    n: int,
) -> Seq<SocketView>
    decreases n,
{
    if n <= 0 {
        v
    } else if want.takes(more[n - 1]) {
        with_wanted(v, more, want, n - 1).push(more[n - 1])
    } else {
        with_wanted(v, more, want, n - 1)
    }
}

/// Adds the sockets asked for of one `netstat -ano` listing.
pub fn add_listed(out: &mut Vec<Socket>, stdout: &[u8], want: &Want)
    ensures
        text::views(final(out)@) == with_wanted(
            text::views(old(out)@),
            netstat(text::lossy(stdout@)),
            *want,
            netstat(text::lossy(stdout@)).len() as int,
        ),
{
    let listing = lossy_text(stdout);
    let rows = parse_netstat(listing.as_str(), "");
    add_wanted(out, &rows, want);
}

/// Adds those of the sockets that are asked for.
pub fn add_wanted(out: &mut Vec<Socket>, rows: &Vec<Socket>, want: &Want)
    ensures
        text::views(final(out)@) == with_wanted(
            text::views(old(out)@),
            text::views(rows@),
            *want,
            rows@.len() as int,
        ),
{
    broadcast use crate::text::group_views;

    let ghost all = text::views(rows@);
    let ghost start = text::views(out@);
    let mut i: usize = 0;
    while i < rows.len()
        invariant
            all == text::views(rows@),
            i <= rows@.len(),
            text::views(out@) == with_wanted(start, all, *want, i as int),
        decreases rows@.len() - i,
    {
        assert(all[i as int] == rows@[i as int]@);
        if want.test(&rows[i]) {
            out.push(rows[i].clone());
        }
        i += 1;
    }
}

/// The sockets on a local port, from the tcp and the udp listing.
pub fn netstat_sockets(tcp: &[u8], udp: &[u8], port: u16) -> (r: Vec<Socket>)
    ensures
        ({
            let a = netstat(text::lossy(tcp@));
            let b = netstat(text::lossy(udp@));
            let w = Want::Port(port);
            text::views(r@) == with_wanted(
                with_wanted(seq![], a, w, a.len() as int),
                b,
                w,
                b.len() as int,
            )
        }),
{
    broadcast use crate::text::group_views;

    let mut out: Vec<Socket> = Vec::new();
    add_listed(&mut out, tcp, &Want::Port(port));
    add_listed(&mut out, udp, &Want::Port(port));
    out
}

/// Listening tcp and bound udp sockets by protocol and port, from the tcp and
/// the udp listing.
pub fn list_sockets(tcp: &[u8], udp: &[u8]) -> (r: Vec<Socket>)
    ensures
        ({
            let a = netstat(text::lossy(tcp@));
            let b = netstat(text::lossy(udp@));
            text::views(r@) == platform::sorted_sockets(
                with_wanted(
                    with_wanted(seq![], a, Want::Listening, a.len() as int),
                    b,
                    Want::All,
                    b.len() as int,
                ),
            )
        }),
{
    broadcast use crate::text::group_views;

    let mut out: Vec<Socket> = Vec::new();
    add_listed(&mut out, tcp, &Want::Listening);
    add_listed(&mut out, udp, &Want::All);
    sort_sockets(&out)
}

// ---------- tasklist ----------

/// What stands between the quotes of a line.
pub open spec fn quoted(line: Seq<char>) -> Seq<Seq<char>> {
    let p = text::split(line, Class::Is('"'));
    Seq::new(p.len() / 2, |i: int| p[2 * i + 1])
}

fn quoted_of<'a>(line: &'a [char]) -> (r: Vec<&'a [char]>)
    ensures
        text::pieces(r@) == quoted(line@),
{
    let p = cut_at(line, Class::Is('"'));
    let ghost all = text::split(line@, Class::Is('"'));
    assert(all.len() == p@.len());
    let m: usize = p.len();
    let n: usize = m / 2;
    let mut out: Vec<&'a [char]> = Vec::new();
    let mut i: usize = 0;
    while i < n
        invariant
            text::pieces(p@) == all,
            all.len() == p@.len(),
            m == p@.len(),
            n == m / 2,
            i <= n,
            out@.len() == i,
            forall|j: int| 0 <= j < i ==> (#[trigger] out@[j])@ == all[2 * j + 1],
        decreases n - i,
    {
        assert(all[2 * i + 1] == p@[2 * i + 1]@);
        out.push(p[2 * i + 1]);
        i += 1;
    }
    assert(text::pieces(out@) =~= quoted(line@));
    out
}

/// The services among the first `n` parts.
pub open spec fn services_among(parts: Seq<Seq<char>>, n: int) -> Seq<Seq<char>>
    decreases n,
{
    if n <= 0 {
        seq![]
    } else {
        let s = text::trim(parts[n - 1], Class::White);
        if s.len() > 0 && !text::same_ignoring_case(s, "n/a"@) {
            services_among(parts, n - 1).push(s)
        } else {
            services_among(parts, n - 1)
        }
    }
}

/// The name, pid and services of a row.
pub open spec fn service_row(line: Seq<char>) -> Option<(Seq<char>, int, Seq<Seq<char>>)> {
    let f = quoted(line);
    if f.len() < 3 {
        None
    } else {
        match num::parse_signed(
            text::trim(f[1], Class::White),
            i32::MIN as int,
            i32::MAX as int,
        ) {
            Some(pid) => {
                let parts = text::split(f[2], Class::Is(','));
                Some((f[0], pid, services_among(parts, parts.len() as int)))
            },
            None => None,
        }
    }
}

/// The rows on the first `n` lines.
pub open spec fn service_rows(ls: Seq<Seq<char>>, n: int) -> Seq<(Seq<char>, int, Seq<Seq<char>>)>
    decreases n,
{
    if n <= 0 {
        seq![]
    } else {
        match service_row(ls[n - 1]) {
            Some(r) => service_rows(ls, n - 1).push(r),
            None => service_rows(ls, n - 1),
        }
    }
}

/// What rows of services show.
pub open spec fn rows_view(v: Seq<(String, Pid, Vec<String>)>) -> Seq<
    (Seq<char>, int, Seq<Seq<char>>),
> {
    Seq::new(v.len(), |i: int| (v[i].0@, v[i].1 as int, text::texts(v[i].2@)))
}

fn services_of(field: &[char]) -> (r: Vec<String>)
    ensures
        ({
            let parts = text::split(field@, Class::Is(','));
            text::texts(r@) == services_among(parts, parts.len() as int)
        }),
{
    broadcast use crate::text::group_views;

    let parts = cut_at(field, Class::Is(','));
    let ghost all = text::split(field@, Class::Is(','));
    assert(all.len() == parts@.len());
    let mut out: Vec<String> = Vec::new();
    let mut i: usize = 0;
    while i < parts.len()
        invariant
            text::pieces(parts@) == all,
            all.len() == parts@.len(),
            i <= parts@.len(),
            text::texts(out@) == services_among(all, i as int),
        decreases parts@.len() - i,
    {
        let part = parts[i];
        assert(part@ == all[i as int]);
        let s = cut(part, Class::White);
        if s.len() > 0 && !same_nocase(s, "n/a") {
            out.push(string_of(s));
        }
        i += 1;
    }
    out
}

/// CSV row `"name","pid","SvcA, Svc B"` to fields via quote-splitting.
pub fn parse_tasklist_csv(out: &str) -> (r: Vec<(String, Pid, Vec<String>)>)
    ensures
        rows_view(r@) == service_rows(text::lines(out@), text::lines(out@).len() as int),
{
    let c = chars_of(out);
    let ls = lines_of(c.as_slice());
    let ghost all = text::lines(out@);
    assert(all.len() == ls@.len());
    let mut v: Vec<(String, Pid, Vec<String>)> = Vec::new();
    let mut i: usize = 0;
    assert(rows_view(v@) =~= seq![]);
    while i < ls.len()
        invariant
            text::pieces(ls@) == all,
            all.len() == ls@.len(),
            i <= ls@.len(),
            rows_view(v@) == service_rows(all, i as int),
        decreases ls@.len() - i,
    {
        let line = ls[i];
        assert(line@ == all[i as int]);
        let f = quoted_of(line);
        assert(quoted(line@).len() == f@.len());
        if f.len() >= 3 {
            assert(quoted(line@)[0] == f@[0]@);
            assert(quoted(line@)[1] == f@[1]@);
            assert(quoted(line@)[2] == f@[2]@);
            if let Some(pid) = parse_i32(cut(f[1], Class::White)) {
                let row = (string_of(f[0]), pid, services_of(f[2]));
                let ghost was = v@;
                let ghost rv = (row.0@, row.1 as int, text::texts(row.2@));
                v.push(row);
                assert(rows_view(v@) =~= rows_view(was).push(rv));
            }
        }
        i += 1;
    }
    v
}

/// The services of the first `n` rows.
pub open spec fn all_services(rows: Seq<(Seq<char>, int, Seq<Seq<char>>)>, n: int) -> Seq<Seq<char>>
    decreases n,
{
    if n <= 0 {
        seq![]
    } else {
        all_services(rows, n - 1) + rows[n - 1].2
    }
}

/// The services that `tasklist /svc` names for a process.
pub fn service_names(stdout: &[u8]) -> (r: Vec<String>)
    ensures
        ({
            let ls = text::lines(text::lossy(stdout@));
            let rows = service_rows(ls, ls.len() as int);
            text::texts(r@) == all_services(rows, rows.len() as int)
        }),
{
    let listing = lossy_text(stdout);
    let rows = parse_tasklist_csv(listing.as_str());
    assert(rows_view(rows@).len() == rows@.len());
    services_in(&rows)
}

/// The services of some rows.
pub fn services_in(rows: &Vec<(String, Pid, Vec<String>)>) -> (r: Vec<String>)
    ensures
        text::texts(r@) == all_services(rows_view(rows@), rows@.len() as int),
{
    broadcast use crate::text::group_views;

    let ghost all = rows_view(rows@);
    let mut out: Vec<String> = Vec::new();
    let mut i: usize = 0;
    while i < rows.len()
        invariant
            all == rows_view(rows@),
            i <= rows@.len(),
            text::texts(out@) == all_services(all, i as int),
        decreases rows@.len() - i,
    {
        let ghost before = text::texts(out@);
        let svcs = &rows[i].2;
        let ghost sv = text::texts(svcs@);
        assert(all[i as int].2 == sv);
        let mut j: usize = 0;
        assert(before + sv.take(0) =~= before);
        while j < svcs.len()
            invariant
                sv == text::texts(svcs@),
                j <= svcs@.len(),
                text::texts(out@) == before + sv.take(j as int),
            decreases svcs@.len() - j,
        {
            assert(sv[j as int] == svcs@[j as int]@);
            out.push(svcs[j].clone());
            assert((before + sv.take(j as int)).push(sv[j as int]) =~= before + sv.take(j + 1));
            j += 1;
        }
        assert(sv.take(j as int) =~= sv);
        i += 1;
    }
    out
}

/// The decimal digits among the first `n` characters.
pub open spec fn digits_among(s: Seq<char>, n: int) -> Seq<char>
    decreases n,
{
    if n <= 0 {
        seq![]
    } else if '0' <= s[n - 1] <= '9' {
        digits_among(s, n - 1).push(s[n - 1])
    } else {
        digits_among(s, n - 1)
    }
}

/// The number of KiB in a memory field such as "123,456 K".
pub open spec fn memory(field: Seq<char>) -> Option<int> {
    let t = text::trim(
        text::trim_end(text::trim(field, Class::White), Class::Either('K', 'k')),
        Class::White,
    );
    num::parse_unsigned(digits_among(t, t.len() as int), 10, u64::MAX as int)
}

/// The memory table after one more line.
pub open spec fn with_mem_line(m: Map<Pid, u64>, line: Seq<char>) -> Map<Pid, u64> {
    let f = quoted(line);
    if f.len() < 5 {
        m
    } else {
        match (
            num::parse_signed(text::trim(f[1], Class::White), i32::MIN as int, i32::MAX as int),
            memory(f[4]),
        ) {
            (Some(pid), Some(kb)) => m.insert(pid as Pid, kb as u64),
            _ => m,
        }
    }
}

/// The memory table of the first `n` lines.
pub open spec fn mem_table(ls: Seq<Seq<char>>, n: int) -> Map<Pid, u64>
    decreases n,
{
    if n <= 0 {
        Map::empty()
    } else {
        with_mem_line(mem_table(ls, n - 1), ls[n - 1])
    }
}

fn memory_of(field: &[char]) -> (r: Option<u64>)
    ensures
        (match r {
            Some(v) => Some(v as int),
            None => None,
        }) == memory(field@),
{
    let t = cut(cut_end(cut(field, Class::White), Class::Either('K', 'k')), Class::White);
    let mut digits: Vec<char> = Vec::new();
    let mut i: usize = 0;
    assert(digits@ =~= seq![]);
    while i < t.len()
        invariant
            i <= t@.len(),
            digits@ == digits_among(t@, i as int),
        decreases t@.len() - i,
    {
        let c = t[i];
        if '0' <= c && c <= '9' {
            digits.push(c);
        }
        i += 1;
    }
    parse_u64(digits.as_slice())
}

/// tasklist /fo csv /nh row: `"name","pid","Console","1","123,456 K"` to
/// pid and KiB.
pub fn parse_tasklist_mem(out: &str) -> (r: HashMap<Pid, u64>)
    ensures
        r@ == mem_table(text::lines(out@), text::lines(out@).len() as int),
{
    let c = chars_of(out);
    let ls = lines_of(c.as_slice());
    let ghost all = text::lines(out@);
    assert(all.len() == ls@.len());
    let mut m: HashMap<Pid, u64> = HashMap::new();
    let mut i: usize = 0;
    assert(m@ =~= Map::<Pid, u64>::empty());
    while i < ls.len()
        invariant
            text::pieces(ls@) == all,
            all.len() == ls@.len(),
            i <= ls@.len(),
            m@ == mem_table(all, i as int),
        decreases ls@.len() - i,
    {
        let line = ls[i];
        assert(line@ == all[i as int]);
        let f = quoted_of(line);
        assert(quoted(line@).len() == f@.len());
        if f.len() >= 5 {
            assert(quoted(line@)[1] == f@[1]@);
            assert(quoted(line@)[4] == f@[4]@);
            if let Some(pid) = parse_i32(cut(f[1], Class::White)) {
                if let Some(kb) = memory_of(f[4]) {
                    m.insert(pid, kb);
                }
            }
        }
        i += 1;
    }
    m
}

// ---------- services ----------

/// Whether the Service Control Manager is among the processes.
pub open spec fn under_scm(chain: Seq<ProcessView>) -> bool {
    exists|i: int|
        0 <= i < chain.len() && text::same_ignoring_case(
            (#[trigger] chain[i]).name,
            "services.exe"@,
        )
}

/// The source of a process by the Service Control Manager.
pub open spec fn service(chain: Seq<ProcessView>, svcs: Seq<Seq<char>>) -> Option<SourceView> {
    if !under_scm(chain) {
        None
    } else if svcs.len() > 0 {
        Some(
            SourceView {
                kind: "windows-service"@,
                label: Some(text::join(svcs, ", "@)),
                detail: Some("registered Windows service(s) (Service Control Manager)"@),
            },
        )
    } else {
        Some(
            SourceView {
                kind: "windows-service"@,
                label: None,
                detail: Some(
                    "descendant of the Service Control Manager (services.exe), but pid "@
                        + num::dec(chain.last().pid as int)
                        + " is itself not a registered service"@,
                ),
            },
        )
    }
}

/// The pid to ask tasklist about, if any.
pub fn service_query(chain: &[Process]) -> (r: Option<Pid>)
    ensures
        r == if under_scm(text::views(chain@)) {
            Some(text::views(chain@).last().pid)
        } else {
            None
        },
{
    let ghost all = text::views(chain@);
    let mut i: usize = 0;
    while i < chain.len()
        invariant
            all == text::views(chain@),
            i <= chain@.len(),
            forall|j: int|
                0 <= j < i ==> !text::same_ignoring_case(
                    (#[trigger] all[j]).name,
                    "services.exe"@,
                ),
        decreases chain@.len() - i,
    {
        assert(all[i as int] == chain@[i as int]@);
        if same_str_nocase(chain[i].name.as_str(), "services.exe") {
            let n: usize = chain.len();
            assert(all.last() == chain@[n - 1]@);
            return Some(chain[n - 1].pid);
        }
        i += 1;
    }
    None
}

/// Attribution by the Service Control Manager for the last process of the
/// chain, with the services that run in it.
pub fn service_source(chain: &[Process], svcs: &Vec<String>) -> (r: Option<Source>)
    ensures
        model::opt_source(r) == service(text::views(chain@), text::texts(svcs@)),
{
    match service_query(chain) {
        None => None,
        Some(pid) => {
            if svcs.len() > 0 {
                Some(
                    Source {
                        kind: text("windows-service"),
                        label: Some(joined(svcs, ", ")),
                        detail: Some(
                            text("registered Windows service(s) (Service Control Manager)"),
                        ),
                    },
                )
            } else {
                let mut d = text(
                    "descendant of the Service Control Manager (services.exe), but pid ",
                );
                d.append(dec_i32(pid).as_str());
                d.append(" is itself not a registered service");
                Some(Source { kind: text("windows-service"), label: None, detail: Some(d) })
            }
        },
    }
}

} // verus!
