//! What holds of the dealings with PowerShell: the encoding of scripts, what
//! they ask for, how dates are read, and what a process is told to be.

use vstd::prelude::*;
use vstd::string::*;

use crate::model::{Pid, ProcessView};
use crate::platform::windows;
use crate::platform::windows::{CimRow, StampView};
use crate::text::Class;
use crate::{calendar, num, text, util};

verus! {

// ---------- the encoding ----------

/// The number that a digit of base64 stands for.
pub open spec fn digit_number(c: char) -> int {
    if 'A' <= c <= 'Z' {
        c as u32 - 'A' as u32
    } else if 'a' <= c <= 'z' {
        26 + (c as u32 - 'a' as u32)
    } else if '0' <= c <= '9' {
        52 + (c as u32 - '0' as u32)
    } else if c == '+' {
        62
    } else if c == '/' {
        63
    } else {
        -1
    }
}

proof fn digit_reads_back(d: int)
    requires
        0 <= d < 64,
    ensures
        digit_number(windows::base64_digit(d)) == d,
        windows::base64_digit(d) != '=',
{
}

proof fn base64_is_groups(b: Seq<int>, k: int, g: int)
    requires
        0 <= g < k,
    ensures
        windows::base64(b, k).len() == 4 * k,
        windows::base64(b, k).subrange(4 * g, 4 * g + 4) == windows::base64_group(b, 3 * g),
    decreases k,
{
    let e = windows::base64(b, k);
    let before = windows::base64(b, k - 1);
    if k - 1 > 0 {
        base64_is_groups(b, k - 1, if g < k - 1 {
            g
        } else {
            0
        });
    } else {
        assert(before.len() == 0);
    }
    if g < k - 1 {
        assert(e.subrange(4 * g, 4 * g + 4) =~= before.subrange(4 * g, 4 * g + 4));
    } else {
        assert(e.subrange(4 * g, 4 * g + 4) =~= windows::base64_group(b, 3 * g));
    }
}

/// Four digits of the encoded text stand for three bytes, the first byte in
/// front; at the end, two bytes make three digits and one byte two, and equals
/// signs fill the group.
pub proof fn groups_stand_for_three_bytes(s: Seq<char>, g: int)
    requires
        0 <= g,
        3 * g < windows::utf16_bytes(s).len(),
    ensures
        ({
            let b = windows::utf16_bytes(s);
            let e = windows::encoded(s);
            let v = |i: int| digit_number(e[4 * g + i]);
            &&& e.len() == 4 * ((b.len() + 2) as int / 3)
            &&& 3 * g + 2 < b.len() ==> ((v(0) * 64 + v(1)) * 64 + v(2)) * 64 + v(3) == (b[3 * g]
                * 256 + b[3 * g + 1]) * 256 + b[3 * g + 2]
            &&& 3 * g + 2 == b.len() ==> e[4 * g + 3] == '=' && (v(0) * 64 + v(1)) * 64 + v(2) == (
            b[3 * g] * 256 + b[3 * g + 1]) * 4
            &&& 3 * g + 1 == b.len() ==> e[4 * g + 2] == '=' && e[4 * g + 3] == '=' && v(0) * 64
                + v(1) == b[3 * g] * 16
        }),
{
    let b = windows::utf16_bytes(s);
    let e = windows::encoded(s);
    let k = (b.len() + 2) as int / 3;
    base64_is_groups(b, k, g);
    let q = windows::base64_group(b, 3 * g);
    assert(e.subrange(4 * g, 4 * g + 4) == q);
    assert forall|i: int| 0 <= i < 4 implies e[4 * g + i] == q[i] by {
        assert(e.subrange(4 * g, 4 * g + 4)[i] == e[4 * g + i]);
    }
    assert(e[4 * g + 0] == q[0] && e[4 * g + 1] == q[1] && e[4 * g + 2] == q[2] && e[4 * g + 3]
        == q[3]);
    bytes_are_small(s, 3 * g);
    if 3 * g + 1 < b.len() {
        bytes_are_small(s, 3 * g + 1);
    }
    if 3 * g + 2 < b.len() {
        bytes_are_small(s, 3 * g + 2);
    }
    group_digits(
        windows::byte_or_zero(b, 3 * g),
        windows::byte_or_zero(b, 3 * g + 1),
        windows::byte_or_zero(b, 3 * g + 2),
    );
}

proof fn group_digits(x: int, y: int, z: int)
    requires
        0 <= x < 256,
        0 <= y < 256,
        0 <= z < 256,
    ensures
        ({
            let n = x * 65536 + y * 256 + z;
            let v0 = digit_number(windows::base64_digit(n / 262144));
            let v1 = digit_number(windows::base64_digit((n / 4096) % 64));
            let v2 = digit_number(windows::base64_digit((n / 64) % 64));
            let v3 = digit_number(windows::base64_digit(n % 64));
            &&& ((v0 * 64 + v1) * 64 + v2) * 64 + v3 == (x * 256 + y) * 256 + z
            &&& z == 0 ==> (v0 * 64 + v1) * 64 + v2 == (x * 256 + y) * 4
            &&& y == 0 && z == 0 ==> v0 * 64 + v1 == x * 16
        }),
{
    let n = x * 65536 + y * 256 + z;
    places_of(n);
    digit_reads_back(n / 262144);
    digit_reads_back((n / 4096) % 64);
    digit_reads_back((n / 64) % 64);
    digit_reads_back(n % 64);
    if z == 0 {
        assert(n == (x * 256 + y) * 4 * 64);
        assert(n / 64 == (x * 256 + y) * 4);
    }
    if y == 0 && z == 0 {
        assert(n == x * 16 * 4096);
        assert(n / 4096 == x * 16);
    }
}

proof fn places_of(n: int)
    requires
        0 <= n < 16777216,
    ensures
        0 <= n / 262144 < 64,
        0 <= (n / 4096) % 64 < 64,
        0 <= (n / 64) % 64 < 64,
        0 <= n % 64 < 64,
        (n / 262144) * 64 + (n / 4096) % 64 == n / 4096,
        (n / 4096) * 64 + (n / 64) % 64 == n / 64,
        (n / 64) * 64 + n % 64 == n,
{
    assert(n / 4096 == (n / 64) / 64);
    assert(n / 262144 == (n / 4096) / 64);
}

proof fn bytes_are_small(s: Seq<char>, i: int)
    requires
        0 <= i < windows::utf16_bytes(s).len(),
    ensures
        0 <= windows::utf16_bytes(s)[i] < 256,
{
    let u = windows::units(s, s.len() as int);
    units_are_small(s, s.len() as int);
    low_first_is_small(u, u.len() as int, i);
}

proof fn units_of_one_are_small(c: char)
    ensures
        forall|j: int|
            0 <= j < windows::units_of(c).len() ==> 0 <= #[trigger] windows::units_of(c)[j] < 65536,
{
    let n = c as u32 as int;
    assert(n <= 0x10FFFF);
    if n >= 0x10000 {
        assert(0 <= (n - 0x10000) / 0x400 < 0x400);
    }
}

proof fn units_are_small(s: Seq<char>, n: int)
    requires
        n <= s.len(),
    ensures
        forall|j: int|
            0 <= j < windows::units(s, n).len() ==> 0 <= #[trigger] windows::units(s, n)[j] < 65536,
    decreases n,
{
    if n > 0 {
        units_are_small(s, n - 1);
        let c = s[n - 1];
        units_of_one_are_small(c);
        let before = windows::units(s, n - 1);
        assert forall|j: int| 0 <= j < windows::units(s, n).len() implies 0
            <= #[trigger] windows::units(s, n)[j] < 65536 by {
            if j < before.len() {
                assert(windows::units(s, n)[j] == before[j]);
            } else {
                assert(windows::units(s, n)[j] == windows::units_of(c)[j - before.len()]);
            }
        }
    }
}

proof fn low_first_is_small(u: Seq<int>, n: int, i: int)
    requires
        0 <= n <= u.len(),
        forall|j: int| 0 <= j < u.len() ==> 0 <= #[trigger] u[j] < 65536,
        0 <= i < windows::low_first(u, n).len(),
    ensures
        windows::low_first(u, n).len() == 2 * n,
        0 <= windows::low_first(u, n)[i] < 256,
    decreases n,
{
    if n > 0 {
        let before = windows::low_first(u, n - 1);
        low_first_len(u, n - 1);
        if i < before.len() {
            low_first_is_small(u, n - 1, i);
        }
        assert(0 <= u[n - 1] < 65536);
    }
}

proof fn low_first_len(u: Seq<int>, n: int)
    requires
        0 <= n,
    ensures
        windows::low_first(u, n).len() == 2 * n,
    decreases n,
{
    if n > 0 {
        low_first_len(u, n - 1);
    }
}

proof fn units_prefix(s: Seq<char>, c: char, n: int)
    requires
        n <= s.len(),
    ensures
        windows::units(s.push(c), n) == windows::units(s, n),
    decreases n,
{
    if n > 0 {
        units_prefix(s, c, n - 1);
    }
}

/// One character more adds its UTF-16 units to the bytes, the low byte of each
/// in front: one unit that is the character, or two surrogates that stand for
/// it.
pub proof fn character_adds_its_units(s: Seq<char>, c: char)
    ensures
        ({
            let a = windows::utf16_bytes(s);
            let b = windows::utf16_bytes(s.push(c));
            let n = a.len() as int;
            let hi = b[n] + 256 * b[n + 1];
            let lo = b[n + 2] + 256 * b[n + 3];
            &&& windows::utf16_bytes(seq![]).len() == 0
            &&& b.len() >= n
            &&& b.subrange(0, n) == a
            &&& (c as u32) < 0x10000 ==> b.len() == n + 2 && hi == c as u32
            &&& (c as u32) >= 0x10000 ==> b.len() == n + 4 && 0xD800 <= hi < 0xDC00 && 0xDC00 <= lo
                < 0xE000 && 0x10000 + (hi - 0xD800) * 0x400 + (lo - 0xDC00) == c as u32
        }),
{
    let u = windows::units(s, s.len() as int);
    let x = windows::units_of(c);
    let t = s.push(c);
    units_prefix(s, c, s.len() as int);
    assert(t[t.len() - 1] == c);
    assert(windows::units(t, t.len() as int) =~= u + x);
    low_first_len(u, u.len() as int);
    windows::low_first_grows(u, x[0]);
    if x.len() == 1 {
        assert(u + x =~= u.push(x[0]));
    } else {
        assert(u + x =~= u.push(x[0]).push(x[1]));
        windows::low_first_grows(u.push(x[0]), x[1]);
    }
    let a = windows::utf16_bytes(s);
    let b = windows::utf16_bytes(t);
    assert(b.subrange(0, a.len() as int) =~= a);
    let n = c as u32 as int;
    assert(0 <= n <= 0x10FFFF);
}

// ---------- the script ----------

proof fn join_holds_its_parts(parts: Seq<Seq<char>>, sep: Seq<char>, i: int)
    requires
        0 <= i < parts.len(),
    ensures
        exists|a: Seq<char>, b: Seq<char>| text::join(parts, sep) == #[trigger] (a + parts[i] + b),
    decreases parts.len(),
{
    let j = text::join(parts, sep);
    if parts.len() == 1 {
        assert(j =~= Seq::<char>::empty() + parts[0] + Seq::<char>::empty());
    } else if i == parts.len() - 1 {
        let a = text::join(parts.drop_last(), sep) + sep;
        assert(j =~= a + parts[i] + Seq::<char>::empty());
    } else {
        join_holds_its_parts(parts.drop_last(), sep, i);
        let (a, b) = choose|a: Seq<char>, b: Seq<char>|
            text::join(parts.drop_last(), sep) == #[trigger] (a + parts.drop_last()[i] + b);
        assert(j =~= a + parts[i] + (b + sep + parts.last()));
    }
}

/// The script asks for every process of the batch.
pub proof fn script_asks_for_every_process(pids: Seq<Pid>, i: int)
    requires
        0 <= i < pids.len(),
    ensures
        exists|a: Seq<char>, b: Seq<char>|
            windows::script(pids) == #[trigger] (a + ("ProcessId="@ + num::dec(pids[i] as int))
                + b),
{
    let c = windows::conditions(pids);
    join_holds_its_parts(c, " OR "@, i);
    let (a, b) = choose|a: Seq<char>, b: Seq<char>|
        text::join(c, " OR "@) == #[trigger] (a + c[i] + b);
    let head = "Get-CimInstance Win32_Process -Filter '"@;
    let tail = windows::script(pids).subrange(
        (head.len() + text::join(c, " OR "@).len()) as int,
        windows::script(pids).len() as int,
    );
    assert(windows::script(pids) =~= (head + a) + c[i] + (b + tail));
}

// ---------- dates ----------

proof fn date_prefix(s: Seq<char>)
    ensures
        s.len() > 0 && s[0] != '/' ==> text::strip_prefix(s, "/Date("@) is None,
{
    reveal_strlit("/Date(");
    assert("/Date("@ =~= seq!['/', 'D', 'a', 't', 'e', '(']);
    if s.len() > 0 && s[0] != '/' && text::starts_with(s, "/Date("@) {
        text::holding_is_standing_between(s, "/Date("@);
        let b = choose|b: Seq<char>| s == #[trigger] ("/Date("@ + b);
        assert(s[0] == '/');
    }
}

/// A date in milliseconds is read in whole seconds, the rest cut off.
pub proof fn milliseconds_are_cut_to_seconds(ms: i64)
    ensures
        windows::stamp("/Date("@ + num::dec(ms as int) + ")/"@) matches Some(StampView::Seconds(s))
            && (if ms >= 0 {
            s * 1000 <= ms < s * 1000 + 1000
        } else {
            s * 1000 >= ms > s * 1000 - 1000
        }),
{
    let d = num::dec(ms as int);
    let rest = d + ")/"@;
    assert("/Date("@ + d + ")/"@ =~= "/Date("@ + rest);
    text::stripping_undoes_adding(rest, "/Date("@);
    num::printed_number_reads_back(ms as int, i64::MIN as int, i64::MAX as int);
    num::printed_number_has_no_space(ms as int);
    reveal_strlit(")/");
    assert(")/"@ =~= seq![')', '/']);
    text::holding_is_standing_between(rest, ")/"@);
    assert(text::ends_with(rest, ")/"@));
    text::holding_is_standing_between(d, ")/"@);
    assert(!text::ends_with(d, ")/"@)) by {
        if text::ends_with(d, ")/"@) {
            let a = choose|a: Seq<char>| d == #[trigger] (a + ")/"@);
            assert(d.last() == '/');
        }
    }
    assert(rest.subrange(0, rest.len() - 2) =~= d);
    reveal_with_fuel(text::trim_end_str, 2);
    assert(text::trim_end_str(rest, ")/"@) == d);
}

/// A date with dashes is read as year, month and day, and the parts of the time
/// of day behind the T, without the Z at the end.
pub proof fn civil_date_is_read(
    y: Seq<char>,
    m: Seq<char>,
    d: Seq<char>,
    clock: Seq<char>,
    zs: Seq<char>,
    yn: int,
    mn: int,
    dn: int,
)
    requires
        forall|j: int| 0 <= j < y.len() ==> '0' <= #[trigger] y[j] <= '9',
        forall|j: int| 0 <= j < m.len() ==> '0' <= #[trigger] m[j] <= '9',
        forall|j: int| 0 <= j < d.len() ==> '0' <= #[trigger] d[j] <= '9',
        num::parse_signed(y, i64::MIN as int, i64::MAX as int) == Some(yn),
        num::parse_signed(m, i64::MIN as int, i64::MAX as int) == Some(mn),
        num::parse_signed(d, i64::MIN as int, i64::MAX as int) == Some(dn),
        0 <= yn <= 9999 && 0 <= mn <= 99 && 0 <= dn <= 99,
        clock.len() > 0 && clock.last() != 'Z',
        forall|j: int| 0 <= j < zs.len() ==> #[trigger] zs[j] == 'Z',
    ensures
        windows::stamp(
            (y + seq!['-'] + (m + seq!['-'] + d)) + seq!['T'] + (clock + zs),
        ) matches Some(StampView::Civil { year, month, day, clock: parts }) && year == yn && month
            == mn && day == dn && parts == text::split(clock, Class::Is(':')),
{
    let k = Class::Is('-');
    let date = y + seq!['-'] + (m + seq!['-'] + d);
    let s = date + seq!['T'] + (clock + zs);
    if y.len() == 0 {
        assert(num::parse_signed(y, i64::MIN as int, i64::MAX as int) is None);
    }
    assert(s[0] == y[0]);
    date_prefix(s);
    assert forall|j: int| 0 <= j < date.len() implies !Class::Is('T').holds(#[trigger] date[j]) by {
        let a = y.len() as int;
        let b = m.len() as int;
        if j < a {
            assert(date[j] == y[j]);
        } else if a < j < a + 1 + b {
            assert(date[j] == m[j - a - 1]);
        } else if j > a + 1 + b {
            assert(date[j] == d[j - a - b - 2]);
        }
    }
    text::cut_once_is_at_the_first(date, 'T', clock + zs, Class::Is('T'));
    assert forall|j: int| 0 <= j < y.len() implies !k.holds(#[trigger] y[j]) by {
    }
    assert forall|j: int| 0 <= j < m.len() implies !k.holds(#[trigger] m[j]) by {
    }
    assert forall|j: int| 0 <= j < d.len() implies !k.holds(#[trigger] d[j]) by {
    }
    text::uncut_is_one_piece(d, k);
    text::first_piece_ends_at_the_cut(m, '-', d, k);
    text::first_piece_ends_at_the_cut(y, '-', m + seq!['-'] + d, k);
    let parts = text::split(date, k);
    assert(parts =~= seq![y, m, d]);
    reveal_with_fuel(windows::numbers_among, 4);
    assert(windows::numbers_among(parts, 3) =~= seq![yn as i64, mn as i64, dn as i64]);
    if zs.len() == 0 {
        assert(clock + zs =~= clock);
    }
    assert(text::trim_end(clock + zs, Class::Is('Z')) == clock) by {
        text::end_out_is_last(clock + zs, Class::Is('Z'), (clock + zs).len() as int);
        let e = text::end_out(clock + zs, Class::Is('Z'), (clock + zs).len() as int);
        let n = clock.len() as int;
        if e > n {
            assert((clock + zs)[e - 1] == zs[e - 1 - n]);
        }
        if e < n {
            assert((clock + zs)[n - 1] == clock[n - 1]);
        }
        assert((clock + zs).subrange(0, n) =~= clock);
    }
}

/// The time of a date is counted from 1970 in days, hours, minutes and seconds;
/// without minutes there is none.
pub proof fn date_is_counted_in_seconds(y: int, m: int, d: int, clock: Seq<i64>)
    requires
        calendar::is_date(y, m, d),
        -9_999 <= y <= 9_999,
        forall|i: int| 0 <= i < clock.len() ==> 0 <= #[trigger] clock[i] <= 99,
    ensures
        clock.len() < 2 ==> windows::civil_seconds(y, m, d, clock) is None,
        clock.len() == 2 ==> windows::civil_seconds(y, m, d, clock) == Some(
            ((calendar::day_number(y, m, d) * 24 + clock[0]) * 60 + clock[1]) * 60,
        ),
        clock.len() > 2 ==> windows::civil_seconds(y, m, d, clock) == Some(
            ((calendar::day_number(y, m, d) * 24 + clock[0]) * 60 + clock[1]) * 60 + clock[2],
        ),
{
    calendar::march_count_is_day_number(y, m, d);
    day_numbers_are_small(y, m, d);
}

proof fn day_numbers_are_small(y: int, m: int, d: int)
    requires
        calendar::is_date(y, m, d),
        -9_999 <= y <= 9_999,
    ensures
        -10_000_000 <= calendar::day_number(y, m, d) <= 10_000_000,
{
    reveal_with_fuel(calendar::days_before_month, 13);
}

// ---------- processes ----------

/// A process is listed with its numbers, called by the last component of its
/// image, with the memory that the table has for its pid.
pub proof fn listed_process_is_told(pid: Pid, ppid: Pid, exe: Seq<char>, mem: Map<Pid, u64>)
    ensures
        ({
            let p = windows::listed(pid, ppid, exe, mem);
            &&& p.pid == pid
            &&& p.ppid == Some(ppid)
            &&& p.name == util::base(exe)
            &&& p.mem_kb is Some <==> mem.contains_key(pid)
            &&& p.mem_kb matches Some(kb) ==> kb == mem[pid]
            &&& p.exe is None && p.user is None && p.started is None && p.cmdline.len() == 0
        }),
{
}

/// What PowerShell says of a process replaces what was known; the parent and
/// the command line stay where it does not say them.
pub proof fn details_replace_what_was_known(brief: ProcessView, d: CimRow)
    ensures
        windows::detailed(brief, None) == brief,
        ({
            let p = windows::detailed(brief, Some(d));
            &&& p.pid == brief.pid && p.name == brief.name && p.mem_kb == brief.mem_kb && p.cpu
                == brief.cpu && p.uid == brief.uid && p.cwd == brief.cwd && p.env == brief.env
            &&& p.exe == text::opt(d.exe)
            &&& p.user == text::opt(d.user)
            &&& p.started == d.started
            &&& d.ppid is None ==> p.ppid == brief.ppid
            &&& d.ppid matches Some(n) ==> (i32::MIN <= n <= i32::MAX ==> p.ppid == Some(n as Pid))
            &&& d.cmd is None ==> p.cmdline == brief.cmdline
            &&& d.cmd matches Some(c) ==> p.cmdline == seq![c@]
        }),
{
}

} // verus!
