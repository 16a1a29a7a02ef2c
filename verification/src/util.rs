//! Time formatting, user-name resolution and the small text forms that the
//! platform tools print.

use std::collections::HashMap;

use vstd::prelude::*;
use vstd::slice::slice_subrange;
use vstd::string::*;

use crate::calendar::civil_from_days;
use crate::num::{dec_i64, parse_i64, parse_u16, parse_u32, zero_padded};
use crate::text::{
    chars_of, cut, cut_at, cut_once, find_in, lines_of, opt_copy, rcut_once, string_of, text, Class,
};
use crate::calendar;
use crate::num;
use crate::text;
use crate::platform::Os;

verus! {

// ---------- points in time ----------

/// `YYYY-MM-DD hh:mm:ss` for a number of seconds since 1970-01-01 00:00:00.
pub open spec fn time_text(secs: int) -> Seq<char> {
    let t = calendar::civil(secs / 86_400);
    let rem = secs % 86_400;
    num::zero_pad(t.0, 4) + "-"@ + num::zero_pad(t.1, 2) + "-"@ + num::zero_pad(t.2, 2) + " "@ + num::zero_pad(
        rem / 3600,
        2,
    ) + ":"@ + num::zero_pad((rem % 3600) / 60, 2) + ":"@ + num::zero_pad(rem % 60, 2)
}

/// Pure civil-time formatting (input already offset-adjusted).
pub fn fmt_time_utc(secs: i64) -> (r: String)
    ensures
        r@ == time_text(secs as int),
{
    let days: i64 = if secs >= 0 {
        secs / 86_400
    } else {
        -((-(secs + 1)) / 86_400) - 1
    };
    assert(days == secs as int / 86_400);
    let rem: i64 = if secs >= 0 {
        secs % 86_400
    } else {
        86_399 - (-(secs + 1)) % 86_400
    };
    assert(rem == secs as int % 86_400);
    let (y, mo, d) = civil_from_days(days);
    let mut out = zero_padded(y, 4);
    out.append("-");
    out.append(zero_padded(mo as i64, 2).as_str());
    out.append("-");
    out.append(zero_padded(d as i64, 2).as_str());
    out.append(" ");
    out.append(zero_padded(rem / 3600, 2).as_str());
    out.append(":");
    out.append(zero_padded((rem % 3600) / 60, 2).as_str());
    out.append(":");
    out.append(zero_padded(rem % 60, 2).as_str());
    out
}

/// A number of seconds, at the ends of the range when it does not fit.
pub open spec fn in_range(t: int) -> int {
    if t > i64::MAX {
        i64::MAX as int
    } else if t < i64::MIN {
        i64::MIN as int
    } else {
        t
    }
}

fn range_of(t: i128) -> (r: i64)
    ensures
        r == in_range(t as int),
{
    if t > i64::MAX as i128 {
        i64::MAX
    } else if t < i64::MIN as i128 {
        i64::MIN
    } else {
        t as i64
    }
}

/// Format a unix timestamp as local naive time, `offset` seconds east of UTC.
pub fn fmt_time(unix: i64, offset: i64) -> (r: String)
    ensures
        r@ == time_text(in_range(unix + offset)),
{
    fmt_time_utc(range_of(unix as i128 + offset as i128))
}

/// The seconds that a `+hhmm` or `-hhmm` zone lies east of UTC; 0 for any
/// other text.
pub open spec fn utc_offset(out: Seq<char>) -> int {
    let s = text::trim(out, Class::White);
    if s.len() == 5 && (s[0] == '+' || s[0] == '-') {
        match (
            num::parse_signed(s.subrange(1, 3), i64::MIN as int, i64::MAX as int),
            num::parse_signed(s.subrange(3, 5), i64::MIN as int, i64::MAX as int),
        ) {
            (Some(h), Some(m)) => if s[0] == '-' {
                -(h * 3600 + m * 60)
            } else {
                h * 3600 + m * 60
            },
            _ => 0,
        }
    } else {
        0
    }
}

proof fn two_digits_are_small(s: Seq<char>)
    requires
        s.len() == 2,
    ensures
        num::parse_signed(s, i64::MIN as int, i64::MAX as int) matches Some(v) ==> -9 <= v <= 99,
{
    two_digits_value(s);
}

proof fn two_digits_value(s: Seq<char>)
    requires
        s.len() <= 2,
    ensures
        crate::num::all_digits(s, 10) ==> 0 <= crate::num::digits_value(s, 10) <= 99,
        crate::num::all_digits(s, 10) && s.len() <= 1 ==> crate::num::digits_value(s, 10) <= 9,
        s.len() == 2 ==> {
            &&& (crate::num::all_digits(s.subrange(1, 2), 10) ==> 0 <= crate::num::digits_value(
                s.subrange(1, 2),
                10,
            ) <= 9)
        },
{
    reveal_with_fuel(crate::num::digits_value, 4);
    if crate::num::all_digits(s, 10) {
        assert(crate::num::digit_value(s[s.len() - 1], 10) >= 0);
        assert(crate::num::digit_value(s[0], 10) >= 0);
    }
    if s.len() == 2 && crate::num::all_digits(s.subrange(1, 2), 10) {
        assert(crate::num::digit_value(s.subrange(1, 2)[0], 10) >= 0);
    }
}

/// Reads what `date +%z` prints. See the spec function `utc_offset`.
pub fn parse_utc_offset(out: &str) -> (r: i64)
    ensures
        r == utc_offset(out@),
{
    let c = chars_of(out);
    let s = cut(c.as_slice(), Class::White);
    if s.len() == 5 && (s[0] == '+' || s[0] == '-') {
        let hs = slice_subrange(s, 1, 3);
        let ms = slice_subrange(s, 3, 5);
        proof {
            two_digits_are_small(hs@);
            two_digits_are_small(ms@);
        }
        match (parse_i64(hs), parse_i64(ms)) {
            (Some(h), Some(m)) => if s[0] == '-' {
                -(h * 3600 + m * 60)
            } else {
                h * 3600 + m * 60
            },
            _ => 0,
        }
    } else {
        0
    }
}

// ---------- durations ----------

/// A duration in its two largest units: "3d 2h", "2h 13m", "5m 12s", "42s".
pub open spec fn age_text(seconds: int) -> Seq<char> {
    let s = if seconds < 0 {
        0
    } else {
        seconds
    };
    if s >= 86_400 {
        num::dec(s / 86_400) + "d "@ + num::dec((s % 86_400) / 3600) + "h"@
    } else if s >= 3600 {
        num::dec(s / 3600) + "h "@ + num::dec((s % 3600) / 60) + "m"@
    } else if s >= 60 {
        num::dec(s / 60) + "m "@ + num::dec(s % 60) + "s"@
    } else {
        num::dec(s) + "s"@
    }
}

fn two_units(a: i64, ua: &str, b: i64, ub: &str) -> (r: String)
    ensures
        r@ == num::dec(a as int) + ua@ + num::dec(b as int) + ub@,
{
    let mut out = dec_i64(a);
    out.append(ua);
    out.append(dec_i64(b).as_str());
    out.append(ub);
    out
}

/// Human-friendly duration: "3d 2h", "2h 13m", "5m 12s", "42s".
pub fn fmt_age(seconds: i64) -> (r: String)
    ensures
        r@ == age_text(seconds as int),
{
    let s: i64 = if seconds < 0 {
        0
    } else {
        seconds
    };
    if s >= 86_400 {
        two_units(s / 86_400, "d ", (s % 86_400) / 3600, "h")
    } else if s >= 3600 {
        two_units(s / 3600, "h ", (s % 3600) / 60, "m")
    } else if s >= 60 {
        two_units(s / 60, "m ", s % 60, "s")
    } else {
        let mut out = dec_i64(s);
        out.append("s");
        out
    }
}

/// The time from `then` to `now`, at the ends of the range when it does not
/// fit.
pub open spec fn elapsed(now: int, then: int) -> int {
    in_range(now - then)
}

/// See the spec function `elapsed`.
pub fn since(now: i64, then: i64) -> (r: i64)
    ensures
        r == elapsed(now as int, then as int),
{
    range_of(now as i128 - then as i128)
}

/// A text read as an `i64`.
pub open spec fn as_i64(s: Seq<char>) -> Option<int> {
    num::parse_signed(s, i64::MIN as int, i64::MAX as int)
}

/// Whether every part is a number.
pub open spec fn all_numbers(p: Seq<Seq<char>>) -> bool {
    forall|i: int| 0 <= i < p.len() ==> as_i64(#[trigger] p[i]) is Some
}

/// Days and clock parts in seconds: days stand only before `hh:mm:ss`.
pub open spec fn clock_secs(days: int, p: Seq<Seq<char>>) -> Option<int> {
    if !all_numbers(p) {
        None
    } else if p.len() == 3 {
        Some(days * 86_400 + as_i64(p[0])->0 * 3600 + as_i64(p[1])->0 * 60 + as_i64(p[2])->0)
    } else if p.len() == 2 && days == 0 {
        Some(as_i64(p[0])->0 * 60 + as_i64(p[1])->0)
    } else if p.len() == 1 && days == 0 {
        Some(as_i64(p[0])->0)
    } else {
        None
    }
}

/// `t`, when an `i64` holds it.
pub open spec fn fitting(t: Option<int>) -> Option<int> {
    match t {
        Some(v) => if i64::MIN <= v <= i64::MAX {
            Some(v)
        } else {
            None
        },
        None => None,
    }
}

/// The seconds in a `ps` elapsed time, `[[dd-]hh:]mm:ss` or plain seconds.
/// A total that no `i64` holds is none.
pub open spec fn etime_secs(s: Seq<char>) -> Option<int> {
    match text::split_once(s, Class::Is('-')) {
        Some(p) => match as_i64(p.0) {
            Some(days) => fitting(clock_secs(days, text::split(p.1, Class::Is(':')))),
            None => None,
        },
        None => fitting(clock_secs(0, text::split(s, Class::Is(':')))),
    }
}

fn fit(t: i128) -> (r: Option<i64>)
    ensures
        r is Some <==> i64::MIN <= t <= i64::MAX,
        r matches Some(v) ==> v == t,
{
    if i64::MIN as i128 <= t && t <= i64::MAX as i128 {
        Some(t as i64)
    } else {
        None
    }
}

/// Parse `ps etime` style durations: "37", "12:05", "03:10:31", "1-03:10:31".
pub fn parse_etime_to_secs(s: &str) -> (r: Option<i64>)
    ensures
        (match r {
            Some(v) => Some(v as int),
            None => None,
        }) == etime_secs(s@),
{
    let c = chars_of(s);
    etime_of(c.as_slice())
}

/// See the spec function `etime_secs`.
pub fn etime_of(s: &[char]) -> (r: Option<i64>)
    ensures
        (match r {
            Some(v) => Some(v as int),
            None => None,
        }) == etime_secs(s@),
{
    let (days, rest) = match cut_once(s, Class::Is('-')) {
        Some((d, r)) => match parse_i64(d) {
            Some(v) => (v, r),
            None => {
                return None;
            },
        },
        None => (0i64, s),
    };
    let p = cut_at(rest, Class::Is(':'));
    let ghost parts = text::split(rest@, Class::Is(':'));
    assert(text::pieces(p@) == parts);
    assert(parts.len() == p@.len());
    let mut v: Vec<i64> = Vec::new();
    let mut i: usize = 0;
    while i < p.len()
        invariant
            text::pieces(p@) == parts,
            parts == text::split(rest@, Class::Is(':')),
            match text::split_once(s@, Class::Is('-')) {
                Some(c) => as_i64(c.0) == Some(days as int) && rest@ == c.1,
                None => days == 0 && rest@ == s@,
            },
            parts.len() == p@.len(),
            i <= p@.len(),
            v@.len() == i,
            forall|j: int| 0 <= j < i ==> as_i64(#[trigger] parts[j]) == Some(v@[j] as int),
        decreases p@.len() - i,
    {
        let q = p[i];
        assert(q@ == parts[i as int]);
        match parse_i64(q) {
            Some(x) => v.push(x),
            None => {
                assert(!all_numbers(parts));
                return None;
            },
        }
        i += 1;
    }
    if v.len() == 3 {
        assert(as_i64(parts[0]) == Some(v@[0] as int));
        assert(as_i64(parts[1]) == Some(v@[1] as int));
        assert(as_i64(parts[2]) == Some(v@[2] as int));
        fit(
            (days as i128) * 86_400 + (v[0] as i128) * 3600 + (v[1] as i128) * 60 + (v[2] as i128),
        )
    } else if v.len() == 2 && days == 0 {
        assert(as_i64(parts[0]) == Some(v@[0] as int));
        assert(as_i64(parts[1]) == Some(v@[1] as int));
        fit((v[0] as i128) * 60 + (v[1] as i128))
    } else if v.len() == 1 && days == 0 {
        assert(as_i64(parts[0]) == Some(v@[0] as int));
        Some(v[0])
    } else {
        None
    }
}

// ---------- paths ----------

/// Strip a trailing " (deleted)" that kernels append to exe paths.
pub fn strip_deleted_suffix(p: &str) -> (r: (&str, bool))
    ensures
        r.1 == text::ends_with(p@, " (deleted)"@),
        r.0@ == if r.1 {
            p@.subrange(0, p@.len() - 10)
        } else {
            p@
        },
{
    let c = chars_of(p);
    proof {
        reveal_strlit(" (deleted)");
    }
    if crate::text::ends(c.as_slice(), " (deleted)") {
        (p.substring_char(0, c.len() - 10), true)
    } else {
        (p, false)
    }
}

/// What stands behind the last slash.
pub open spec fn base(p: Seq<char>) -> Seq<char> {
    match text::rsplit_once(p, Class::Is('/')) {
        Some(c) => c.1,
        None => p,
    }
}

/// The last component of a slash-separated path.
pub fn basename(p: &str) -> (r: String)
    ensures
        r@ == base(p@),
{
    let c = chars_of(p);
    basename_of(c.as_slice())
}

/// See the spec function `base`.
pub fn basename_of(c: &[char]) -> (r: String)
    ensures
        r@ == base(c@),
{
    match rcut_once(c, Class::Is('/')) {
        Some(q) => string_of(q.1),
        None => string_of(c),
    }
}

// ---------- addresses ----------

/// The host and the port of "1.2.3.4:80", "[::]:443" or "*:22".
pub open spec fn host_port(s: Seq<char>) -> Option<(Seq<char>, int)> {
    let cut = if s.len() > 0 && s[0] == '[' {
        let rest = s.subrange(1, s.len() as int);
        let close = text::next_in(rest, Class::Is(']'), 0);
        if close + 1 < rest.len() && rest[close + 1] == ':' {
            Some((rest.subrange(0, close), rest.subrange(close + 2, rest.len() as int)))
        } else {
            None
        }
    } else {
        text::rsplit_once(s, Class::Is(':'))
    };
    match cut {
        Some(p) => match num::parse_unsigned(p.1, 10, u16::MAX as int) {
            Some(port) => Some((p.0, port)),
            None => None,
        },
        None => None,
    }
}

/// What a host and port show.
pub open spec fn host_port_view(r: Option<(String, u16)>) -> Option<(Seq<char>, int)> {
    match r {
        Some(p) => Some((p.0@, p.1 as int)),
        None => None,
    }
}

/// "1.2.3.4:80", "[::]:443", "*:22" to (addr, port).
pub fn split_host_port(s: &str) -> (r: Option<(String, u16)>)
    ensures
        host_port_view(r) == host_port(s@),
{
    let c = chars_of(s);
    host_port_of(c.as_slice())
}

/// See the spec function `host_port`.
pub fn host_port_of(s: &[char]) -> (r: Option<(String, u16)>)
    ensures
        host_port_view(r) == host_port(s@),
{
    if s.len() > 0 && s[0] == '[' {
        let rest = slice_subrange(s, 1, s.len());
        let close = find_in(rest, Class::Is(']'), 0);
        let n: usize = rest.len();
        if close < n && close + 1 < n && rest[close + 1] == ':' {
            match parse_u16(slice_subrange(rest, close + 2, n)) {
                Some(port) => Some((string_of(slice_subrange(rest, 0, close)), port)),
                None => None,
            }
        } else {
            None
        }
    } else {
        match rcut_once(s, Class::Is(':')) {
            Some((h, p)) => match parse_u16(p) {
                Some(port) => Some((string_of(h), port)),
                None => None,
            },
            None => None,
        }
    }
}

// ---------- users ----------

/// uid to username resolver with a lookup cache (including negative results).
pub struct Users {
    cache: HashMap<u32, Option<String>>,
}

impl View for Users {
    type V = Map<u32, Option<Seq<char>>>;

    closed spec fn view(&self) -> Map<u32, Option<Seq<char>>> {
        self.cache@.map_values(|v: Option<String>| text::opt(v))
    }
}

/// The user database after one more line of `/etc/passwd`: the first line for
/// a uid wins, and a line without a numeric third field adds nothing.
pub open spec fn with_passwd_line(m: Map<u32, Option<Seq<char>>>, line: Seq<char>) -> Map<
    u32,
    Option<Seq<char>>,
> {
    let f = text::split(line, Class::Is(':'));
    if f.len() >= 3 {
        match num::parse_unsigned(f[2], 10, u32::MAX as int) {
            Some(uid) => if m.contains_key(uid as u32) {
                m
            } else {
                m.insert(uid as u32, Some(f[0]))
            },
            None => m,
        }
    } else {
        m
    }
}

/// The user database of the first `n` lines.
pub open spec fn passwd_map(ls: Seq<Seq<char>>, n: int) -> Map<u32, Option<Seq<char>>>
    decreases n,
{
    if n <= 0 {
        Map::empty()
    } else {
        with_passwd_line(passwd_map(ls, n - 1), ls[n - 1])
    }
}

/// The name that `id -un` printed: its text without white space around it,
/// none when nothing is left or the command failed.
pub open spec fn id_name(out: Option<Seq<char>>) -> Option<Seq<char>> {
    match out {
        Some(t) => if text::trim(t, Class::White).len() > 0 {
            Some(text::trim(t, Class::White))
        } else {
            None
        },
        None => None,
    }
}

/// What an optional string slice shows.
pub open spec fn opt_str(o: Option<&str>) -> Option<Seq<char>> {
    match o {
        Some(t) => Some(t@),
        None => None,
    }
}

/// The name for `uid`: the cached answer, or else what `id` printed.
pub open spec fn user_name(
    m: Map<u32, Option<Seq<char>>>,
    uid: u32,
    out: Option<Seq<char>>,
) -> Option<Seq<char>> {
    if m.contains_key(uid) {
        m[uid]
    } else {
        id_name(out)
    }
}

impl Users {
    /// An empty cache.
    pub fn new() -> (r: Users)
        ensures
            r@ == Map::<u32, Option<Seq<char>>>::empty(),
    {
        let r = Users { cache: HashMap::new() };
        assert(r@ =~= Map::<u32, Option<Seq<char>>>::empty());
        r
    }

    fn put(&mut self, uid: u32, name: Option<String>)
        ensures
            final(self)@ == old(self)@.insert(uid, text::opt(name)),
    {
        broadcast use vstd::std_specs::hash::group_hash_axioms;

        self.cache.insert(uid, name);
        assert(self@ =~= old(self)@.insert(uid, text::opt(name)));
    }

    /// Whether the cache holds an answer, positive or negative.
    pub fn knows(&self, uid: u32) -> (r: bool)
        ensures
            r == self@.contains_key(uid),
    {
        broadcast use vstd::std_specs::hash::group_hash_axioms;

        self.cache.contains_key(&uid)
    }

    /// Seed the cache from the text of `/etc/passwd`.
    pub fn load(passwd: &str) -> (r: Users)
        ensures
            r@ == passwd_map(text::lines(passwd@), text::lines(passwd@).len() as int),
    {
        let c = chars_of(passwd);
        let ls = lines_of(c.as_slice());
        let ghost all = text::lines(passwd@);
        assert(text::pieces(ls@).len() == ls@.len());
        let mut users = Users::new();
        let mut i: usize = 0;
        while i < ls.len()
            invariant
                text::pieces(ls@) == all,
                all.len() == ls@.len(),
                i <= ls@.len(),
                users@ == passwd_map(all, i as int),
            decreases ls@.len() - i,
        {
            let line = ls[i];
            assert(line@ == all[i as int]);
            let f = cut_at(line, Class::Is(':'));
            assert(text::pieces(f@).len() == f@.len());
            if f.len() >= 3 {
                assert(text::pieces(f@)[2] == f@[2]@);
                assert(text::pieces(f@)[0] == f@[0]@);
                match parse_u32(f[2]) {
                    Some(uid) => {
                        if !users.knows(uid) {
                            users.put(uid, Some(string_of(f[0])));
                        }
                    },
                    None => {},
                }
            }
            i += 1;
        }
        users
    }

    /// The name for `uid`: the cached answer, or else what `id_output`, the
    /// output of `id -un`, says, which is cached from then on. A caller runs
    /// `id` only where `knows` says no.
    pub fn name_for(&mut self, uid: u32, id_output: Option<&str>) -> (r: Option<String>)
        ensures
            text::opt(r) == user_name(old(self)@, uid, opt_str(id_output)),
            final(self)@ == old(self)@.insert(uid, text::opt(r)),
    {
        broadcast use vstd::std_specs::hash::group_hash_axioms;

        match self.cache.get(&uid) {
            Some(hit) => {
                let r = opt_copy(hit);
                assert(self@.insert(uid, text::opt(r)) =~= self@);
                return r;
            },
            None => {},
        }
        let resolved: Option<String> = match id_output {
            Some(t) => {
                let c = chars_of(t);
                let name = cut(c.as_slice(), Class::White);
                if name.len() > 0 {
                    Some(string_of(name))
                } else {
                    None
                }
            },
            None => None,
        };
        self.put(uid, opt_copy(&resolved));
        resolved
    }
}

/// Once a uid has been asked for, the answer stays: asking again gives the
/// same name, whatever `id` would print by now, and changes nothing.
pub proof fn cached_name_stays(
    m: Map<u32, Option<Seq<char>>>,
    uid: u32,
    out: Option<Seq<char>>,
    later: Option<Seq<char>>,
)
    ensures
        ({
            let name = user_name(m, uid, out);
            let after = m.insert(uid, name);
            &&& user_name(after, uid, later) == name
            &&& after.insert(uid, user_name(after, uid, later)) == after
        }),
{
    let name = user_name(m, uid, out);
    let after = m.insert(uid, name);
    assert(after.insert(uid, name) =~= after);
}

// ---------- the clipboard ----------

/// The programs that copy their input to the clipboard, each with its
/// arguments, in the order in which they are tried.
pub open spec fn copy_tools(os: Os) -> Seq<Seq<Seq<char>>> {
    match os {
        Os::MacOs => seq![seq!["pbcopy"@]],
        Os::Windows => seq![seq!["clip"@]],
        Os::Linux => seq![seq!["wl-copy"@], seq!["xclip"@, "-selection"@, "clipboard"@]],
    }
}

/// The programs that copy their input to the clipboard (pbcopy on macOS,
/// wl-copy/xclip on Linux, clip on Windows), each with its arguments.
pub fn clipboard_tools(os: Os) -> (r: Vec<Vec<String>>)
    ensures
        r@.len() == copy_tools(os).len(),
        forall|i: int| 0 <= i < r@.len() ==> text::texts((#[trigger] r@[i])@) == copy_tools(os)[i],
{
    match os {
        Os::MacOs => {
            let tool = vec![text("pbcopy")];
            assert(text::texts(tool@) =~= seq!["pbcopy"@]);
            vec![tool]
        },
        Os::Windows => {
            let tool = vec![text("clip")];
            assert(text::texts(tool@) =~= seq!["clip"@]);
            vec![tool]
        },
        Os::Linux => {
            let first = vec![text("wl-copy")];
            let second = vec![text("xclip"), text("-selection"), text("clipboard")];
            assert(text::texts(first@) =~= seq!["wl-copy"@]);
            assert(text::texts(second@) =~= seq!["xclip"@, "-selection"@, "clipboard"@]);
            vec![first, second]
        },
    }
}

/// What copying came to: the number of bytes once a tool has taken them all,
/// and otherwise that no tool did. `taken` tells of each tool tried whether it
/// took the text.
pub fn clipboard_outcome(taken: &Vec<bool>, bytes: usize) -> (r: Result<usize, String>)
    ensures
        (exists|i: int| 0 <= i < taken@.len() && #[trigger] taken@[i]) ==> r == Ok::<
            usize,
            String,
        >(bytes),
        (forall|i: int| 0 <= i < taken@.len() ==> !#[trigger] taken@[i]) ==> (r matches Err(e)
            && e@ == "no clipboard tool found (pbcopy / wl-copy / xclip / clip)"@),
{
    let mut i: usize = 0;
    while i < taken.len()
        invariant
            i <= taken@.len(),
            forall|j: int| 0 <= j < i ==> !#[trigger] taken@[j],
        decreases taken@.len() - i,
    {
        if taken[i] {
            return Ok(bytes);
        }
        i += 1;
    }
    Err(text("no clipboard tool found (pbcopy / wl-copy / xclip / clip)"))
}

/// A host and a port with a colon between them are read as they stand, also
/// where the host stands in brackets; without a colon there is no port.
pub proof fn host_and_port_are_read(h: Seq<char>, port: u16)
    ensures
        (h.len() == 0 || h[0] != '[') ==> host_port(h + seq![':'] + num::dec(port as int)) == Some(
            (h, port as int),
        ),
        !h.contains(']') ==> host_port(seq!['['] + h + seq![']', ':'] + num::dec(port as int))
            == Some((h, port as int)),
        !h.contains(':') ==> host_port(h) is None,
{
    let p = num::dec(port as int);
    num::printed_natural_is_digits(port as int);
    num::printed_natural_reads_back(port as int, u16::MAX as int);
    let plain = h + seq![':'] + p;
    assert forall|j: int| 0 <= j < p.len() implies !Class::Is(':').holds(#[trigger] p[j]) by {
    }
    text::rcut_once_is_at_the_last(h, ':', p, Class::Is(':'));
    assert(h.len() > 0 ==> plain[0] == h[0]);
    let s = seq!['['] + h + seq![']', ':'] + p;
    let rest = s.subrange(1, s.len() as int);
    if !h.contains(']') {
        assert(rest =~= h + seq![']'] + (seq![':'] + p));
        assert forall|j: int| 0 <= j < h.len() implies !Class::Is(']').holds(#[trigger] h[j]) by {
        }
        text::next_in_is_where(h, ']', seq![':'] + p, Class::Is(']'), 0);
        assert(rest.subrange(0, h.len() as int) =~= h);
        assert(rest.subrange(h.len() as int + 2, rest.len() as int) =~= p);
        assert(s[0] == '[');
    }
    if !h.contains(':') {
        text::last_in_is_last(h, Class::Is(':'), h.len() as int);
        if h.len() > 0 && h[0] == '[' {
            let r = h.subrange(1, h.len() as int);
            text::next_in_is_first(r, Class::Is(']'), 0);
            let c = text::next_in(r, Class::Is(']'), 0);
            if c + 1 < r.len() {
                assert(r[c + 1] == h[c + 2]);
            }
        }
    }
}

/// The last component is what stands behind the last slash, or the whole where
/// there is none.
pub proof fn base_is_behind_the_last_slash(a: Seq<char>, b: Seq<char>)
    requires
        !b.contains('/'),
    ensures
        base(a + seq!['/'] + b) == b,
        base(b) == b,
{
    assert forall|j: int| 0 <= j < b.len() implies !Class::Is('/').holds(#[trigger] b[j]) by {
    }
    text::rcut_once_is_at_the_last(a, '/', b, Class::Is('/'));
    text::last_in_is_last(b, Class::Is('/'), b.len() as int);
}

proof fn colons_cut(a: Seq<char>, b: Seq<char>, c: Seq<char>)
    requires
        !a.contains(':'),
        !b.contains(':'),
        !c.contains(':'),
    ensures
        text::split(a, Class::Is(':')) == seq![a],
        text::split(a + seq![':'] + b, Class::Is(':')) == seq![a, b],
        text::split(a + seq![':'] + b + seq![':'] + c, Class::Is(':')) == seq![a, b, c],
{
    let k = Class::Is(':');
    assert forall|j: int| 0 <= j < a.len() implies !k.holds(#[trigger] a[j]) by {
    }
    assert forall|j: int| 0 <= j < b.len() implies !k.holds(#[trigger] b[j]) by {
    }
    assert forall|j: int| 0 <= j < c.len() implies !k.holds(#[trigger] c[j]) by {
    }
    text::uncut_is_one_piece(a, k);
    text::uncut_is_one_piece(b, k);
    text::uncut_is_one_piece(c, k);
    text::first_piece_ends_at_the_cut(a, ':', b, k);
    text::first_piece_ends_at_the_cut(b, ':', c, k);
    text::first_piece_ends_at_the_cut(a, ':', b + seq![':'] + c, k);
    assert(a + seq![':'] + b + seq![':'] + c =~= a + seq![':'] + (b + seq![':'] + c));
    assert(seq![a] + seq![b] =~= seq![a, b]);
    assert(seq![a] + (seq![b] + seq![c]) =~= seq![a, b, c]);
}

/// An elapsed time counts days, hours, minutes and seconds from the back: a
/// day has 24 hours, an hour 60 minutes, a minute 60 seconds. Days stand with
/// all three others.
pub proof fn elapsed_time_is_read(
    dt: Seq<char>,
    ht: Seq<char>,
    mt: Seq<char>,
    st: Seq<char>,
    d: int,
    h: int,
    m: int,
    s: int,
)
    requires
        forall|c: char|
            c == ':' || c == '-' ==> !dt.contains(c) && !ht.contains(c) && !mt.contains(c)
                && !#[trigger] st.contains(c),
        num::parse_signed(dt, i64::MIN as int, i64::MAX as int) == Some(d),
        num::parse_signed(ht, i64::MIN as int, i64::MAX as int) == Some(h),
        num::parse_signed(mt, i64::MIN as int, i64::MAX as int) == Some(m),
        num::parse_signed(st, i64::MIN as int, i64::MAX as int) == Some(s),
        0 <= d && 0 <= h && 0 <= m && 0 <= s,
        ((d * 24 + h) * 60 + m) * 60 + s <= i64::MAX,
    ensures
        etime_secs(dt + seq!['-'] + (ht + seq![':'] + mt + seq![':'] + st)) == Some(
            ((d * 24 + h) * 60 + m) * 60 + s,
        ),
        etime_secs(ht + seq![':'] + mt + seq![':'] + st) == Some((h * 60 + m) * 60 + s),
        etime_secs(mt + seq![':'] + st) == Some(m * 60 + s),
        etime_secs(st) == Some(s),
{
    let k = Class::Is('-');
    let long = ht + seq![':'] + mt + seq![':'] + st;
    let short = mt + seq![':'] + st;
    assert(!st.contains(':') && !st.contains('-'));
    colons_cut(ht, mt, st);
    colons_cut(mt, st, st);
    colons_cut(st, st, st);
    assert forall|j: int| 0 <= j < dt.len() implies !k.holds(#[trigger] dt[j]) by {
        assert(dt.contains(dt[j]));
    }
    assert forall|j: int| 0 <= j < long.len() implies !k.holds(#[trigger] long[j]) by {
        let h1 = ht.len() as int;
        let m1 = mt.len() as int;
        if j < h1 {
            assert(ht.contains(ht[j]));
        } else if h1 < j < h1 + 1 + m1 {
            assert(mt.contains(mt[j - h1 - 1]));
        } else if j > h1 + 1 + m1 {
            assert(st.contains(st[j - h1 - m1 - 2]));
        }
    }
    assert forall|j: int| 0 <= j < short.len() implies !k.holds(#[trigger] short[j]) by {
        if j < mt.len() {
            assert(mt.contains(mt[j]));
        } else if j > mt.len() {
            assert(st.contains(st[j - mt.len() - 1]));
        }
    }
    assert forall|j: int| 0 <= j < st.len() implies !k.holds(#[trigger] st[j]) by {
        assert(st.contains(st[j]));
    }
    text::cut_once_is_at_the_first(dt, '-', long, k);
    text::cut_once_is_at_the_first(long, '-', long, k);
    text::cut_once_is_at_the_first(short, '-', long, k);
    text::cut_once_is_at_the_first(st, '-', long, k);
    assert(all_numbers(seq![ht, mt, st]));
    assert(all_numbers(seq![mt, st]));
    assert(all_numbers(seq![st]));
}

/// A duration is told in its two largest units: days and hours, hours and
/// minutes, minutes and seconds, or seconds alone; less than nothing is told
/// as nothing.
pub proof fn age_is_told_in_two_units(d: int, h: int, m: int, s: int)
    requires
        0 <= d,
        0 <= h < 24,
        0 <= m < 60,
        0 <= s < 60,
    ensures
        d > 0 ==> age_text(((d * 24 + h) * 60 + m) * 60 + s) == num::dec(d) + "d "@ + num::dec(h)
            + "h"@,
        h > 0 ==> age_text((h * 60 + m) * 60 + s) == num::dec(h) + "h "@ + num::dec(m) + "m"@,
        m > 0 ==> age_text(m * 60 + s) == num::dec(m) + "m "@ + num::dec(s) + "s"@,
        age_text(s) == num::dec(s) + "s"@,
        age_text(-s) == if s == 0 {
            age_text(s)
        } else {
            num::dec(0) + "s"@
        },
{
}

/// A point in time is written as its date and its time of day.
pub proof fn time_is_written_in_parts(y: int, mo: int, d: int, h: int, m: int, s: int)
    requires
        calendar::is_date(y, mo, d),
        0 <= h < 24,
        0 <= m < 60,
        0 <= s < 60,
    ensures
        time_text(((calendar::day_number(y, mo, d) * 24 + h) * 60 + m) * 60 + s) == num::zero_pad(
            y,
            4,
        ) + "-"@ + num::zero_pad(mo, 2) + "-"@ + num::zero_pad(d, 2) + " "@ + num::zero_pad(h, 2)
            + ":"@ + num::zero_pad(m, 2) + ":"@ + num::zero_pad(s, 2),
{
    calendar::civil_undoes_day_number(y, mo, d);
    clock_parts(calendar::day_number(y, mo, d), h, m, s);
}

proof fn clock_parts(n: int, h: int, m: int, s: int)
    requires
        0 <= h < 24,
        0 <= m < 60,
        0 <= s < 60,
    ensures
        ({
            let t = ((n * 24 + h) * 60 + m) * 60 + s;
            &&& t / 86_400 == n
            &&& (t % 86_400) / 3600 == h
            &&& ((t % 86_400) % 3600) / 60 == m
            &&& (t % 86_400) % 60 == s
        }),
{
    let t = ((n * 24 + h) * 60 + m) * 60 + s;
    assert(t == n * 86_400 + ((h * 60 + m) * 60 + s));
    assert(t % 86_400 == (h * 60 + m) * 60 + s);
}

/// A zone lies as many hours and minutes from UTC as it says, to the east with
/// a plus and to the west with a minus, whatever white space is around it.
pub proof fn zone_is_hours_and_minutes(a: Seq<char>, h: int, m: int, b: Seq<char>)
    requires
        0 <= h <= 99,
        0 <= m <= 99,
        forall|j: int| 0 <= j < a.len() ==> text::is_white(#[trigger] a[j]),
        forall|j: int| 0 <= j < b.len() ==> text::is_white(#[trigger] b[j]),
    ensures
        utc_offset(a + (seq!['+'] + num::zero_pad(h, 2) + num::zero_pad(m, 2)) + b) == (h * 60 + m)
            * 60,
        utc_offset(a + (seq!['-'] + num::zero_pad(h, 2) + num::zero_pad(m, 2)) + b) == -((h * 60
            + m) * 60),
{
    two_places(h);
    two_places(m);
    zone_with_sign(a, '+', h, m, b);
    zone_with_sign(a, '-', h, m, b);
}

proof fn two_places(n: int)
    requires
        0 <= n <= 99,
    ensures
        num::zero_pad(n, 2).len() == 2,
        num::parse_signed(num::zero_pad(n, 2), i64::MIN as int, i64::MAX as int) == Some(n),
        '0' <= num::zero_pad(n, 2)[0] <= '9',
        '0' <= num::zero_pad(n, 2)[1] <= '9',
{
    num::zero_padded_reads_back(n, 2, i64::MAX as int);
    reveal_with_fuel(num::nat_text, 3);
    assert(num::dec(n).len() <= 2);
    assert(num::zero_pad(n, 2)[0] != '-');
}

proof fn zone_with_sign(a: Seq<char>, sign: char, h: int, m: int, b: Seq<char>)
    requires
        0 <= h <= 99,
        0 <= m <= 99,
        sign == '+' || sign == '-',
        forall|j: int| 0 <= j < a.len() ==> text::is_white(#[trigger] a[j]),
        forall|j: int| 0 <= j < b.len() ==> text::is_white(#[trigger] b[j]),
    ensures
        utc_offset(a + (seq![sign] + num::zero_pad(h, 2) + num::zero_pad(m, 2)) + b) == if sign
            == '-' {
            -((h * 60 + m) * 60)
        } else {
            (h * 60 + m) * 60
        },
{
    two_places(h);
    two_places(m);
    let t = seq![sign] + num::zero_pad(h, 2) + num::zero_pad(m, 2);
    assert(t.last() == num::zero_pad(m, 2)[1]);
    text::trimming_takes_the_ends(a, t, b, Class::White);
    assert(t.subrange(1, 3) =~= num::zero_pad(h, 2));
    assert(t.subrange(3, 5) =~= num::zero_pad(m, 2));
}

/// The difference of two times is what it is, as far as it fits.
pub proof fn elapsed_is_the_difference(now: i64, then: i64)
    ensures
        elapsed(now as int, then as int) + then == now || elapsed(now as int, then as int)
            == i64::MAX && now - then > i64::MAX || elapsed(now as int, then as int) == i64::MIN
            && now - then < i64::MIN,
        elapsed(now as int, now as int) == 0,
{
}

/// A line of the user database names the user of its uid, unless an earlier
/// line did; a line with fewer fields, or without a number in the third, says
/// nothing.
pub proof fn first_line_of_a_uid_names_the_user(
    ls: Seq<Seq<char>>,
    name: Seq<char>,
    pw: Seq<char>,
    uid: u32,
    rest: Seq<char>,
)
    requires
        !name.contains(':'),
        !pw.contains(':'),
    ensures
        ({
            let before = passwd_map(ls, ls.len() as int);
            let line = name + seq![':'] + (pw + seq![':'] + (num::dec(uid as int) + seq![':']
                + rest));
            passwd_map(ls.push(line), ls.len() as int + 1) == if before.contains_key(uid) {
                before
            } else {
                before.insert(uid, Some(name))
            }
        }),
        passwd_map(ls.push(name + seq![':'] + pw), ls.len() as int + 1) == passwd_map(
            ls,
            ls.len() as int,
        ),
        passwd_map(ls, 0) == Map::<u32, Option<Seq<char>>>::empty(),
{
    let k = Class::Is(':');
    let u = num::dec(uid as int);
    num::printed_natural_is_digits(uid as int);
    num::printed_natural_reads_back(uid as int, u32::MAX as int);
    assert forall|j: int| 0 <= j < name.len() implies !k.holds(#[trigger] name[j]) by {
    }
    assert forall|j: int| 0 <= j < pw.len() implies !k.holds(#[trigger] pw[j]) by {
    }
    assert forall|j: int| 0 <= j < u.len() implies !k.holds(#[trigger] u[j]) by {
    }
    text::first_piece_ends_at_the_cut(u, ':', rest, k);
    text::first_piece_ends_at_the_cut(pw, ':', u + seq![':'] + rest, k);
    text::first_piece_ends_at_the_cut(name, ':', pw + seq![':'] + (u + seq![':'] + rest), k);
    let line = name + seq![':'] + (pw + seq![':'] + (u + seq![':'] + rest));
    let f = text::split(line, k);
    assert(f == seq![name] + (seq![pw] + (seq![u] + text::split(rest, k))));
    assert(f[0] == name && f[2] == u && f.len() >= 3);
    colons_cut(name, pw, pw);
    passwd_prefix(ls, line, ls.len() as int);
    passwd_prefix(ls, name + seq![':'] + pw, ls.len() as int);
}

proof fn passwd_prefix(ls: Seq<Seq<char>>, line: Seq<char>, n: int)
    requires
        n <= ls.len(),
    ensures
        passwd_map(ls.push(line), n) == passwd_map(ls, n),
    decreases n,
{
    if n > 0 {
        passwd_prefix(ls, line, n - 1);
    }
}

/// A user is called what the database says, also where it says that there is
/// none; otherwise what `id` printed, without the white space around it.
pub proof fn user_is_called_so(
    m: Map<u32, Option<Seq<char>>>,
    uid: u32,
    a: Seq<char>,
    name: Seq<char>,
    b: Seq<char>,
)
    requires
        name.len() > 0,
        !text::is_white(name[0]),
        !text::is_white(name.last()),
        forall|j: int| 0 <= j < a.len() ==> text::is_white(#[trigger] a[j]),
        forall|j: int| 0 <= j < b.len() ==> text::is_white(#[trigger] b[j]),
    ensures
        m.contains_key(uid) ==> user_name(m, uid, Some(a + name + b)) == m[uid],
        !m.contains_key(uid) ==> user_name(m, uid, Some(a + name + b)) == Some(name),
        !m.contains_key(uid) ==> user_name(m, uid, Some(a)) is None,
        !m.contains_key(uid) ==> user_name(m, uid, None) is None,
{
    text::trimming_takes_the_ends(a, name, b, Class::White);
    text::end_out_is_last(a, Class::White, a.len() as int);
    text::next_out_is_first(a, Class::White, 0);
}

} // verus!
