//! Risk scoring: aggregate the "something is off about this process"
//! signals into one 0-10 score. Deliberately heuristic: every signal is
//! also reported verbatim so the score never hides its reasoning.

use vstd::prelude::*;
use vstd::slice::slice_subrange;
use vstd::string::*;

use crate::model::{Process, Socket};
use crate::num::{parse_hex_u16, parse_u32, parse_u8};
use crate::text::{
    at, begins, chars_of, copy_texts, cut_at, cut_once, cut_once_str, cut_start, find_in, find_sub,
    has, holds_str, lower_of, same, same_str_nocase, string_of, text, Class,
};
use crate::model;
use crate::model::{ProcessView, SocketView};
use crate::num;
use crate::text;

verus! {

pub const MAX_SCORE: u8 = 10;

#[derive(Debug)]
pub struct Risk {
    /// 0-10; each contributing signal has a weight (3/4 for strong
    /// indicators, 1-2 for context).
    pub score: u8,
    pub signals: Vec<String>,
}

/// What a [`Risk`] shows.
#[verifier::ext_equal]
pub struct RiskView {
    pub score: u8,
    pub signals: Seq<Seq<char>>,
}

impl View for Risk {
    type V = RiskView;

    open spec fn view(&self) -> RiskView {
        RiskView { score: self.score, signals: text::texts(self.signals@) }
    }
}

impl Clone for Risk {
    fn clone(&self) -> (r: Risk)
        ensures
            r@ == self@,
    {
        Risk { score: self.score, signals: copy_texts(&self.signals) }
    }
}

// ---------- the signals ----------

/// Whether a path lies in a directory for temporary files.
pub open spec fn temp_path(path: Seq<char>) -> bool {
    let p = text::lower(path);
    // macOS resolves /tmp to /private/tmp
    ||| text::starts_with(p, "/tmp/"@)
    ||| text::starts_with(p, "/private/tmp/"@)
    ||| text::starts_with(p, "/var/tmp/"@)
    ||| text::starts_with(p, "/private/var/tmp/"@)
    ||| text::starts_with(p, "/dev/shm/"@)
    ||| text::starts_with(p, "\\temp\\"@)
    ||| text::contains(p, "\\appdata\\local\\temp\\"@)
}

/// See the spec function `temp_path`.
pub fn is_temp_path(path: &str) -> (r: bool)
    ensures
        r == temp_path(path@),
{
    let c = chars_of(path);
    let p = lower_of(c.as_slice());
    let p = p.as_slice();
    begins(p, "/tmp/") || begins(p, "/private/tmp/") || begins(p, "/var/tmp/") || begins(
        p,
        "/private/var/tmp/",
    ) || begins(p, "/dev/shm/") || begins(p, "\\temp\\") || holds_str(
        p,
        "\\appdata\\local\\temp\\",
    )
}

/// A path with slashes for backslashes.
pub open spec fn slashed(path: Seq<char>) -> Seq<char> {
    Seq::new(
        path.len(),
        |i: int|
            if path[i] == '\\' {
                '/'
            } else {
                path[i]
            },
    )
}

/// The path component behind the first occurrence of `marker`.
pub open spec fn behind(p: Seq<char>, marker: Seq<char>) -> Option<Seq<char>> {
    match text::find_from(p, marker, 0) {
        Some(i) => {
            let rest = p.subrange(i + marker.len(), p.len() as int);
            Some(rest.subrange(0, text::next_in(rest, Class::Is('/'), 0)))
        },
        None => None,
    }
}

/// The first component below the temporary directory; empty when the path
/// names none of the known ones.
pub open spec fn component(path: Seq<char>) -> Seq<char> {
    let p = slashed(path);
    if let Some(c) = behind(p, "/tmp/"@) {
        c
    } else if let Some(c) = behind(p, "/private/tmp/"@) {
        c
    } else if let Some(c) = behind(p, "/var/tmp/"@) {
        c
    } else if let Some(c) = behind(p, "/private/var/tmp/"@) {
        c
    } else if let Some(c) = behind(p, "/dev/shm/"@) {
        c
    } else {
        seq![]
    }
}

fn component_behind(p: &[char], marker: &str) -> (r: Option<String>)
    ensures
        crate::text::opt(r) == behind(p@, marker@),
{
    let m = chars_of(marker);
    let n: usize = p.len();
    match find_sub(p, m.as_slice(), 0) {
        Some(i) => {
            let rest = slice_subrange(p, i + m.len(), n);
            let j = find_in(rest, Class::Is('/'), 0);
            Some(string_of(slice_subrange(rest, 0, j)))
        },
        None => None,
    }
}

/// See the spec function `component`.
pub fn temp_component(path: &str) -> (r: String)
    ensures
        r@ == component(path@),
{
    let c = chars_of(path);
    let mut p: Vec<char> = Vec::new();
    let mut i: usize = 0;
    while i < c.len()
        invariant
            c@ == path@,
            i <= c@.len(),
            p@.len() == i,
            forall|j: int| 0 <= j < i ==> p@[j] == slashed(path@)[j],
        decreases c@.len() - i,
    {
        p.push(
            if c[i] == '\\' {
                '/'
            } else {
                c[i]
            },
        );
        i += 1;
    }
    assert(p@ =~= slashed(path@));
    let p = p.as_slice();
    if let Some(c) = component_behind(p, "/tmp/") {
        c
    } else if let Some(c) = component_behind(p, "/private/tmp/") {
        c
    } else if let Some(c) = component_behind(p, "/var/tmp/") {
        c
    } else if let Some(c) = component_behind(p, "/private/var/tmp/") {
        c
    } else if let Some(c) = component_behind(p, "/dev/shm/") {
        c
    } else {
        String::new()
    }
}

/// Whether the name of a command may go on with `c`.
pub open spec fn in_name(c: char) -> bool {
    ||| 'a' <= c <= 'z'
    ||| 'A' <= c <= 'Z'
    ||| '0' <= c <= '9'
    ||| c == '_'
    ||| c == '-'
    ||| c >= '\u{80}'
}

/// Whether `p` occurs at `i` and the word that it ends with is over behind it.
pub open spec fn ends_a_word(s: Seq<char>, p: Seq<char>, i: int) -> bool {
    text::occurs_at(s, p, i) && (i + p.len() == s.len() || !in_name(s[i + p.len()]))
}

/// Whether `p` stands somewhere in `s` with its last word whole.
pub open spec fn holds_words(s: Seq<char>, p: Seq<char>) -> bool {
    exists|i: int| ends_a_word(s, p, i)
}

/// Whether a command line pipes something into a shell.
pub open spec fn pipes(cmd: Seq<char>) -> bool {
    let c = text::lower(cmd);
    ||| holds_words(c, "| sh"@)
    ||| holds_words(c, "|sh"@)
    ||| holds_words(c, "| bash"@)
    ||| holds_words(c, "|bash"@)
    ||| holds_words(c, "| sudo sh"@)
    ||| holds_words(c, "| sudo bash"@)
    ||| holds_words(c, "| zsh"@)
    ||| holds_words(c, "|zsh"@)
}

fn is_in_name(c: char) -> (r: bool)
    ensures
        r == in_name(c),
{
    (c >= 'a' && c <= 'z') || (c >= 'A' && c <= 'Z') || (c >= '0' && c <= '9') || c == '_' || c
        == '-' || c >= '\u{80}'
}

fn has_words(s: &[char], p: &str) -> (r: bool)
    ensures
        r == holds_words(s@, p@),
{
    let q = chars_of(p);
    let n: usize = q.len();
    if n == 0 {
        assert(s@.subrange(s@.len() as int, s@.len() as int) =~= p@);
        assert(ends_a_word(s@, p@, s@.len() as int));
        return true;
    }
    let mut i: usize = 0;
    while i < s.len() && n <= s.len() - i
        invariant
            q@ == p@,
            n == q@.len(),
            n > 0,
            i <= s@.len(),
            forall|j: int| 0 <= j < i ==> !ends_a_word(s@, p@, j),
        decreases s@.len() - i,
    {
        if at(s, q.as_slice(), i) && (i + n == s.len() || !is_in_name(s[i + n])) {
            assert(ends_a_word(s@, p@, i as int));
            return true;
        }
        i += 1;
    }
    assert forall|j: int| !ends_a_word(s@, p@, j) by {
        if ends_a_word(s@, p@, j) {
            assert(0 <= j && j + p@.len() <= s@.len());
        }
    }
    false
}

/// See the spec function `pipes`.
pub fn pipes_into_shell(cmd: &str) -> (r: bool)
    ensures
        r == pipes(cmd@),
{
    let q = chars_of(cmd);
    let c = lower_of(q.as_slice());
    let c = c.as_slice();
    has_words(c, "| sh") || has_words(c, "|sh") || has_words(c, "| bash") || has_words(c, "|bash")
        || has_words(c, "| sudo sh") || has_words(c, "| sudo bash") || has_words(c, "| zsh")
        || has_words(c, "|zsh")
}

/// The parts among the first `n` that are numbers.
pub open spec fn numbers(parts: Seq<Seq<char>>, n: int) -> Seq<int>
    decreases n,
{
    if n <= 0 {
        seq![]
    } else {
        match num::parse_unsigned(parts[n - 1], 10, u32::MAX as int) {
            Some(v) => numbers(parts, n - 1).push(v),
            None => numbers(parts, n - 1),
        }
    }
}

/// Whether the IPv4 addresses that begin with these two numbers are private,
/// loopback or link-local.
pub open spec fn inner_quad(a: int, b: int) -> bool {
    a == 10 || a == 127 || (a == 192 && b == 168) || (a == 172 && 16 <= b <= 31) || (a == 169 && b
        == 254)
}

/// One group of an IPv6 address: one to four hexadecimal digits.
pub open spec fn group(p: Seq<char>) -> Option<int> {
    if p.len() > 4 || (p.len() > 0 && p[0] == '+') {
        None
    } else {
        num::parse_unsigned(p, 16, u16::MAX as int)
    }
}

/// The first `n` parts as groups, if each of them is one.
pub open spec fn groups(parts: Seq<Seq<char>>, n: int) -> Option<Seq<int>>
    decreases n,
{
    if n <= 0 {
        Some(seq![])
    } else {
        match (groups(parts, n - 1), group(parts[n - 1])) {
            (Some(g), Some(v)) => Some(g.push(v)),
            _ => None,
        }
    }
}

/// The two groups that a dotted IPv4 address stands for.
pub open spec fn quad_groups(p: Seq<char>) -> Option<Seq<int>> {
    let parts = text::split(p, Class::Is('.'));
    if parts.len() != 4 {
        None
    } else {
        match (
            num::parse_unsigned(parts[0], 10, u8::MAX as int),
            num::parse_unsigned(parts[1], 10, u8::MAX as int),
            num::parse_unsigned(parts[2], 10, u8::MAX as int),
            num::parse_unsigned(parts[3], 10, u8::MAX as int),
        ) {
            (Some(a), Some(b), Some(c), Some(d)) => Some(seq![a * 256 + b, c * 256 + d]),
            _ => None,
        }
    }
}

/// The groups on one side of the `::` of an IPv6 address. The last of them may
/// be a dotted IPv4 address.
pub open spec fn side(s: Seq<char>) -> Option<Seq<int>> {
    if s.len() == 0 {
        Some(seq![])
    } else {
        let parts = text::split(s, Class::Is(':'));
        let n = parts.len() as int;
        if text::has_in(parts[n - 1], Class::Is('.')) {
            match (groups(parts, n - 1), quad_groups(parts[n - 1])) {
                (Some(g), Some(q)) => Some(g + q),
                _ => None,
            }
        } else {
            groups(parts, n)
        }
    }
}

/// So many groups of zeros.
pub open spec fn zeros(n: int) -> Seq<int> {
    Seq::new(
        if n < 0 {
            0
        } else {
            n as nat
        },
        |i: int| 0,
    )
}

/// The eight groups of an IPv6 address; a zone behind `%` is no part of it.
pub open spec fn v6_groups(a: Seq<char>) -> Option<Seq<int>> {
    let t = match text::split_once(a, Class::Is('%')) {
        Some((addr, _)) => addr,
        None => a,
    };
    match text::split_once_str(t, "::"@) {
        Some((l, r)) => match (side(l), side(r)) {
            (Some(x), Some(y)) => if x.len() + y.len() < 8 {
                Some(x + zeros(8 - x.len() - y.len()) + y)
            } else {
                None
            },
            _ => None,
        },
        None => match side(t) {
            Some(x) => if x.len() == 8 {
                Some(x)
            } else {
                None
            },
            None => None,
        },
    }
}

/// Whether the first `n` groups are zero.
pub open spec fn begins_zero(g: Seq<int>, n: int) -> bool {
    forall|i: int| 0 <= i < n ==> #[trigger] g[i] == 0
}

/// Whether an IPv6 address is public: neither unspecified (`::`), nor loopback
/// (`::1`), link-local (`fe80::/10`) or unique-local (`fc00::/7`). One that
/// stands for an IPv4 address (`::ffff:0:0/96`) is judged by that address.
pub open spec fn public_v6(g: Seq<int>) -> bool {
    if begins_zero(g, 7) && (g[7] == 0 || g[7] == 1) {
        false
    } else if begins_zero(g, 5) && g[5] == 0xffff {
        !(g[6] == 0 && g[7] == 0) && !inner_quad(g[6] / 256, g[6] % 256)
    } else {
        !(0xfe80 <= g[0] <= 0xfebf) && !(0xfc00 <= g[0] <= 0xfdff)
    }
}

/// Whether an address is public: neither unspecified, nor loopback,
/// link-local or private. An IPv4 address has four numbers; an IPv6 address
/// holds a colon.
pub open spec fn public_addr(addr: Seq<char>) -> bool {
    let a = text::trim_start(addr, Class::Is('*'));
    if a.len() == 0 || a == "0.0.0.0"@ {
        false
    } else if text::has_in(a, Class::Is(':')) {
        match v6_groups(a) {
            Some(g) => public_v6(g),
            None => false,
        }
    } else {
        let parts = text::split(a, Class::Is('.'));
        let o = numbers(parts, parts.len() as int);
        o.len() == 4 && !inner_quad(o[0], o[1])
    }
}

/// The numbers of the groups.
pub open spec fn ints(v: Seq<u16>) -> Seq<int> {
    Seq::new(v.len(), |i: int| v[i] as int)
}

/// What an optional list of groups shows.
pub open spec fn opt_ints(v: Option<Vec<u16>>) -> Option<Seq<int>> {
    match v {
        Some(g) => Some(ints(g@)),
        None => None,
    }
}

fn inner(a: u32, b: u32) -> (r: bool)
    ensures
        r == inner_quad(a as int, b as int),
{
    a == 10 || a == 127 || (a == 192 && b == 168) || (a == 172 && b >= 16 && b <= 31) || (a == 169
        && b == 254)
}

fn group_of(p: &[char]) -> (r: Option<u16>)
    ensures
        match r {
            Some(v) => group(p@) == Some(v as int),
            None => group(p@) is None,
        },
{
    if p.len() > 4 || (p.len() > 0 && p[0] == '+') {
        None
    } else {
        parse_hex_u16(p)
    }
}

fn groups_of(p: &Vec<&[char]>, n: usize) -> (r: Option<Vec<u16>>)
    requires
        n <= p@.len(),
    ensures
        opt_ints(r) == groups(text::pieces(p@), n as int),
{
    let ghost parts = text::pieces(p@);
    let mut g: Vec<u16> = Vec::new();
    let mut i: usize = 0;
    assert(ints(g@) =~= seq![]);
    while i < n
        invariant
            parts == text::pieces(p@),
            i <= n <= p@.len(),
            groups(parts, i as int) == Some(ints(g@)),
        decreases n - i,
    {
        let q = p[i];
        assert(parts[i as int] == q@);
        match group_of(q) {
            Some(v) => {
                let ghost was = ints(g@);
                g.push(v);
                assert(ints(g@) =~= was.push(v as int));
            },
            None => {
                proof {
                    no_groups(parts, i + 1, n as int);
                }
                return None;
            },
        }
        i += 1;
    }
    Some(g)
}

proof fn no_groups(parts: Seq<Seq<char>>, i: int, n: int)
    requires
        i <= n,
        groups(parts, i) is None,
    ensures
        groups(parts, n) is None,
    decreases n - i,
{
    if i < n {
        no_groups(parts, i, n - 1);
    }
}

fn quad_of(p: &[char]) -> (r: Option<Vec<u16>>)
    ensures
        opt_ints(r) == quad_groups(p@),
{
    let parts = cut_at(p, Class::Is('.'));
    let ghost all = text::split(p@, Class::Is('.'));
    assert(all.len() == parts@.len());
    if parts.len() != 4 {
        return None;
    }
    assert(all[0] == parts@[0]@ && all[1] == parts@[1]@ && all[2] == parts@[2]@ && all[3]
        == parts@[3]@);
    match (parse_u8(parts[0]), parse_u8(parts[1]), parse_u8(parts[2]), parse_u8(parts[3])) {
        (Some(a), Some(b), Some(c), Some(d)) => {
            let mut g: Vec<u16> = Vec::new();
            g.push(a as u16 * 256 + b as u16);
            g.push(c as u16 * 256 + d as u16);
            assert(ints(g@) =~= seq![a * 256 + b, c * 256 + d]);
            Some(g)
        },
        _ => None,
    }
}

fn side_of(s: &[char]) -> (r: Option<Vec<u16>>)
    ensures
        opt_ints(r) == side(s@),
{
    if s.len() == 0 {
        let g: Vec<u16> = Vec::new();
        assert(ints(g@) =~= seq![]);
        return Some(g);
    }
    let p = cut_at(s, Class::Is(':'));
    let ghost parts = text::split(s@, Class::Is(':'));
    assert(parts.len() == p@.len());
    let n: usize = p.len();
    let last = p[n - 1];
    assert(parts[n - 1] == last@);
    if has(last, Class::Is('.')) {
        match (groups_of(&p, n - 1), quad_of(last)) {
            (Some(g), Some(q)) => {
                let mut v: Vec<u16> = g;
                let ghost was = v@;
                let mut i: usize = 0;
                while i < q.len()
                    invariant
                        i <= q@.len(),
                        v@ == was + q@.subrange(0, i as int),
                    decreases q@.len() - i,
                {
                    v.push(q[i]);
                    assert(q@.subrange(0, i + 1) =~= q@.subrange(0, i as int).push(q@[i as int]));
                    i += 1;
                }
                assert(ints(v@) =~= ints(was) + ints(q@));
                Some(v)
            },
            _ => None,
        }
    } else {
        groups_of(&p, n)
    }
}

fn joined_sides(x: &Vec<u16>, y: &Vec<u16>) -> (r: Vec<u16>)
    requires
        x@.len() + y@.len() < 8,
    ensures
        ints(r@) == ints(x@) + zeros(8 - x@.len() - y@.len()) + ints(y@),
{
    let mut v: Vec<u16> = Vec::new();
    let (nx, ny): (usize, usize) = (x.len(), y.len());
    while v.len() < 8
        invariant
            nx == x@.len(),
            ny == y@.len(),
            nx + ny < 8,
            v@.len() <= 8,
            forall|j: int|
                0 <= j < v@.len() ==> #[trigger] v@[j] == if j < nx {
                    x@[j]
                } else if j < 8 - ny {
                    0u16
                } else {
                    y@[j - (8 - ny)]
                },
        decreases 8 - v@.len(),
    {
        let j: usize = v.len();
        v.push(
            if j < nx {
                x[j]
            } else if j < 8 - ny {
                0
            } else {
                y[j - (8 - ny)]
            },
        );
    }
    assert(ints(v@) =~= ints(x@) + zeros(8 - nx - ny) + ints(y@));
    v
}

fn v6_groups_of(a: &[char]) -> (r: Option<Vec<u16>>)
    ensures
        opt_ints(r) == v6_groups(a@),
        r is Some ==> r->0@.len() == 8,
{
    let t = match cut_once(a, Class::Is('%')) {
        Some((addr, _)) => addr,
        None => a,
    };
    match cut_once_str(t, "::") {
        Some((l, r)) => match (side_of(l), side_of(r)) {
            (Some(x), Some(y)) => {
                let n: usize = x.len();
                let m: usize = y.len();
                if n < 8 && m < 8 - n {
                    let v = joined_sides(&x, &y);
                    assert(ints(v@).len() == 8);
                    Some(v)
                } else {
                    None
                }
            },
            _ => None,
        },
        None => match side_of(t) {
            Some(x) => {
                if x.len() == 8 {
                    Some(x)
                } else {
                    None
                }
            },
            None => None,
        },
    }
}

fn is_public_v6(g: &Vec<u16>) -> (r: bool)
    requires
        g@.len() == 8,
    ensures
        r == public_v6(ints(g@)),
{
    let ghost all = ints(g@);
    assert(all[0] == g@[0] && all[1] == g@[1] && all[2] == g@[2] && all[3] == g@[3] && all[4]
        == g@[4] && all[5] == g@[5] && all[6] == g@[6] && all[7] == g@[7]);
    let five: bool = g[0] == 0 && g[1] == 0 && g[2] == 0 && g[3] == 0 && g[4] == 0;
    assert(five == begins_zero(all, 5));
    assert((five && g@[5] == 0 && g@[6] == 0) == begins_zero(all, 7));
    if five && g[5] == 0 && g[6] == 0 && (g[7] == 0 || g[7] == 1) {
        false
    } else if five && g[5] == 0xffff {
        !(g[6] == 0 && g[7] == 0) && !inner((g[6] / 256) as u32, (g[6] % 256) as u32)
    } else {
        !(g[0] >= 0xfe80 && g[0] <= 0xfebf) && !(g[0] >= 0xfc00 && g[0] <= 0xfdff)
    }
}

/// Heuristic public-address check: RFC1918/loopback/link-local/ULA are not
/// public; everything else numeric is.
pub fn is_public_addr(addr: &str) -> (r: bool)
    ensures
        r == public_addr(addr@),
{
    let c = chars_of(addr);
    let a = cut_start(c.as_slice(), Class::Is('*'));
    let zero = chars_of("0.0.0.0");
    if a.len() == 0 || same(a, zero.as_slice()) {
        return false;
    }
    if has(a, Class::Is(':')) {
        return match v6_groups_of(a) {
            Some(g) => is_public_v6(&g),
            None => false,
        };
    }
    let p = cut_at(a, Class::Is('.'));
    let ghost parts = text::split(a@, Class::Is('.'));
    assert(text::pieces(p@).len() == p@.len());
    let mut o: Vec<u32> = Vec::new();
    let mut i: usize = 0;
    while i < p.len()
        invariant
            text::pieces(p@) == parts,
            parts.len() == p@.len(),
            i <= p@.len(),
            o@.len() == numbers(parts, i as int).len(),
            forall|j: int| 0 <= j < o@.len() ==> o@[j] == #[trigger] numbers(parts, i as int)[j],
        decreases p@.len() - i,
    {
        let q = p[i];
        assert(q@ == parts[i as int]);
        match parse_u32(q) {
            Some(v) => o.push(v),
            None => {},
        }
        i += 1;
    }
    if o.len() != 4 {
        return false;
    }
    assert(o@[0] == numbers(parts, i as int)[0]);
    assert(o@[1] == numbers(parts, i as int)[1]);
    let a0: u32 = o[0];
    let a1: u32 = o[1];
    !inner(a0, a1)
}

/// Whether an environment variable makes the loader inject a library.
pub open spec fn injects(k: Seq<char>, v: Seq<char>) -> bool {
    (text::same_ignoring_case(k, "LD_PRELOAD"@) || text::same_ignoring_case(k, "DYLD_INSERT_LIBRARIES"@))
        && v.len() > 0
}

/// See the spec function `injects`.
pub fn is_injection(k: &str, v: &str) -> (r: bool)
    ensures
        r == injects(k@, v@),
{
    (same_str_nocase(k, "LD_PRELOAD") || same_str_nocase(k, "DYLD_INSERT_LIBRARIES"))
        && !v.is_empty()
}

/// Whether a socket is an established connection of `pid` to a public address.
pub open spec fn reaches_out(s: SocketView, pid: i32) -> bool {
    s.pid == Some(pid) && text::same_ignoring_case(s.state, "ESTABLISHED"@) && match s.peer_addr {
        Some(a) => public_addr(a),
        None => false,
    }
}

// ---------- the score ----------

/// A signal with its weight.
pub struct Finding {
    pub weight: int,
    pub signal: Seq<char>,
}

/// The signals of the first `n` environment variables.
pub open spec fn env_findings(env: Seq<(Seq<char>, Seq<char>)>, n: int) -> Seq<Finding>
    decreases n,
{
    if n <= 0 {
        seq![]
    } else if injects(env[n - 1].0, env[n - 1].1) {
        env_findings(env, n - 1).push(
            Finding {
                weight: 3,
                signal: env[n - 1].0 + " injection (="@ + env[n - 1].1 + ")"@,
            },
        )
    } else {
        env_findings(env, n - 1)
    }
}

/// Every signal that a process gives, in the order they are reported.
pub open spec fn findings(p: ProcessView, sockets: Seq<SocketView>) -> Seq<Finding> {
    let from_temp = match p.exe {
        Some(exe) => if temp_path(exe) {
            seq![
                Finding {
                    weight: 3,
                    signal: "binary runs from a temp directory ("@ + component(exe) + ")"@,
                },
            ]
        } else {
            seq![]
        },
        None => seq![],
    };
    let deleted = if p.exe_deleted {
        seq![Finding { weight: 3, signal: "binary deleted from disk while still running"@ }]
    } else {
        seq![]
    };
    let piped = if pipes(p.command()) {
        seq![Finding { weight: 4, signal: "command pipes a download straight into a shell"@ }]
    } else {
        seq![]
    };
    let injected = match p.env {
        Some(env) => env_findings(env, env.len() as int),
        None => seq![],
    };
    let external = if exists|i: int|
        0 <= i < sockets.len() && reaches_out(#[trigger] sockets[i], p.pid) {
        seq![Finding { weight: 2, signal: "established connection to a public address"@ }]
    } else {
        seq![]
    };
    from_temp + deleted + piped + injected + external
}

/// The sum of the weights.
pub open spec fn total_weight(f: Seq<Finding>) -> int
    decreases f.len(),
{
    if f.len() == 0 {
        0
    } else {
        total_weight(f.drop_last()) + f.last().weight
    }
}

/// The score and the signals of a list of findings: the sum of the weights,
/// but at most [`MAX_SCORE`].
pub open spec fn graded(f: Seq<Finding>) -> RiskView {
    RiskView {
        score: if total_weight(f) > MAX_SCORE {
            MAX_SCORE
        } else {
            total_weight(f) as u8
        },
        signals: Seq::new(f.len(), |i: int| f[i].signal),
    }
}

/// What has been found so far.
struct Tally {
    risk: Risk,
    found: Ghost<Seq<Finding>>,
}

impl Tally {
    spec fn wf(self) -> bool {
        &&& self.risk@ == graded(self.found@)
        &&& total_weight(self.found@) >= 0
    }

    fn note(&mut self, weight: u8, signal: String)
        requires
            old(self).wf(),
            weight <= 4,
        ensures
            final(self).wf(),
            final(self).found@ == old(self).found@ + seq![
                Finding { weight: weight as int, signal: signal@ },
            ],
    {
        let ghost f = Finding { weight: weight as int, signal: signal@ };
        let ghost next = self.found@.push(f);
        let sum: u8 = self.risk.score + weight;
        self.risk.score = if sum > MAX_SCORE {
            MAX_SCORE
        } else {
            sum
        };
        self.risk.signals.push(signal);
        self.found = Ghost(next);
        proof {
            assert(next =~= old(self).found@ + seq![f]);
            assert(next.drop_last() =~= old(self).found@);
            let was = old(self).risk@.signals;
            assert(was == graded(old(self).found@).signals);
            assert(self.risk@.signals == was.push(signal@)) by {
                broadcast use crate::text::group_views;

            }
            assert(was.len() == old(self).found@.len());
            assert forall|i: int| 0 <= i < next.len() implies #[trigger] self.risk@.signals[i]
                == next[i].signal by {
                if i < was.len() {
                    assert(was[i] == old(self).found@[i].signal);
                }
            }
            assert(self.risk@.signals =~= graded(next).signals);
        }
    }
}

/// The score and the signals of one process.
pub fn assess(p: &Process, sockets: &[Socket]) -> (r: Risk)
    ensures
        r@ == graded(findings(p@, text::views(sockets@))),
        r.score <= MAX_SCORE,
{
    let found: Ghost<Seq<Finding>> = Ghost(Seq::empty());
    let mut t = Tally { risk: Risk { score: 0, signals: Vec::new() }, found };
    assert(t.risk@ =~= graded(Seq::empty()));
    if let Some(exe) = &p.exe {
        if is_temp_path(exe.as_str()) {
            let mut msg = text("binary runs from a temp directory (");
            msg.append(temp_component(exe.as_str()).as_str());
            msg.append(")");
            t.note(3, msg);
        }
    }
    let ghost f1 = t.found@;
    if p.exe_deleted {
        t.note(3, text("binary deleted from disk while still running"));
    }
    let ghost f2 = t.found@;
    if pipes_into_shell(p.command_line().as_str()) {
        t.note(4, text("command pipes a download straight into a shell"));
    }
    let ghost f3 = t.found@;
    if let Some(env) = &p.env {
        let ghost all = model::vars(env@);
        let mut i: usize = 0;
        assert(f3 + env_findings(all, 0) =~= f3);
        while i < env.len()
            invariant
                t.wf(),
                all == model::vars(env@),
                i <= env@.len(),
                t.found@ == f3 + env_findings(all, i as int),
            decreases env@.len() - i,
        {
            let k = &env[i].0;
            let v = &env[i].1;
            assert(all[i as int] == (k@, v@));
            if is_injection(k.as_str(), v.as_str()) {
                let mut msg = k.clone();
                msg.append(" injection (=");
                msg.append(v.as_str());
                msg.append(")");
                t.note(3, msg);
                assert(t.found@ =~= f3 + env_findings(all, i + 1));
            }
            i += 1;
        }
    }
    let ghost f4 = t.found@;
    let mut external = false;
    let ghost socks = text::views(sockets@);
    let mut i: usize = 0;
    while i < sockets.len()
        invariant
            socks == text::views(sockets@),
            i <= sockets@.len(),
            external == exists|j: int| 0 <= j < i && reaches_out(#[trigger] socks[j], p.pid),
        decreases sockets@.len() - i,
    {
        let s = &sockets[i];
        assert(socks[i as int] == s@);
        if s.pid == Some(p.pid) && same_str_nocase(s.state.as_str(), "ESTABLISHED") {
            if let Some(a) = &s.peer_addr {
                if is_public_addr(a.as_str()) {
                    external = true;
                }
            }
        }
        i += 1;
    }
    if external {
        t.note(2, text("established connection to a public address"));
    }
    assert(t.found@ =~= findings(p@, text::views(sockets@)));
    t.risk
}

/// A score is never above ten, and it is zero exactly when nothing was found.
pub proof fn score_in_range(p: ProcessView, sockets: Seq<SocketView>)
    ensures
        graded(findings(p, sockets)).score <= MAX_SCORE,
        graded(findings(p, sockets)).score == 0 <==> findings(p, sockets).len() == 0,
        graded(findings(p, sockets)).signals.len() == findings(p, sockets).len(),
{
    let f = findings(p, sockets);
    match p.env {
        Some(env) => env_findings_weigh(env, env.len() as int),
        None => {},
    }
    assert forall|i: int| 0 <= i < f.len() implies (#[trigger] f[i]).weight > 0 by {}
    weights_add_up(f);
}

proof fn env_findings_weigh(env: Seq<(Seq<char>, Seq<char>)>, n: int)
    ensures
        forall|i: int| 0 <= i < env_findings(env, n).len() ==> (#[trigger] env_findings(
            env,
            n,
        )[i]).weight == 3,
    decreases n,
{
    if n > 0 {
        env_findings_weigh(env, n - 1);
        let f = env_findings(env, n);
        let g = env_findings(env, n - 1);
        assert forall|i: int| 0 <= i < f.len() implies (#[trigger] f[i]).weight == 3 by {
            if i < g.len() {
                assert(f[i] == g[i]);
            }
        }
    }
}

proof fn weights_add_up(f: Seq<Finding>)
    requires
        forall|i: int| 0 <= i < f.len() ==> (#[trigger] f[i]).weight > 0,
    ensures
        total_weight(f) >= f.len(),
    decreases f.len(),
{
    if f.len() > 0 {
        weights_add_up(f.drop_last());
    }
}

// ---------- laws of the addresses ----------

/// Four numbers with dots between them.
pub open spec fn quad(a: int, b: int, c: int, d: int) -> Seq<char> {
    num::dec(a) + seq!['.'] + num::dec(b) + seq!['.'] + num::dec(c) + seq!['.'] + num::dec(d)
}

proof fn quad_splits(a: int, b: int, c: int, d: int)
    requires
        a >= 0,
        b >= 0,
        c >= 0,
        d >= 0,
    ensures
        text::split(quad(a, b, c, d), Class::Is('.')) == seq![
            num::dec(a),
            num::dec(b),
            num::dec(c),
            num::dec(d),
        ],
        forall|i: int|
            0 <= i < quad(a, b, c, d).len() ==> ('0' <= #[trigger] quad(a, b, c, d)[i] <= '9'
                || quad(a, b, c, d)[i] == '.'),
        '0' <= quad(a, b, c, d)[0] <= '9',
{
    num::printed_natural_is_digits(a);
    num::printed_natural_is_digits(b);
    num::printed_natural_is_digits(c);
    num::printed_natural_is_digits(d);
    let k = Class::Is('.');
    let (ta, tb, tc, td) = (num::dec(a), num::dec(b), num::dec(c), num::dec(d));
    let s3 = td;
    let s2 = tc + seq!['.'] + td;
    let s1 = tb + seq!['.'] + s2;
    let s0 = ta + seq!['.'] + s1;
    assert(quad(a, b, c, d) =~= s0);
    text::uncut_is_one_piece(td, k);
    text::first_piece_ends_at_the_cut(tc, '.', td, k);
    text::first_piece_ends_at_the_cut(tb, '.', s2, k);
    text::first_piece_ends_at_the_cut(ta, '.', s1, k);
    assert(text::split(s0, k) =~= seq![ta, tb, tc, td]);
    assert(s0[0] == ta[0]);
}

/// Whether an IPv4 address lies in 10/8, 127/8, 192.168/16, 172.16/12 or
/// 169.254/16.
pub open spec fn is_inner(a: int, b: int) -> bool {
    ||| a == 10
    ||| a == 127
    ||| a == 192 && b == 168
    ||| a == 172 && 16 <= b < 32
    ||| a == 169 && b == 254
}

proof fn quad_numbers(a: int, b: int, c: int, d: int)
    requires
        0 <= a < 256,
        0 <= b < 256,
        0 <= c < 256,
        0 <= d < 256,
    ensures
        ({
            let parts = text::split(quad(a, b, c, d), Class::Is('.'));
            numbers(parts, parts.len() as int) == seq![a, b, c, d]
        }),
{
    quad_splits(a, b, c, d);
    let parts = text::split(quad(a, b, c, d), Class::Is('.'));
    num::printed_natural_reads_back(a, u32::MAX as int);
    num::printed_natural_reads_back(b, u32::MAX as int);
    num::printed_natural_reads_back(c, u32::MAX as int);
    num::printed_natural_reads_back(d, u32::MAX as int);
    reveal_with_fuel(numbers, 5);
    assert(parts[0] == num::dec(a) && parts[1] == num::dec(b) && parts[2] == num::dec(c)
        && parts[3] == num::dec(d));
    assert(numbers(parts, 4) =~= seq![a, b, c, d]);
}

proof fn untrimmed(s: Seq<char>)
    requires
        s.len() > 0,
        s[0] != '*',
    ensures
        text::trim_start(s, Class::Is('*')) == s,
{
    assert(text::next_out(s, Class::Is('*'), 0) == 0);
    assert(s.subrange(0, s.len() as int) =~= s);
}

/// An IPv4 address is public exactly if it is not 0.0.0.0 and lies in none of
/// the ranges for private networks, for the machine itself and for one link.
pub proof fn v4_is_public_outside_the_ranges(a: int, b: int, c: int, d: int)
    requires
        0 <= a < 256,
        0 <= b < 256,
        0 <= c < 256,
        0 <= d < 256,
    ensures
        public_addr(quad(a, b, c, d)) <==> !is_inner(a, b) && !(a == 0 && b == 0 && c == 0 && d
            == 0),
{
    let s = quad(a, b, c, d);
    quad_splits(a, b, c, d);
    quad_numbers(a, b, c, d);
    untrimmed(s);
    reveal_strlit("0.0.0.0");
    let zero = quad(0, 0, 0, 0);
    quad_splits(0, 0, 0, 0);
    quad_numbers(0, 0, 0, 0);
    assert(num::dec(0) =~= seq!['0']);
    assert(zero =~= "0.0.0.0"@);
    if s == zero {
        assert(seq![a, b, c, d][0] == seq![0int, 0, 0, 0][0]);
        assert(seq![a, b, c, d][1] == seq![0int, 0, 0, 0][1]);
        assert(seq![a, b, c, d][2] == seq![0int, 0, 0, 0][2]);
        assert(seq![a, b, c, d][3] == seq![0int, 0, 0, 0][3]);
    }
    assert(!text::has_in(s, Class::Is(':')));
}

/// Groups in hexadecimal with colons between them.
pub open spec fn colons(g: Seq<int>) -> Seq<char> {
    text::join(Seq::new(g.len(), |i: int| num::nat_text(g[i] as nat, 16)), seq![':'])
}

/// Whether each is a number of 16 bits.
pub open spec fn are_groups(g: Seq<int>) -> bool {
    forall|i: int| 0 <= i < g.len() ==> 0 <= #[trigger] g[i] <= 0xffff
}

proof fn group_reads_back(v: int)
    requires
        0 <= v <= 0xffff,
    ensures
        group(num::nat_text(v as nat, 16)) == Some(v),
        !num::nat_text(v as nat, 16).contains(':'),
        !num::nat_text(v as nat, 16).contains('.'),
        !num::nat_text(v as nat, 16).contains('%'),
        num::nat_text(v as nat, 16).len() > 0,
{
    let t = num::nat_text(v as nat, 16);
    num::printed_hex_is_digits(v as nat);
    num::printed_hex_reads_back(v, u16::MAX as int);
    reveal_with_fuel(num::nat_text, 4);
    assert(t.len() <= 4);
    assert('0' <= t[0] <= '9' || 'a' <= t[0] <= 'f');
}

proof fn groups_read_back(g: Seq<int>, n: int)
    requires
        are_groups(g),
        0 <= n <= g.len(),
    ensures
        groups(Seq::new(g.len(), |i: int| num::nat_text(g[i] as nat, 16)), n) == Some(g.take(n)),
    decreases n,
{
    let parts = Seq::new(g.len(), |i: int| num::nat_text(g[i] as nat, 16));
    if n > 0 {
        groups_read_back(g, n - 1);
        group_reads_back(g[n - 1]);
        assert(g.take(n) =~= g.take(n - 1).push(g[n - 1]));
        assert(parts[n - 1] == num::nat_text(g[n - 1] as nat, 16));
    } else {
        assert(g.take(0) =~= seq![]);
    }
}

/// Whether no two colons stand together, and none at either end.
spec fn single_colons(s: Seq<char>) -> bool {
    &&& s.len() > 0
    &&& s[0] != ':'
    &&& s.last() != ':'
    &&& forall|i: int| 0 <= i < s.len() - 1 ==> #[trigger] s[i] != ':' || s[i + 1] != ':'
    &&& !s.contains('%')
}

proof fn colons_are_single(g: Seq<int>)
    requires
        are_groups(g),
        g.len() > 0,
    ensures
        single_colons(colons(g)),
    decreases g.len(),
{
    let parts = Seq::new(g.len(), |i: int| num::nat_text(g[i] as nat, 16));
    let t = num::nat_text(g.last() as nat, 16);
    assert(parts.last() == t);
    group_reads_back(g.last());
    assert forall|i: int| 0 <= i < t.len() implies #[trigger] t[i] != ':' && t[i] != '%' by {
        assert(t.contains(t[i]));
    }
    if g.len() == 1 {
        assert(colons(g) == t);
        assert(t.last() != ':');
    } else {
        let h = g.drop_last();
        colons_are_single(h);
        let ph = Seq::new(h.len(), |i: int| num::nat_text(h[i] as nat, 16));
        assert(parts.drop_last() =~= ph);
        let s = colons(g);
        let a = colons(h);
        assert(s == a + seq![':'] + t);
        assert forall|i: int| 0 <= i < s.len() - 1 implies #[trigger] s[i] != ':' || s[i + 1]
            != ':' by {
            if i < a.len() - 1 {
                assert(a[i] != ':' || a[i + 1] != ':');
            } else if i == a.len() - 1 {
                assert(s[i] == a.last());
            } else if i == a.len() {
                assert(s[i + 1] == t[0]);
            } else {
                assert(s[i] == t[i - a.len() - 1]);
            }
        }
        assert(s.last() == t.last());
        assert(s[0] == a[0]);
        if s.contains('%') {
            let i = choose|i: int| 0 <= i < s.len() && s[i] == '%';
            if i < a.len() {
                assert(a[i] == '%');
                assert(a.contains('%'));
            } else if i > a.len() {
                assert(s[i] == t[i - a.len() - 1]);
            }
        }
    }
}

proof fn side_reads_back(g: Seq<int>)
    requires
        are_groups(g),
    ensures
        side(colons(g)) == Some(g),
{
    let parts = Seq::new(g.len(), |i: int| num::nat_text(g[i] as nat, 16));
    if g.len() == 0 {
        assert(colons(g) =~= seq![]);
        assert(g =~= seq![]);
    } else {
        assert forall|i: int| 0 <= i < parts.len() implies !(#[trigger] parts[i]).contains(':') by {
            group_reads_back(g[i]);
        }
        text::split_undoes_join(parts, ':');
        colons_are_single(g);
        let n = parts.len() as int;
        group_reads_back(g[n - 1]);
        let last = parts[n - 1];
        if text::has_in(last, Class::Is('.')) {
            let i = choose|i: int| 0 <= i < last.len() && Class::Is('.').holds(#[trigger] last[i]);
            assert(last.contains('.'));
        }
        groups_read_back(g, n);
        assert(g.take(n) =~= g);
    }
}

proof fn no_zone(s: Seq<char>)
    requires
        !s.contains('%'),
    ensures
        text::split_once(s, Class::Is('%')) is None,
{
    text::next_in_is_first(s, Class::Is('%'), 0);
    let i = text::next_in(s, Class::Is('%'), 0);
    if i < s.len() {
        assert(s[i] == '%');
    }
}

/// The eight groups of an IPv6 address written out are read as they stand, and
/// `::` stands for as many zeros as are missing.
pub proof fn v6_groups_read_back(l: Seq<int>, r: Seq<int>)
    requires
        are_groups(l),
        are_groups(r),
        l.len() + r.len() < 8,
    ensures
        v6_groups(colons(l) + seq![':', ':'] + colons(r)) == Some(
            l + Seq::new((8 - l.len() - r.len()) as nat, |i: int| 0int) + r,
        ),
{
    reveal_strlit("::");
    let p = "::"@;
    assert(p =~= seq![':', ':']);
    let a = colons(l);
    let b = colons(r);
    let s = a + p + b;
    side_reads_back(l);
    side_reads_back(r);
    if l.len() > 0 {
        colons_are_single(l);
    } else {
        assert(a =~= seq![]);
    }
    if r.len() > 0 {
        colons_are_single(r);
    } else {
        assert(b =~= seq![]);
    }
    if s.contains('%') {
        let i = choose|i: int| 0 <= i < s.len() && s[i] == '%';
        if i < a.len() {
            assert(a[i] == '%');
            assert(a.contains('%'));
        } else if i >= a.len() + 2 {
            assert(b[i - a.len() - 2] == '%');
            assert(b.contains('%'));
        }
    }
    no_zone(s);
    text::find_from_is_first(s, p, 0);
    assert(s.subrange(a.len() as int, a.len() as int + 2) =~= p);
    assert(text::occurs_at(s, p, a.len() as int));
    let j = text::find_from(s, p, 0)->0;
    if j < a.len() {
        assert(text::occurs_at(s, p, j));
        assert(s[j] == s.subrange(j, j + 2)[0]);
        assert(s[j + 1] == s.subrange(j, j + 2)[1]);
        assert(a[j] == ':');
        if j + 1 < a.len() {
            assert(a[j + 1] == ':');
        } else {
            assert(a.last() == ':');
        }
    }
    assert(s.subrange(0, j) =~= a);
    assert(s.subrange(j + 2, s.len() as int) =~= b);
    assert(zeros(8 - l.len() - r.len()) =~= Seq::new(
        (8 - l.len() - r.len()) as nat,
        |i: int| 0int,
    ));
}

/// All eight groups of an IPv6 address, written out, are read as they stand.
pub proof fn v6_full_form_reads_back(g: Seq<int>)
    requires
        are_groups(g),
        g.len() == 8,
    ensures
        v6_groups(colons(g)) == Some(g),
{
    reveal_strlit("::");
    let p = "::"@;
    let s = colons(g);
    side_reads_back(g);
    colons_are_single(g);
    no_zone(s);
    text::find_from_is_first(s, p, 0);
    if text::find_from(s, p, 0) is Some {
        let j = text::find_from(s, p, 0)->0;
        assert(s[j] == s.subrange(j, j + 2)[0]);
        assert(s[j + 1] == s.subrange(j, j + 2)[1]);
    }
}

/// A text that is read as eight groups is public by their values: it is
/// neither `::` nor `::1`, not in fe80::/10 and not in fc00::/7, and one in
/// ::ffff:0:0/96 goes by the IPv4 address in its last 32 bits.
pub proof fn v6_is_public_by_its_groups(s: Seq<char>, g: Seq<int>)
    requires
        s.len() > 0,
        s[0] != '*',
        s.contains(':'),
        v6_groups(s) == Some(g),
        are_groups(g),
        g.len() == 8,
    ensures
        public_addr(s) <==> {
            let five = g[0] == 0 && g[1] == 0 && g[2] == 0 && g[3] == 0 && g[4] == 0;
            if five && g[5] == 0 && g[6] == 0 {
                g[7] > 1
            } else if five && g[5] == 0xffff {
                !(g[6] == 0 && g[7] == 0) && !is_inner(g[6] / 256, g[6] % 256)
            } else {
                !(0xfe80 <= g[0] < 0xfec0) && !(0xfc00 <= g[0] < 0xfe00)
            }
        },
{
    untrimmed(s);
    let i = choose|i: int| 0 <= i < s.len() && s[i] == ':';
    assert(Class::Is(':').holds(s[i]));
    reveal_strlit("0.0.0.0");
    assert(s != "0.0.0.0"@);
    assert(begins_zero(g, 5) <==> g[0] == 0 && g[1] == 0 && g[2] == 0 && g[3] == 0 && g[4] == 0);
    assert(begins_zero(g, 7) <==> g[0] == 0 && g[1] == 0 && g[2] == 0 && g[3] == 0 && g[4] == 0
        && g[5] == 0 && g[6] == 0);
}

// ---------- laws of the signals ----------

/// Whether a path, whatever the case of its letters, begins with a directory
/// for temporary files or goes through that of a Windows user.
pub open spec fn lies_in_temp(path: Seq<char>) -> bool {
    let p = text::lower(path);
    ||| exists|rest: Seq<char>| p == #[trigger] ("/tmp/"@ + rest)
    ||| exists|rest: Seq<char>| p == #[trigger] ("/private/tmp/"@ + rest)
    ||| exists|rest: Seq<char>| p == #[trigger] ("/var/tmp/"@ + rest)
    ||| exists|rest: Seq<char>| p == #[trigger] ("/private/var/tmp/"@ + rest)
    ||| exists|rest: Seq<char>| p == #[trigger] ("/dev/shm/"@ + rest)
    ||| exists|rest: Seq<char>| p == #[trigger] ("\\temp\\"@ + rest)
    ||| exists|a: Seq<char>, b: Seq<char>| p == #[trigger] (a + "\\appdata\\local\\temp\\"@ + b)
}

proof fn temp_is_where_it_lies(path: Seq<char>)
    ensures
        temp_path(path) <==> lies_in_temp(path),
{
    let p = text::lower(path);
    text::holding_is_standing_between(p, "/tmp/"@);
    text::holding_is_standing_between(p, "/private/tmp/"@);
    text::holding_is_standing_between(p, "/var/tmp/"@);
    text::holding_is_standing_between(p, "/private/var/tmp/"@);
    text::holding_is_standing_between(p, "/dev/shm/"@);
    text::holding_is_standing_between(p, "\\temp\\"@);
    text::holding_is_standing_between(p, "\\appdata\\local\\temp\\"@);
}

/// Whether a word is over before `b`: nothing follows, or no letter, digit,
/// `_`, `-` or character beyond ASCII.
pub open spec fn word_is_over(b: Seq<char>) -> bool {
    b.len() == 0 || !('a' <= b[0] <= 'z' || 'A' <= b[0] <= 'Z' || '0' <= b[0] <= '9' || b[0] == '_'
        || b[0] == '-' || b[0] >= '\u{80}')
}

/// Whether a text holds `p` with its last word whole.
pub open spec fn holds_whole(s: Seq<char>, p: Seq<char>) -> bool {
    exists|a: Seq<char>, b: Seq<char>| s == #[trigger] (a + p + b) && word_is_over(b)
}

/// Whether a command line, whatever the case of its letters, pipes into sh,
/// bash or zsh, or with sudo into sh or bash.
pub open spec fn is_piped(cmd: Seq<char>) -> bool {
    let c = text::lower(cmd);
    ||| holds_whole(c, "| sh"@)
    ||| holds_whole(c, "|sh"@)
    ||| holds_whole(c, "| bash"@)
    ||| holds_whole(c, "|bash"@)
    ||| holds_whole(c, "| zsh"@)
    ||| holds_whole(c, "|zsh"@)
    ||| holds_whole(c, "| sudo sh"@)
    ||| holds_whole(c, "| sudo bash"@)
}

proof fn word_ends_whole(s: Seq<char>, p: Seq<char>, i: int)
    requires
        ends_a_word(s, p, i),
    ensures
        holds_whole(s, p),
{
    let a = s.subrange(0, i);
    let b = s.subrange(i + p.len(), s.len() as int);
    assert(s =~= a + p + b);
    if b.len() > 0 {
        assert(b[0] == s[i + p.len()]);
    }
    assert(word_is_over(b));
}

proof fn whole_ends_word(s: Seq<char>, a: Seq<char>, p: Seq<char>, b: Seq<char>)
    requires
        s == a + p + b,
        word_is_over(b),
    ensures
        ends_a_word(s, p, a.len() as int),
{
    assert(s.subrange(a.len() as int, a.len() as int + p.len()) =~= p);
    if b.len() > 0 {
        assert(s[a.len() as int + p.len()] == b[0]);
    }
}

proof fn words_are_whole(s: Seq<char>, p: Seq<char>)
    ensures
        holds_words(s, p) <==> holds_whole(s, p),
{
    if holds_words(s, p) {
        word_ends_whole(s, p, choose|i: int| ends_a_word(s, p, i));
    }
    if holds_whole(s, p) {
        let (a, b) = choose|a: Seq<char>, b: Seq<char>|
            s == #[trigger] (a + p + b) && word_is_over(b);
        whole_ends_word(s, a, p, b);
    }
}

/// A command line pipes into a shell exactly if it holds one of these pipes
/// with the name of the shell whole.
pub proof fn pipes_end_in_a_shell(cmd: Seq<char>)
    ensures
        pipes(cmd) <==> is_piped(cmd),
{
    let c = text::lower(cmd);
    words_are_whole(c, "| sh"@);
    words_are_whole(c, "|sh"@);
    words_are_whole(c, "| bash"@);
    words_are_whole(c, "|bash"@);
    words_are_whole(c, "| zsh"@);
    words_are_whole(c, "|zsh"@);
    words_are_whole(c, "| sudo sh"@);
    words_are_whole(c, "| sudo bash"@);
}

/// The variables of an environment that make the loader inject a library.
pub open spec fn injections(p: ProcessView) -> Seq<(Seq<char>, Seq<char>)> {
    match p.env {
        Some(env) => env.filter(
            |e: (Seq<char>, Seq<char>)|
                e.1.len() > 0 && (text::same_ignoring_case(e.0, "LD_PRELOAD"@)
                    || text::same_ignoring_case(e.0, "DYLD_INSERT_LIBRARIES"@)),
        ),
        None => seq![],
    }
}

/// Whether a process has an established connection to a public address.
pub open spec fn is_connected(p: ProcessView, sockets: Seq<SocketView>) -> bool {
    exists|i: int|
        0 <= i < sockets.len() && (#[trigger] sockets[i]).pid == Some(p.pid)
            && text::same_ignoring_case(sockets[i].state, "ESTABLISHED"@)
            && sockets[i].peer_addr is Some && public_addr(sockets[i].peer_addr->0)
}

/// The text with its signal where it is one, and nothing else.
pub open spec fn if_so(so: bool, signal: Seq<char>) -> Seq<Seq<char>> {
    if so {
        seq![signal]
    } else {
        seq![]
    }
}

proof fn weights_of_both(a: Seq<Finding>, b: Seq<Finding>)
    ensures
        total_weight(a + b) == total_weight(a) + total_weight(b),
    decreases b.len(),
{
    if b.len() == 0 {
        assert(a + b =~= a);
    } else {
        weights_of_both(a, b.drop_last());
        assert((a + b).drop_last() =~= a + b.drop_last());
        assert((a + b).last() == b.last());
    }
}

proof fn env_findings_are_injections(env: Seq<(Seq<char>, Seq<char>)>, n: int)
    requires
        0 <= n <= env.len(),
    ensures
        ({
            let f = env_findings(env, n);
            let v = env.take(n).filter(
                |e: (Seq<char>, Seq<char>)|
                    e.1.len() > 0 && (text::same_ignoring_case(e.0, "LD_PRELOAD"@)
                        || text::same_ignoring_case(e.0, "DYLD_INSERT_LIBRARIES"@)),
            );
            &&& f.len() == v.len()
            &&& forall|i: int|
                0 <= i < f.len() ==> (#[trigger] f[i]).signal == v[i].0 + " injection (="@ + v[i].1
                    + ")"@
            &&& total_weight(f) == 3 * f.len()
        }),
    decreases n,
{
    reveal(Seq::filter);
    if n > 0 {
        env_findings_are_injections(env, n - 1);
        assert(env.take(n).drop_last() =~= env.take(n - 1));
        assert(env.take(n).last() == env[n - 1]);
        let f = env_findings(env, n);
        let g = env_findings(env, n - 1);
        if injects(env[n - 1].0, env[n - 1].1) {
            assert(f.drop_last() =~= g);
            let v = env.take(n - 1).filter(
                |e: (Seq<char>, Seq<char>)|
                    e.1.len() > 0 && (text::same_ignoring_case(e.0, "LD_PRELOAD"@)
                        || text::same_ignoring_case(e.0, "DYLD_INSERT_LIBRARIES"@)),
            );
            assert forall|i: int| 0 <= i < f.len() implies (#[trigger] f[i]).signal == v.push(
                env[n - 1],
            )[i].0 + " injection (="@ + v.push(env[n - 1])[i].1 + ")"@ by {
                if i < g.len() {
                    assert(f[i] == g[i]);
                }
            }
        }
    }
}

spec fn when_so(so: bool, weight: int, signal: Seq<char>) -> Seq<Finding> {
    if so {
        seq![Finding { weight, signal }]
    } else {
        seq![]
    }
}

spec fn signals_of(f: Seq<Finding>) -> Seq<Seq<char>> {
    Seq::new(f.len(), |i: int| f[i].signal)
}

proof fn when_so_weighs(so: bool, weight: int, signal: Seq<char>)
    ensures
        total_weight(when_so(so, weight, signal)) == if so {
            weight
        } else {
            0
        },
        signals_of(when_so(so, weight, signal)) == if_so(so, signal),
{
    let f = when_so(so, weight, signal);
    if so {
        assert(f.drop_last() =~= seq![]);
        assert(total_weight(f.drop_last()) == 0);
    }
    assert(signals_of(f) =~= if_so(so, signal));
}

proof fn five_add_up(
    f1: Seq<Finding>,
    f2: Seq<Finding>,
    f3: Seq<Finding>,
    f4: Seq<Finding>,
    f5: Seq<Finding>,
)
    ensures
        total_weight(f1 + f2 + f3 + f4 + f5) == total_weight(f1) + total_weight(f2) + total_weight(
            f3,
        ) + total_weight(f4) + total_weight(f5),
        signals_of(f1 + f2 + f3 + f4 + f5) == signals_of(f1) + signals_of(f2) + signals_of(f3)
            + signals_of(f4) + signals_of(f5),
{
    weights_of_both(f1 + f2 + f3 + f4, f5);
    weights_of_both(f1 + f2 + f3, f4);
    weights_of_both(f1 + f2, f3);
    weights_of_both(f1, f2);
    signals_of_both(f1 + f2 + f3 + f4, f5);
    signals_of_both(f1 + f2 + f3, f4);
    signals_of_both(f1 + f2, f3);
    signals_of_both(f1, f2);
}

proof fn signals_of_both(a: Seq<Finding>, b: Seq<Finding>)
    ensures
        signals_of(a + b) == signals_of(a) + signals_of(b),
{
    assert(signals_of(a + b) =~= signals_of(a) + signals_of(b));
}

/// The signals of a process are these and no others, in this order: its binary
/// lies in a directory for temporary files, it was deleted, the command line
/// pipes into a shell, a variable injects a library (one signal for each), it
/// is connected to a public address. They weigh 3, 3, 4, 3 each and 2; the
/// score is their sum, 10 at most.
pub proof fn signals_are_what_was_found(p: ProcessView, sockets: Seq<SocketView>)
    ensures
        ({
            let r = graded(findings(p, sockets));
            let inj = injections(p);
            let temp = p.exe is Some && lies_in_temp(p.exe->0);
            let piped = is_piped(p.command());
            let sum = (if temp {
                3int
            } else {
                0
            }) + (if p.exe_deleted {
                3int
            } else {
                0
            }) + (if piped {
                4int
            } else {
                0
            }) + 3 * inj.len() + (if is_connected(p, sockets) {
                2int
            } else {
                0
            });
            &&& r.signals == if_so(
                temp,
                "binary runs from a temp directory ("@ + component(p.exe->0) + ")"@,
            ) + if_so(p.exe_deleted, "binary deleted from disk while still running"@) + if_so(
                piped,
                "command pipes a download straight into a shell"@,
            ) + Seq::new(inj.len(), |i: int| inj[i].0 + " injection (="@ + inj[i].1 + ")"@) + if_so(
                is_connected(p, sockets),
                "established connection to a public address"@,
            )
            &&& r.score == if sum > 10 {
                10
            } else {
                sum
            }
        }),
{
    let r = graded(findings(p, sockets));
    let inj = injections(p);
    if p.exe is Some {
        temp_is_where_it_lies(p.exe->0);
    }
    pipes_end_in_a_shell(p.command());
    if p.env is Some {
        let env = p.env->0;
        env_findings_are_injections(env, env.len() as int);
        assert(env.take(env.len() as int) =~= env);
    }
    let ext = exists|i: int| 0 <= i < sockets.len() && reaches_out(#[trigger] sockets[i], p.pid);
    assert(ext == is_connected(p, sockets)) by {
        if ext {
            let i = choose|i: int| 0 <= i < sockets.len() && reaches_out(#[trigger] sockets[i], p.pid);
            assert(sockets[i].pid == Some(p.pid));
        }
        if is_connected(p, sockets) {
            let i = choose|i: int|
                0 <= i < sockets.len() && (#[trigger] sockets[i]).pid == Some(p.pid)
                    && text::same_ignoring_case(sockets[i].state, "ESTABLISHED"@)
                    && sockets[i].peer_addr is Some && public_addr(sockets[i].peer_addr->0);
            assert(reaches_out(sockets[i], p.pid));
        }
    }
    let f1 = when_so(
        p.exe is Some && temp_path(p.exe->0),
        3,
        "binary runs from a temp directory ("@ + component(p.exe->0) + ")"@,
    );
    let f2 = when_so(p.exe_deleted, 3, "binary deleted from disk while still running"@);
    let f3 = when_so(
        pipes(p.command()),
        4,
        "command pipes a download straight into a shell"@,
    );
    let f4 = match p.env {
        Some(env) => env_findings(env, env.len() as int),
        None => seq![],
    };
    let f5 = when_so(ext, 2, "established connection to a public address"@);
    assert(findings(p, sockets) == f1 + f2 + f3 + f4 + f5);
    assert(total_weight(f4) == 3 * inj.len());
    five_add_up(f1, f2, f3, f4, f5);
    when_so_weighs(
        p.exe is Some && temp_path(p.exe->0),
        3,
        "binary runs from a temp directory ("@ + component(p.exe->0) + ")"@,
    );
    when_so_weighs(p.exe_deleted, 3, "binary deleted from disk while still running"@);
    when_so_weighs(pipes(p.command()), 4, "command pipes a download straight into a shell"@);
    when_so_weighs(ext, 2, "established connection to a public address"@);
    assert(signals_of(f4) =~= Seq::new(
        inj.len(),
        |i: int| inj[i].0 + " injection (="@ + inj[i].1 + ")"@,
    ));
    assert(r.signals == signals_of(f1 + f2 + f3 + f4 + f5));
}

/// An established socket of a process whose peer is an IPv4 address outside
/// the ranges for private networks, the machine itself and one link adds one
/// signal and 2 to the score of the process without its sockets.
pub proof fn public_peers_add_a_signal(
    p: ProcessView,
    sockets: Seq<SocketView>,
    i: int,
    a: int,
    b: int,
    c: int,
    d: int,
)
    requires
        0 <= i < sockets.len(),
        sockets[i].pid == Some(p.pid),
        text::same_ignoring_case(sockets[i].state, "ESTABLISHED"@),
        0 <= a < 256,
        0 <= b < 256,
        0 <= c < 256,
        0 <= d < 256,
        a + b + c + d > 0,
        !is_inner(a, b),
        sockets[i].peer_addr == Some(quad(a, b, c, d)),
    ensures
        ({
            let with = graded(findings(p, sockets));
            let without = graded(findings(p, seq![]));
            &&& with.signals == without.signals.push("established connection to a public address"@)
            &&& with.score == if without.score > 8 {
                10
            } else {
                without.score + 2
            }
        }),
{
    v4_is_public_outside_the_ranges(a, b, c, d);
    assert(is_connected(p, sockets)) by {
        assert(sockets[i].pid == Some(p.pid));
    }
    signals_are_what_was_found(p, sockets);
    signals_are_what_was_found(p, seq![]);
    let none: Seq<SocketView> = seq![];
    assert(!is_connected(p, none));
    let with = graded(findings(p, sockets)).signals;
    let without = graded(findings(p, none)).signals;
    assert(with =~= without.push("established connection to a public address"@));
}

/// Where every peer of an established socket of a process lies inside those
/// ranges, the sockets add nothing.
pub proof fn inner_peers_add_nothing(
    p: ProcessView,
    sockets: Seq<SocketView>,
    peers: Seq<(int, int, int, int)>,
)
    requires
        peers.len() == sockets.len(),
        forall|i: int|
            0 <= i < sockets.len() && (#[trigger] sockets[i]).pid == Some(p.pid)
                && text::same_ignoring_case(sockets[i].state, "ESTABLISHED"@) ==> {
                ||| sockets[i].peer_addr is None
                ||| {
                    &&& 0 <= peers[i].0 < 256
                    &&& 0 <= peers[i].1 < 256
                    &&& 0 <= peers[i].2 < 256
                    &&& 0 <= peers[i].3 < 256
                    &&& is_inner(peers[i].0, peers[i].1)
                    &&& sockets[i].peer_addr == Some(
                        quad(peers[i].0, peers[i].1, peers[i].2, peers[i].3),
                    )
                }
            },
    ensures
        graded(findings(p, sockets)) == graded(findings(p, seq![])),
{
    if is_connected(p, sockets) {
        let i = choose|i: int|
            0 <= i < sockets.len() && (#[trigger] sockets[i]).pid == Some(p.pid)
                && text::same_ignoring_case(sockets[i].state, "ESTABLISHED"@)
                && sockets[i].peer_addr is Some && public_addr(sockets[i].peer_addr->0);
        let (a, b, c, d) = peers[i];
        v4_is_public_outside_the_ranges(a, b, c, d);
        assert(false);
    }
    signals_are_what_was_found(p, sockets);
    signals_are_what_was_found(p, seq![]);
    let none: Seq<SocketView> = seq![];
    assert(!is_connected(p, none));
    assert(graded(findings(p, sockets)) =~= graded(findings(p, none)));
}

/// The signal of a binary below /tmp names the first component there.
pub proof fn temp_signal_names_the_component(c: Seq<char>, tail: Seq<char>)
    requires
        !c.contains('/'),
        !c.contains('\\'),
        tail.len() == 0 || tail[0] == '/' || tail[0] == '\\',
    ensures
        component("/tmp/"@ + c + tail) == c,
        temp_path("/tmp/"@ + c + tail),
{
    let pre = "/tmp/"@;
    let path = pre + c + tail;
    reveal_strlit("/tmp/");
    let p = slashed(path);
    let st = slashed(tail);
    assert forall|i: int| 0 <= i < c.len() implies #[trigger] c[i] != '/' && c[i] != '\\' by {
        assert(c.contains(c[i]));
    }
    assert(p =~= pre + c + st);
    assert(p.subrange(0, 5) =~= pre);
    assert(text::occurs_at(p, pre, 0));
    let rest = p.subrange(5, p.len() as int);
    assert(rest =~= c + st);
    if st.len() == 0 {
        text::uncut_is_one_piece(c, Class::Is('/'));
        assert(rest =~= c);
        text::next_in_is_first(rest, Class::Is('/'), 0);
    } else {
        let more = st.subrange(1, st.len() as int);
        assert(st =~= seq!['/'] + more);
        assert(rest =~= c + seq!['/'] + more);
        text::next_in_is_where(c, '/', more, Class::Is('/'), 0);
    }
    assert(rest.subrange(0, c.len() as int) =~= c);
    let l = text::lower(path);
    assert(l.subrange(0, 5) =~= pre);
}

/// One group in hexadecimal is read as its number.
pub proof fn group_is_read(v: int)
    requires
        0 <= v <= 0xffff,
    ensures
        group(num::nat_text(v as nat, 16)) == Some(v),
{
    group_reads_back(v);
}

/// A dotted IPv4 address is no part of a zone and holds no colon, and is read
/// as the two groups of its numbers.
pub proof fn quad_is_one_piece(a: int, b: int, c: int, d: int)
    requires
        0 <= a < 256,
        0 <= b < 256,
        0 <= c < 256,
        0 <= d < 256,
    ensures
        quad_groups(quad(a, b, c, d)) == Some(seq![a * 256 + b, c * 256 + d]),
        text::has_in(quad(a, b, c, d), Class::Is('.')),
        quad(a, b, c, d).len() > 0,
        forall|i: int|
            0 <= i < quad(a, b, c, d).len() ==> #[trigger] quad(a, b, c, d)[i] != ':' && quad(
                a,
                b,
                c,
                d,
            )[i] != '%',
{
    quad_splits(a, b, c, d);
    num::printed_natural_reads_back(a, u8::MAX as int);
    num::printed_natural_reads_back(b, u8::MAX as int);
    num::printed_natural_reads_back(c, u8::MAX as int);
    num::printed_natural_reads_back(d, u8::MAX as int);
    let s = quad(a, b, c, d);
    let n = num::dec(a).len() as int;
    assert(s[n] == '.');
    assert(Class::Is('.').holds(s[n]));
}

/// The signal of a binary below /dev/shm names the first component there too.
pub proof fn shared_memory_signal_names_the_component(c: Seq<char>, tail: Seq<char>)
    requires
        !c.contains('/'),
        !c.contains('\\'),
        tail.len() == 0 || tail[0] == '/' || tail[0] == '\\',
        !text::contains(slashed("/dev/shm/"@ + c + tail), "/tmp/"@),
        !text::contains(slashed("/dev/shm/"@ + c + tail), "/private/tmp/"@),
        !text::contains(slashed("/dev/shm/"@ + c + tail), "/var/tmp/"@),
        !text::contains(slashed("/dev/shm/"@ + c + tail), "/private/var/tmp/"@),
    ensures
        component("/dev/shm/"@ + c + tail) == c,
        temp_path("/dev/shm/"@ + c + tail),
{
    let m = "/dev/shm/"@;
    let path = m + c + tail;
    let p = slashed(path);
    reveal_strlit("/dev/shm/");
    text::find_from_is_first(p, "/tmp/"@, 0);
    text::find_from_is_first(p, "/private/tmp/"@, 0);
    text::find_from_is_first(p, "/var/tmp/"@, 0);
    text::find_from_is_first(p, "/private/var/tmp/"@, 0);
    text::find_from_is_first(p, m, 0);
    let n = m.len() as int;
    assert(p.subrange(0, n) =~= m);
    assert(text::occurs_at(p, m, 0));
    let rest = p.subrange(n, p.len() as int);
    assert(rest =~= c + slashed(tail));
    assert forall|j: int| 0 <= j < c.len() implies !Class::Is('/').holds(#[trigger] c[j]) by {
        assert(c.contains(c[j]));
    }
    if tail.len() > 0 {
        let more = slashed(tail).subrange(1, tail.len() as int);
        assert(rest =~= c + seq!['/'] + more);
        text::next_in_is_where(c, '/', more, Class::Is('/'), 0);
    } else {
        assert(rest =~= c);
        text::next_in_is_first(c, Class::Is('/'), 0);
    }
    assert(rest.subrange(0, c.len() as int) =~= c);
    let l = text::lower(path);
    assert(l =~= m + text::lower(c + tail));
    text::holding_is_standing_between(l, m);
}

} // verus!
