//! Numbers as text: printing, parsing and padding.

use vstd::prelude::*;
use vstd::slice::slice_subrange;
use vstd::string::*;

use crate::text::chars_of;

verus! {

// ---------- printing ----------

/// The character of a digit below 16.
pub open spec fn digit_char(d: int) -> char {
    if d < 10 {
        (48 + d) as u8 as char
    } else {
        (87 + d) as u8 as char
    }
}

/// `n` written in `radix`, without leading zeros.
pub open spec fn nat_text(n: nat, radix: nat) -> Seq<char>
    decreases n,
{
    if radix < 2 || n < radix {
        seq![digit_char(n as int)]
    } else {
        proof {
            assert(n / radix < n) by (nonlinear_arith)
                requires
                    radix >= 2,
                    n >= radix,
            ;
        }
        nat_text(n / radix, radix).push(digit_char((n % radix) as int))
    }
}

/// `n` in decimal, with a sign when it is negative.
pub open spec fn dec(n: int) -> Seq<char> {
    if n < 0 {
        seq!['-'] + nat_text((-n) as nat, 10)
    } else {
        nat_text(n as nat, 10)
    }
}

fn digit_of(d: u64) -> (r: char)
    requires
        d < 16,
    ensures
        r == digit_char(d as int),
{
    if d < 10 {
        (48 + d as u8) as char
    } else {
        (87 + d as u8) as char
    }
}

/// Appends `n` in decimal or hexadecimal.
pub fn push_nat(out: &mut String, n: u64, radix: u64)
    requires
        radix == 10 || radix == 16,
    ensures
        final(out)@ == old(out)@ + nat_text(n as nat, radix as nat),
    decreases n,
{
    if n < radix {
        out.push(digit_of(n));
        assert(out@ =~= old(out)@ + nat_text(n as nat, radix as nat));
    } else {
        push_nat(out, n / radix, radix);
        let ghost mid = out@;
        out.push(digit_of(n % radix));
        assert(out@ =~= old(out)@ + nat_text((n / radix) as nat, radix as nat).push(
            digit_char((n % radix) as int),
        ));
    }
}

/// `n` in decimal.
pub fn dec_u64(n: u64) -> (r: String)
    ensures
        r@ == dec(n as int),
{
    let mut out = String::new();
    push_nat(&mut out, n, 10);
    assert(out@ =~= dec(n as int));
    out
}

/// `n` in decimal.
pub fn dec_usize(n: usize) -> (r: String)
    ensures
        r@ == dec(n as int),
{
    dec_u64(n as u64)
}

/// `n` in lower-case hexadecimal.
pub fn hex_text(n: u16) -> (r: String)
    ensures
        r@ == nat_text(n as nat, 16),
{
    let mut out = String::new();
    push_nat(&mut out, n as u64, 16);
    assert(out@ =~= nat_text(n as nat, 16));
    out
}

fn magnitude(n: i64) -> (r: u64)
    requires
        n < 0,
    ensures
        r == -n,
{
    if n == i64::MIN {
        0x8000_0000_0000_0000
    } else {
        (-n) as u64
    }
}

/// `n` in decimal.
pub fn dec_i64(n: i64) -> (r: String)
    ensures
        r@ == dec(n as int),
{
    let mut out = String::new();
    if n < 0 {
        out.push('-');
        push_nat(&mut out, magnitude(n), 10);
        assert(out@ =~= dec(n as int));
    } else {
        push_nat(&mut out, n as u64, 10);
        assert(out@ =~= dec(n as int));
    }
    out
}

/// `n` in decimal.
pub fn dec_i32(n: i32) -> (r: String)
    ensures
        r@ == dec(n as int),
{
    dec_i64(n as i64)
}

// ---------- padding ----------

/// `n` copies of one character.
pub open spec fn fill(c: char, n: int) -> Seq<char> {
    Seq::new(
        if n > 0 {
            n as nat
        } else {
            0
        },
        |i: int| c,
    )
}

/// `s` with spaces behind it, at least `w` characters wide.
pub open spec fn pad_right(s: Seq<char>, w: int) -> Seq<char> {
    s + fill(' ', w - s.len())
}

/// `s` with spaces before it, at least `w` characters wide.
pub open spec fn pad_left(s: Seq<char>, w: int) -> Seq<char> {
    fill(' ', w - s.len()) + s
}

/// `n` with zeros between its sign and its digits, at least `w` characters
/// wide.
pub open spec fn zero_pad(n: int, w: int) -> Seq<char> {
    if n < 0 {
        seq!['-'] + fill('0', w - 1 - nat_text((-n) as nat, 10).len()) + nat_text((-n) as nat, 10)
    } else {
        fill('0', w - nat_text(n as nat, 10).len()) + nat_text(n as nat, 10)
    }
}

/// `k` copies of a text, one behind the other.
pub open spec fn repeat(s: Seq<char>, k: nat) -> Seq<char>
    decreases k,
{
    if k == 0 {
        seq![]
    } else {
        repeat(s, (k - 1) as nat) + s
    }
}

fn push_fill(out: &mut String, c: char, n: usize)
    ensures
        final(out)@ == old(out)@ + fill(c, n as int),
{
    let mut i: usize = 0;
    assert(out@ =~= old(out)@ + fill(c, 0));
    while i < n
        invariant
            i <= n,
            out@ == old(out)@ + fill(c, i as int),
        decreases n - i,
    {
        out.push(c);
        assert(out@ =~= old(out)@ + fill(c, i + 1));
        i += 1;
    }
}

/// The number of characters in a string.
pub fn width(s: &str) -> (r: usize)
    ensures
        r == s@.len(),
{
    let c = chars_of(s);
    c.len()
}

fn missing(w: usize, have: usize) -> (r: usize)
    ensures
        r == if w > have {
            w - have
        } else {
            0
        },
{
    if w > have {
        w - have
    } else {
        0
    }
}

/// See the spec function `pad_right`.
pub fn padded_right(s: &str, w: usize) -> (r: String)
    ensures
        r@ == pad_right(s@, w as int),
{
    let have = width(s);
    let mut out = s.to_owned();
    push_fill(&mut out, ' ', missing(w, have));
    assert(out@ =~= pad_right(s@, w as int));
    out
}

/// See the spec function `pad_left`.
pub fn padded_left(s: &str, w: usize) -> (r: String)
    ensures
        r@ == pad_left(s@, w as int),
{
    let have = width(s);
    let mut out = String::new();
    push_fill(&mut out, ' ', missing(w, have));
    out.append(s);
    assert(out@ =~= pad_left(s@, w as int));
    out
}

/// See the spec function `zero_pad`.
pub fn zero_padded(n: i64, w: usize) -> (r: String)
    ensures
        r@ == zero_pad(n as int, w as int),
{
    if n < 0 {
        let d = dec_u64(magnitude(n));
        let have = width(d.as_str());
        let mut out = String::new();
        out.push('-');
        push_fill(&mut out, '0', missing(missing(w, 1), have));
        out.append(d.as_str());
        assert(out@ =~= zero_pad(n as int, w as int));
        out
    } else {
        let d = dec_u64(n as u64);
        let have = width(d.as_str());
        let mut out = String::new();
        push_fill(&mut out, '0', missing(w, have));
        out.append(d.as_str());
        assert(out@ =~= zero_pad(n as int, w as int));
        out
    }
}

/// See the spec function `repeat`.
pub fn repeated(s: &str, k: usize) -> (r: String)
    ensures
        r@ == repeat(s@, k as nat),
{
    let mut out = String::new();
    let mut i: usize = 0;
    while i < k
        invariant
            i <= k,
            out@ == repeat(s@, i as nat),
        decreases k - i,
    {
        out.append(s);
        i += 1;
    }
    out
}

// ---------- parsing ----------

/// The value of a digit character in `radix`, or -1.
pub open spec fn digit_value(c: char, radix: int) -> int {
    if '0' <= c <= '9' {
        c as u32 - 48
    } else if radix == 16 && 'a' <= c <= 'f' {
        c as u32 - 87
    } else if radix == 16 && 'A' <= c <= 'F' {
        c as u32 - 55
    } else {
        -1
    }
}

/// Whether `s` is one or more digits of `radix`.
pub open spec fn all_digits(s: Seq<char>, radix: int) -> bool {
    s.len() > 0 && forall|i: int| 0 <= i < s.len() ==> digit_value(#[trigger] s[i], radix) >= 0
}

/// The number that a run of digits denotes.
pub open spec fn digits_value(s: Seq<char>, radix: int) -> int
    decreases s.len(),
{
    if s.len() == 0 {
        0
    } else {
        digits_value(s.drop_last(), radix) * radix + digit_value(s.last(), radix)
    }
}

/// `s` read as a number of at most `max`: digits, with `+` before them or
/// nothing.
pub open spec fn parse_unsigned(s: Seq<char>, radix: int, max: int) -> Option<int> {
    let d = if s.len() > 0 && s[0] == '+' {
        s.subrange(1, s.len() as int)
    } else {
        s
    };
    if all_digits(d, radix) && digits_value(d, radix) <= max {
        Some(digits_value(d, radix))
    } else {
        None
    }
}

/// `s` read as a decimal number from `min` to `max`: digits, with `+`, `-` or
/// nothing before them.
pub open spec fn parse_signed(s: Seq<char>, min: int, max: int) -> Option<int> {
    if s.len() > 0 && s[0] == '-' {
        let d = s.subrange(1, s.len() as int);
        if all_digits(d, 10) && -digits_value(d, 10) >= min {
            Some(-digits_value(d, 10))
        } else {
            None
        }
    } else {
        parse_unsigned(s, 10, max)
    }
}

/// Digits denote no negative number.
pub proof fn digits_value_is_natural(s: Seq<char>, radix: int)
    requires
        radix > 0,
        forall|i: int| 0 <= i < s.len() ==> digit_value(#[trigger] s[i], radix) >= 0,
    ensures
        digits_value(s, radix) >= 0,
    decreases s.len(),
{
    if s.len() > 0 {
        digits_value_is_natural(s.drop_last(), radix);
        let w = digits_value(s.drop_last(), radix);
        assert(w * radix >= 0) by (nonlinear_arith)
            requires
                w >= 0,
                radix > 0,
        ;
        assert(s.last() == s[s.len() - 1]);
    }
}

fn value_of(c: char, radix: u64) -> (r: Option<u64>)
    requires
        radix == 10 || radix == 16,
    ensures
        r is None <==> digit_value(c, radix as int) < 0,
        r matches Some(v) ==> v == digit_value(c, radix as int) && v < radix,
{
    let n: u32 = c as u32;
    if '0' <= c && c <= '9' {
        Some((n - 48) as u64)
    } else if radix == 16 && 'a' <= c && c <= 'f' {
        Some((n - 87) as u64)
    } else if radix == 16 && 'A' <= c && c <= 'F' {
        Some((n - 55) as u64)
    } else {
        None
    }
}

/// What a run of characters says as digits.
enum Digits {
    Bad,
    TooBig,
    Value(u64),
}

fn read_digits(s: &[char], radix: u64) -> (r: Digits)
    requires
        radix == 10 || radix == 16,
    ensures
        match r {
            Digits::Bad => !all_digits(s@, radix as int),
            Digits::TooBig => all_digits(s@, radix as int) && digits_value(s@, radix as int)
                > u64::MAX,
            Digits::Value(v) => all_digits(s@, radix as int) && digits_value(s@, radix as int) == v,
        },
{
    if s.len() == 0 {
        return Digits::Bad;
    }
    let mut v: u64 = 0;
    let mut over = false;
    let mut i: usize = 0;
    while i < s.len()
        invariant
            radix == 10 || radix == 16,
            i <= s@.len(),
            forall|j: int| 0 <= j < i ==> digit_value(#[trigger] s@[j], radix as int) >= 0,
            !over ==> digits_value(s@.take(i as int), radix as int) == v,
            over ==> digits_value(s@.take(i as int), radix as int) > u64::MAX,
        decreases s@.len() - i,
    {
        let d: u64 = match value_of(s[i], radix) {
            Some(d) => d,
            None => {
                return Digits::Bad;
            },
        };
        proof {
            assert(s@.take(i + 1).drop_last() =~= s@.take(i as int));
            let w = digits_value(s@.take(i as int), radix as int);
            assert(digits_value(s@.take(i + 1), radix as int) == w * radix + d);
            assert(w > u64::MAX ==> w * radix + d > u64::MAX) by (nonlinear_arith)
                requires
                    radix == 10 || radix == 16,
                    d >= 0,
            ;
        }
        if !over {
            let big: u128 = (v as u128) * (radix as u128) + (d as u128);
            if big > u64::MAX as u128 {
                over = true;
            } else {
                v = big as u64;
            }
        }
        i += 1;
    }
    assert(s@.take(i as int) =~= s@);
    if over {
        Digits::TooBig
    } else {
        Digits::Value(v)
    }
}

fn read_unsigned(s: &[char], radix: u64, max: u64) -> (r: Option<u64>)
    requires
        radix == 10 || radix == 16,
    ensures
        (match r {
            Some(v) => Some(v as int),
            None => None,
        }) == parse_unsigned(s@, radix as int, max as int),
{
    let d = if s.len() > 0 && s[0] == '+' {
        slice_subrange(s, 1, s.len())
    } else {
        s
    };
    match read_digits(d, radix) {
        Digits::Value(v) => if v <= max {
            Some(v)
        } else {
            None
        },
        _ => None,
    }
}

/// `s` as a decimal `u64`.
pub fn parse_u64(s: &[char]) -> (r: Option<u64>)
    ensures
        (match r {
            Some(v) => Some(v as int),
            None => None,
        }) == parse_unsigned(s@, 10, u64::MAX as int),
{
    read_unsigned(s, 10, u64::MAX)
}

/// `s` as a decimal `u32`.
pub fn parse_u32(s: &[char]) -> (r: Option<u32>)
    ensures
        (match r {
            Some(v) => Some(v as int),
            None => None,
        }) == parse_unsigned(s@, 10, u32::MAX as int),
{
    match read_unsigned(s, 10, u32::MAX as u64) {
        Some(v) => Some(v as u32),
        None => None,
    }
}

/// `s` as a decimal `u16`.
pub fn parse_u16(s: &[char]) -> (r: Option<u16>)
    ensures
        (match r {
            Some(v) => Some(v as int),
            None => None,
        }) == parse_unsigned(s@, 10, u16::MAX as int),
{
    match read_unsigned(s, 10, u16::MAX as u64) {
        Some(v) => Some(v as u16),
        None => None,
    }
}

/// `s` as a decimal `u8`.
pub fn parse_u8(s: &[char]) -> (r: Option<u8>)
    ensures
        (match r {
            Some(v) => Some(v as int),
            None => None,
        }) == parse_unsigned(s@, 10, u8::MAX as int),
{
    match read_unsigned(s, 10, u8::MAX as u64) {
        Some(v) => Some(v as u8),
        None => None,
    }
}

/// `s` as a hexadecimal `u16`.
pub fn parse_hex_u16(s: &[char]) -> (r: Option<u16>)
    ensures
        (match r {
            Some(v) => Some(v as int),
            None => None,
        }) == parse_unsigned(s@, 16, u16::MAX as int),
{
    match read_unsigned(s, 16, u16::MAX as u64) {
        Some(v) => Some(v as u16),
        None => None,
    }
}

/// `s` as a hexadecimal `u8`.
pub fn parse_hex_u8(s: &[char]) -> (r: Option<u8>)
    ensures
        (match r {
            Some(v) => Some(v as int),
            None => None,
        }) == parse_unsigned(s@, 16, u8::MAX as int),
{
    match read_unsigned(s, 16, u8::MAX as u64) {
        Some(v) => Some(v as u8),
        None => None,
    }
}

/// `s` as a decimal `i64`.
pub fn parse_i64(s: &[char]) -> (r: Option<i64>)
    ensures
        (match r {
            Some(v) => Some(v as int),
            None => None,
        }) == parse_signed(s@, i64::MIN as int, i64::MAX as int),
{
    if s.len() > 0 && s[0] == '-' {
        match read_digits(slice_subrange(s, 1, s.len()), 10) {
            Digits::Value(v) => if v <= 0x7fff_ffff_ffff_ffff {
                Some(-(v as i64))
            } else if v == 0x8000_0000_0000_0000 {
                Some(i64::MIN)
            } else {
                None
            },
            _ => None,
        }
    } else {
        match read_unsigned(s, 10, 0x7fff_ffff_ffff_ffff) {
            Some(v) => Some(v as i64),
            None => None,
        }
    }
}

/// `s` as a decimal `i32`.
pub fn parse_i32(s: &[char]) -> (r: Option<i32>)
    ensures
        (match r {
            Some(v) => Some(v as int),
            None => None,
        }) == parse_signed(s@, i32::MIN as int, i32::MAX as int),
{
    proof {
        let t = if s@.len() > 0 && (s@[0] == '-' || s@[0] == '+') {
            s@.subrange(1, s@.len() as int)
        } else {
            s@
        };
        if all_digits(t, 10) {
            digits_value_is_natural(t, 10);
        }
    }
    match parse_i64(s) {
        Some(v) => if i32::MIN as i64 <= v && v <= i32::MAX as i64 {
            Some(v as i32)
        } else {
            None
        },
        None => None,
    }
}

// ---------- printing and parsing agree ----------

proof fn nat_text_reads_back(n: nat)
    ensures
        all_digits(nat_text(n, 10), 10),
        digits_value(nat_text(n, 10), 10) == n,
        nat_text(n, 10)[0] != '-',
        nat_text(n, 10)[0] != '+',
    decreases n,
{
    let t = nat_text(n, 10);
    if n < 10 {
        assert(t.drop_last() =~= seq![]);
        assert(digits_value(seq![], 10) == 0);
        assert(t.last() == digit_char(n as int));
    } else {
        nat_text_reads_back(n / 10);
        let h = nat_text(n / 10, 10);
        assert(t.drop_last() =~= h);
        assert(t.last() == digit_char((n % 10) as int));
        assert forall|i: int| 0 <= i < t.len() implies digit_value(#[trigger] t[i], 10) >= 0 by {
            if i < h.len() {
                assert(t[i] == h[i]);
            }
        }
        assert(t[0] == h[0]);
    }
}

/// Reading a printed number gives the number back, when it is in range.
pub proof fn printed_number_reads_back(n: int, min: int, max: int)
    requires
        min <= n <= max,
    ensures
        parse_signed(dec(n), min, max) == Some(n),
{
    if n < 0 {
        nat_text_reads_back((-n) as nat);
        assert(dec(n).subrange(1, dec(n).len() as int) =~= nat_text((-n) as nat, 10));
    } else {
        nat_text_reads_back(n as nat);
    }
}

/// Reading a printed natural number gives the number back, when it is in
/// range.
pub proof fn printed_natural_reads_back(n: int, max: int)
    requires
        0 <= n <= max,
    ensures
        parse_unsigned(dec(n), 10, max) == Some(n),
{
    nat_text_reads_back(n as nat);
}

proof fn hex_text_reads_back(n: nat)
    ensures
        all_digits(nat_text(n, 16), 16),
        digits_value(nat_text(n, 16), 16) == n,
        nat_text(n, 16)[0] != '+',
    decreases n,
{
    let t = nat_text(n, 16);
    if n < 16 {
        assert(t.drop_last() =~= seq![]);
        assert(digits_value(seq![], 16) == 0);
        assert(t.last() == digit_char(n as int));
    } else {
        hex_text_reads_back(n / 16);
        let h = nat_text(n / 16, 16);
        assert(t.drop_last() =~= h);
        assert(t.last() == digit_char((n % 16) as int));
        assert forall|i: int| 0 <= i < t.len() implies digit_value(#[trigger] t[i], 16) >= 0 by {
            if i < h.len() {
                assert(t[i] == h[i]);
            }
        }
        assert(t[0] == h[0]);
    }
}

/// Reading a number printed in hexadecimal gives the number back, when it is
/// in range.
pub proof fn printed_hex_reads_back(n: int, max: int)
    requires
        0 <= n <= max,
    ensures
        parse_unsigned(nat_text(n as nat, 16), 16, max) == Some(n),
{
    hex_text_reads_back(n as nat);
}

/// A printed natural number consists of digits alone.
pub proof fn printed_natural_is_digits(n: int)
    requires
        n >= 0,
    ensures
        dec(n).len() > 0,
        forall|i: int| 0 <= i < dec(n).len() ==> '0' <= #[trigger] dec(n)[i] <= '9',
{
    nat_text_reads_back(n as nat);
    assert forall|i: int| 0 <= i < dec(n).len() implies '0' <= #[trigger] dec(n)[i] <= '9' by {
        assert(digit_value(dec(n)[i], 10) >= 0);
    }
}

/// A number printed in hexadecimal consists of digits and the letters a to f.
pub proof fn printed_hex_is_digits(n: nat)
    ensures
        nat_text(n, 16).len() > 0,
        forall|i: int|
            0 <= i < nat_text(n, 16).len() ==> ('0' <= #[trigger] nat_text(n, 16)[i] <= '9' || 'a'
                <= nat_text(n, 16)[i] <= 'f'),
    decreases n,
{
    if n >= 16 {
        printed_hex_is_digits(n / 16);
        let h = nat_text(n / 16, 16);
        assert forall|i: int| 0 <= i < nat_text(n, 16).len() implies ('0' <= #[trigger] nat_text(
            n,
            16,
        )[i] <= '9' || 'a' <= nat_text(n, 16)[i] <= 'f') by {
            if i < h.len() {
                assert(nat_text(n, 16)[i] == h[i]);
            }
        }
    }
}

/// One digit more behind a number is ten times it and the digit.
pub proof fn digits_count_by_place(s: Seq<char>, c: char, max: int)
    requires
        all_digits(s, 10),
        s[0] != '+',
        '0' <= c <= '9',
        digits_value(s, 10) * 10 + 9 <= max,
    ensures
        parse_unsigned(s.push(c), 10, max) == Some(
            parse_unsigned(s, 10, max)->0 * 10 + (c as u32 - '0' as u32),
        ),
{
    let t = s.push(c);
    assert(t.drop_last() =~= s);
    assert forall|i: int| 0 <= i < t.len() implies digit_value(#[trigger] t[i], 10) >= 0 by {
        if i < s.len() {
            assert(t[i] == s[i]);
        }
    }
    digits_value_is_natural(s, 10);
    assert(t[0] == s[0]);
}

/// A number that was read is natural and at most the limit.
pub proof fn parsed_is_in_range(s: Seq<char>, radix: int, max: int)
    requires
        radix > 0,
    ensures
        parse_unsigned(s, radix, max) matches Some(v) ==> 0 <= v <= max,
{
    let d = if s.len() > 0 && s[0] == '+' {
        s.subrange(1, s.len() as int)
    } else {
        s
    };
    if all_digits(d, radix) {
        digits_value_is_natural(d, radix);
    }
}

/// One digit more behind digits.
pub proof fn digit_behind(s: Seq<char>, c: char, radix: int)
    ensures
        digits_value(s.push(c), radix) == digits_value(s, radix) * radix + digit_value(c, radix),
{
    assert(s.push(c).drop_last() =~= s);
}

/// A printed number holds no white space, and has a character.
pub proof fn printed_number_has_no_space(n: int)
    ensures
        dec(n).len() > 0,
        forall|i: int| 0 <= i < dec(n).len() ==> ('0' <= #[trigger] dec(n)[i] <= '9' || dec(n)[i]
            == '-'),
        !crate::text::is_white(dec(n)[0]),
        !crate::text::is_white(dec(n).last()),
{
    let m = if n < 0 {
        -n
    } else {
        n
    };
    printed_natural_is_digits(m);
    assert(dec(m) == nat_text(m as nat, 10));
    if n < 0 {
        assert forall|i: int| 0 <= i < dec(n).len() implies ('0' <= #[trigger] dec(n)[i] <= '9'
            || dec(n)[i] == '-') by {
            if i > 0 {
                assert(dec(n)[i] == dec(m)[i - 1]);
            }
        }
    }
    assert('0' <= dec(n)[0] <= '9' || dec(n)[0] == '-');
    assert('0' <= dec(n)[dec(n).len() - 1] <= '9' || dec(n)[dec(n).len() - 1] == '-');
}

proof fn zeros_before(s: Seq<char>, k: nat)
    requires
        all_digits(s, 10),
    ensures
        all_digits(Seq::new(k, |i: int| '0') + s, 10),
        digits_value(Seq::new(k, |i: int| '0') + s, 10) == digits_value(s, 10),
    decreases s.len(),
{
    let z = Seq::new(k, |i: int| '0');
    assert((z + s).last() == s.last());
    if s.len() == 1 {
        assert((z + s).drop_last() =~= z);
        zeros_are_nothing(k);
        assert(digits_value(s.drop_last(), 10) == 0);
    } else {
        assert((z + s).drop_last() =~= z + s.drop_last());
        assert(all_digits(s.drop_last(), 10)) by {
            assert forall|i: int| 0 <= i < s.drop_last().len() implies digit_value(
                #[trigger] s.drop_last()[i],
                10,
            ) >= 0 by {
                assert(s.drop_last()[i] == s[i]);
            }
        }
        zeros_before(s.drop_last(), k);
    }
}

proof fn zeros_are_nothing(k: nat)
    ensures
        digits_value(Seq::new(k, |i: int| '0'), 10) == 0,
    decreases k,
{
    let z = Seq::new(k, |i: int| '0');
    if k > 0 {
        assert(z.drop_last() =~= Seq::new((k - 1) as nat, |i: int| '0'));
        zeros_are_nothing((k - 1) as nat);
    }
}

/// A number with zeros in front is read as the number, has at least the width,
/// and is the number itself where that is as wide.
pub proof fn zero_padded_reads_back(n: int, w: int, max: int)
    requires
        0 <= n <= max,
    ensures
        parse_unsigned(zero_pad(n, w), 10, max) == Some(n),
        zero_pad(n, w).len() == if dec(n).len() < w {
            w
        } else {
            dec(n).len() as int
        },
        forall|i: int| 0 <= i < zero_pad(n, w).len() ==> '0' <= #[trigger] zero_pad(n, w)[i] <= '9',
{
    nat_text_reads_back(n as nat);
    printed_natural_is_digits(n);
    let t = nat_text(n as nat, 10);
    let k = if w - t.len() < 0 {
        0nat
    } else {
        (w - t.len()) as nat
    };
    assert(zero_pad(n, w) =~= Seq::new(k, |i: int| '0') + t);
    zeros_before(t, k);
    assert(zero_pad(n, w)[0] != '+');
}

/// A padded text has the text at its start, or its end, spaces beside it, and
/// the width, or the text's own length where that is more.
pub proof fn padding_is_spaces(s: Seq<char>, w: int)
    ensures
        pad_right(s, w).len() == if s.len() < w {
            w
        } else {
            s.len() as int
        },
        pad_left(s, w).len() == pad_right(s, w).len(),
        forall|i: int|
            0 <= i < pad_right(s, w).len() ==> #[trigger] pad_right(s, w)[i] == if i < s.len() {
                s[i]
            } else {
                ' '
            },
        forall|i: int|
            0 <= i < pad_left(s, w).len() ==> #[trigger] pad_left(s, w)[i] == if i < pad_left(
                s,
                w,
            ).len() - s.len() {
                ' '
            } else {
                s[i - (pad_left(s, w).len() - s.len())]
            },
{
}

} // verus!
