//! Text as a sequence of characters: searching, cutting, trimming and joining.
//!
//! Everything here works on `&[char]`, whose view is a `Seq<char>`, and each
//! executable function is proved equal to the spec function of the same name.

use vstd::prelude::*;
use vstd::slice::slice_subrange;
use vstd::string::*;

verus! {

/// `String::push` appends one character.
pub assume_specification[ String::push ](s: &mut String, c: char)
    ensures
        final(s)@ == old(s)@.push(c),
;

// ---------- character classes ----------

/// A set of characters to search for, cut at or strip.
#[derive(Clone, Copy, PartialEq, Eq, Structural)]
pub enum Class {
    /// Exactly this character.
    Is(char),
    /// Either of two characters.
    Either(char, char),
    /// Unicode white space.
    White,
    /// ASCII white space.
    AsciiWhite,
}

/// The characters with the Unicode `White_Space` property.
pub open spec fn is_white(c: char) -> bool {
    ||| 0x09 <= c as u32 <= 0x0d
    ||| c as u32 == 0x20
    ||| c as u32 == 0x85
    ||| c as u32 == 0xa0
    ||| c as u32 == 0x1680
    ||| 0x2000 <= c as u32 <= 0x200a
    ||| c as u32 == 0x2028
    ||| c as u32 == 0x2029
    ||| c as u32 == 0x202f
    ||| c as u32 == 0x205f
    ||| c as u32 == 0x3000
}

/// Space, tab, line feed, form feed and carriage return.
pub open spec fn is_ascii_white(c: char) -> bool {
    c == ' ' || c == '\t' || c == '\n' || c as u32 == 0x0c || c == '\r'
}

impl Class {
    /// Whether `c` belongs to the class.
    pub open spec fn holds(self, c: char) -> bool {
        match self {
            Class::Is(a) => c == a,
            Class::Either(a, b) => c == a || c == b,
            Class::White => is_white(c),
            Class::AsciiWhite => is_ascii_white(c),
        }
    }

    /// Whether `c` belongs to the class.
    pub fn test(self, c: char) -> (r: bool)
        ensures
            r == self.holds(c),
    {
        match self {
            Class::Is(a) => c == a,
            Class::Either(a, b) => c == a || c == b,
            Class::White => {
                let n: u32 = c as u32;
                (n >= 0x09 && n <= 0x0d) || n == 0x20 || n == 0x85 || n == 0xa0 || n == 0x1680 || (n
                    >= 0x2000 && n <= 0x200a) || n == 0x2028 || n == 0x2029 || n == 0x202f || n
                    == 0x205f || n == 0x3000
            },
            Class::AsciiWhite => {
                c == ' ' || c == '\t' || c == '\n' || c as u32 == 0x0c || c == '\r'
            },
        }
    }
}

// ---------- to and from strings ----------

/// The characters of a string slice.
pub fn chars_of(s: &str) -> (r: Vec<char>)
    ensures
        r@ == s@,
{
    let mut out: Vec<char> = Vec::new();
    for c in it: s.chars()
        invariant
            out@ == it.seq().take(it.index() as int),
            it.seq() == s@,
    {
        out.push(c);
        assert(it.seq().take(it.index() + 1) =~= it.seq().take(it.index() as int).push(c));
    }
    assert(s@.take(s@.len() as int) =~= s@);
    out
}

/// The string made of these characters.
pub fn string_of(s: &[char]) -> (r: String)
    ensures
        r@ == s@,
{
    let mut out = String::new();
    let n: usize = s.len();
    let mut i: usize = 0;
    while i < n
        invariant
            n == s@.len(),
            i <= n,
            out@ == s@.take(i as int),
        decreases n - i,
    {
        out.push(s[i]);
        assert(s@.take(i + 1) =~= s@.take(i as int).push(s@[i as int]));
        i += 1;
    }
    assert(s@.take(n as int) =~= s@);
    out
}

/// A copy of a string slice.
pub fn text(s: &str) -> (r: String)
    ensures
        r@ == s@,
{
    s.to_owned()
}

// ---------- equality ----------

/// Whether two runs of characters are the same.
pub fn same(a: &[char], b: &[char]) -> (r: bool)
    ensures
        r == (a@ == b@),
{
    if a.len() != b.len() {
        return false;
    }
    let n: usize = a.len();
    let mut i: usize = 0;
    while i < n
        invariant
            n == a@.len() == b@.len(),
            i <= n,
            forall|j: int| 0 <= j < i ==> a@[j] == b@[j],
        decreases n - i,
    {
        if a[i] != b[i] {
            return false;
        }
        i += 1;
    }
    assert(a@ =~= b@);
    true
}

/// Whether two strings are the same.
pub fn same_str(a: &str, b: &str) -> (r: bool)
    ensures
        r == (a@ == b@),
{
    let x = chars_of(a);
    let y = chars_of(b);
    same(x.as_slice(), y.as_slice())
}

// ---------- searching for a class ----------

/// The first position at or after `i` whose character is in `k`; the length
/// when there is none.
pub open spec fn next_in(s: Seq<char>, k: Class, i: int) -> int
    decreases s.len() - i,
{
    if i >= s.len() {
        s.len() as int
    } else if k.holds(s[i]) {
        i
    } else {
        next_in(s, k, i + 1)
    }
}

/// The first position at or after `i` whose character is not in `k`; the
/// length when there is none.
pub open spec fn next_out(s: Seq<char>, k: Class, i: int) -> int
    decreases s.len() - i,
{
    if i >= s.len() {
        s.len() as int
    } else if !k.holds(s[i]) {
        i
    } else {
        next_out(s, k, i + 1)
    }
}

/// The last position before `n` whose character is in `k`, or -1.
pub open spec fn last_in(s: Seq<char>, k: Class, n: int) -> int
    decreases n,
{
    if n <= 0 {
        -1
    } else if k.holds(s[n - 1]) {
        n - 1
    } else {
        last_in(s, k, n - 1)
    }
}

/// The length of `s.take(n)` without the characters of `k` at its end.
pub open spec fn end_out(s: Seq<char>, k: Class, n: int) -> int
    decreases n,
{
    if n <= 0 {
        0
    } else if !k.holds(s[n - 1]) {
        n
    } else {
        end_out(s, k, n - 1)
    }
}

/// What `next_in` finds: the position is in range, in the class, and nothing
/// before it is.
pub proof fn next_in_is_first(s: Seq<char>, k: Class, i: int)
    requires
        0 <= i <= s.len(),
    ensures
        i <= next_in(s, k, i) <= s.len(),
        next_in(s, k, i) < s.len() ==> k.holds(s[next_in(s, k, i)]),
        forall|j: int| i <= j < next_in(s, k, i) ==> !k.holds(#[trigger] s[j]),
    decreases s.len() - i,
{
    if i < s.len() && !k.holds(s[i]) {
        next_in_is_first(s, k, i + 1);
    }
}

/// What `next_out` finds: the position is in range, outside the class, and
/// everything before it is inside.
pub proof fn next_out_is_first(s: Seq<char>, k: Class, i: int)
    requires
        0 <= i <= s.len(),
    ensures
        i <= next_out(s, k, i) <= s.len(),
        next_out(s, k, i) < s.len() ==> !k.holds(s[next_out(s, k, i)]),
        forall|j: int| i <= j < next_out(s, k, i) ==> k.holds(#[trigger] s[j]),
    decreases s.len() - i,
{
    if i < s.len() && k.holds(s[i]) {
        next_out_is_first(s, k, i + 1);
    }
}

/// What `last_in` finds: the position is in the class and nothing after it is.
pub proof fn last_in_is_last(s: Seq<char>, k: Class, n: int)
    requires
        0 <= n <= s.len(),
    ensures
        -1 <= last_in(s, k, n) < n,
        last_in(s, k, n) >= 0 ==> k.holds(s[last_in(s, k, n)]),
        forall|j: int| last_in(s, k, n) < j < n ==> !k.holds(#[trigger] s[j]),
    decreases n,
{
    if n > 0 && !k.holds(s[n - 1]) {
        last_in_is_last(s, k, n - 1);
    }
}

/// What `end_out` finds: the last kept character is outside the class and
/// everything behind it is inside.
pub proof fn end_out_is_last(s: Seq<char>, k: Class, n: int)
    requires
        0 <= n <= s.len(),
    ensures
        0 <= end_out(s, k, n) <= n,
        end_out(s, k, n) > 0 ==> !k.holds(s[end_out(s, k, n) - 1]),
        forall|j: int| end_out(s, k, n) <= j < n ==> k.holds(#[trigger] s[j]),
    decreases n,
{
    if n > 0 && k.holds(s[n - 1]) {
        end_out_is_last(s, k, n - 1);
    }
}

/// See the spec function `next_in`.
pub fn find_in(s: &[char], k: Class, from: usize) -> (r: usize)
    requires
        from <= s@.len(),
    ensures
        r == next_in(s@, k, from as int),
        from <= r <= s@.len(),
{
    let mut i: usize = from;
    while i < s.len()
        invariant
            from <= i <= s@.len(),
            next_in(s@, k, from as int) == next_in(s@, k, i as int),
        decreases s@.len() - i,
    {
        if k.test(s[i]) {
            return i;
        }
        i += 1;
    }
    i
}

/// See the spec function `next_out`.
pub fn find_out(s: &[char], k: Class, from: usize) -> (r: usize)
    requires
        from <= s@.len(),
    ensures
        r == next_out(s@, k, from as int),
        from <= r <= s@.len(),
{
    let mut i: usize = from;
    while i < s.len()
        invariant
            from <= i <= s@.len(),
            next_out(s@, k, from as int) == next_out(s@, k, i as int),
        decreases s@.len() - i,
    {
        if !k.test(s[i]) {
            return i;
        }
        i += 1;
    }
    i
}

/// The last position whose character is in `k`.
pub fn rfind_in(s: &[char], k: Class) -> (r: Option<usize>)
    ensures
        r is None <==> last_in(s@, k, s@.len() as int) < 0,
        r matches Some(i) ==> i == last_in(s@, k, s@.len() as int) && i < s@.len(),
{
    let mut n: usize = s.len();
    while n > 0
        invariant
            n <= s@.len(),
            last_in(s@, k, s@.len() as int) == last_in(s@, k, n as int),
        decreases n,
    {
        if k.test(s[n - 1]) {
            return Some(n - 1);
        }
        n -= 1;
    }
    None
}

/// Whether some character is in `k`.
pub open spec fn has_in(s: Seq<char>, k: Class) -> bool {
    exists|i: int| 0 <= i < s.len() && k.holds(#[trigger] s[i])
}

/// Whether some character is in `k`.
pub fn has(s: &[char], k: Class) -> (r: bool)
    ensures
        r == has_in(s@, k),
{
    let i = find_in(s, k, 0);
    proof {
        next_in_is_first(s@, k, 0);
    }
    i < s.len()
}

// ---------- trimming ----------

/// `s` without the characters of `k` at its start.
pub open spec fn trim_start(s: Seq<char>, k: Class) -> Seq<char> {
    s.subrange(next_out(s, k, 0), s.len() as int)
}

/// `s` without the characters of `k` at its end.
pub open spec fn trim_end(s: Seq<char>, k: Class) -> Seq<char> {
    s.subrange(0, end_out(s, k, s.len() as int))
}

/// `s` without the characters of `k` at either end.
pub open spec fn trim(s: Seq<char>, k: Class) -> Seq<char> {
    trim_end(trim_start(s, k), k)
}

/// See the spec function `trim_start`.
pub fn cut_start<'a>(s: &'a [char], k: Class) -> (r: &'a [char])
    ensures
        r@ == trim_start(s@, k),
{
    let i = find_out(s, k, 0);
    slice_subrange(s, i, s.len())
}

/// See the spec function `trim_end`.
pub fn cut_end<'a>(s: &'a [char], k: Class) -> (r: &'a [char])
    ensures
        r@ == trim_end(s@, k),
{
    let mut n: usize = s.len();
    while n > 0 && k.test(s[n - 1])
        invariant
            n <= s@.len(),
            end_out(s@, k, s@.len() as int) == end_out(s@, k, n as int),
        decreases n,
    {
        n -= 1;
    }
    slice_subrange(s, 0, n)
}

/// See the spec function `trim`.
pub fn cut<'a>(s: &'a [char], k: Class) -> (r: &'a [char])
    ensures
        r@ == trim(s@, k),
{
    cut_end(cut_start(s, k), k)
}

// ---------- cutting at a class ----------

/// What a list of slices shows.
pub open spec fn pieces(v: Seq<&[char]>) -> Seq<Seq<char>> {
    Seq::new(v.len(), |i: int| v[i]@)
}

/// `s` from position `i` on, cut at every character of `k`.
pub open spec fn split_from(s: Seq<char>, k: Class, i: int) -> Seq<Seq<char>>
    decreases s.len() - i,
    when 0 <= i <= s.len()
{
    proof {
        next_in_is_first(s, k, i);
    }
    let j = next_in(s, k, i);
    if j >= s.len() {
        seq![s.subrange(i, s.len() as int)]
    } else {
        seq![s.subrange(i, j)] + split_from(s, k, j + 1)
    }
}

/// `s` cut at every character of `k`; the characters cut at are dropped.
pub open spec fn split(s: Seq<char>, k: Class) -> Seq<Seq<char>> {
    split_from(s, k, 0)
}

/// See the spec function `split`.
pub fn cut_at<'a>(s: &'a [char], k: Class) -> (r: Vec<&'a [char]>)
    ensures
        pieces(r@) == split(s@, k),
        r@.len() >= 1,
{
    let mut out: Vec<&'a [char]> = Vec::new();
    let mut i: usize = 0;
    assert(pieces(out@) + split_from(s@, k, 0) =~= split(s@, k));
    loop
        invariant
            0 <= i <= s@.len(),
            pieces(out@) + split_from(s@, k, i as int) == split(s@, k),
        decreases s@.len() - i,
    {
        let j = find_in(s, k, i);
        let ghost before = out@;
        out.push(slice_subrange(s, i, j));
        assert(pieces(out@) =~= pieces(before).push(s@.subrange(i as int, j as int)));
        if j >= s.len() {
            assert(pieces(out@) =~= split(s@, k));
            return out;
        }
        assert(pieces(out@) + split_from(s@, k, j + 1) =~= pieces(before) + split_from(
            s@,
            k,
            i as int,
        ));
        i = j + 1;
    }
}

/// The runs of characters outside `k` in `s` from position `i` on.
pub open spec fn words_from(s: Seq<char>, k: Class, i: int) -> Seq<Seq<char>>
    decreases s.len() - i,
    when 0 <= i <= s.len()
{
    proof {
        next_out_is_first(s, k, i);
        if next_out(s, k, i) < s.len() {
            next_in_is_first(s, k, next_out(s, k, i));
        }
    }
    let a = next_out(s, k, i);
    if a >= s.len() {
        seq![]
    } else {
        let b = next_in(s, k, a);
        seq![s.subrange(a, b)] + words_from(s, k, b)
    }
}

/// The words of `s`: its runs of characters that are not white space.
pub open spec fn words(s: Seq<char>) -> Seq<Seq<char>> {
    words_from(s, Class::White, 0)
}

/// See the spec function `words`.
pub fn words_of<'a>(s: &'a [char]) -> (r: Vec<&'a [char]>)
    ensures
        pieces(r@) == words(s@),
{
    let k = Class::White;
    let mut out: Vec<&'a [char]> = Vec::new();
    let mut i: usize = 0;
    assert(pieces(out@) + words_from(s@, k, 0) =~= words(s@));
    loop
        invariant
            0 <= i <= s@.len(),
            k == Class::White,
            pieces(out@) + words_from(s@, k, i as int) == words(s@),
        decreases s@.len() - i,
    {
        let a = find_out(s, k, i);
        if a >= s.len() {
            assert(pieces(out@) =~= words(s@));
            return out;
        }
        proof {
            next_out_is_first(s@, k, i as int);
            next_in_is_first(s@, k, a as int);
        }
        let b = find_in(s, k, a);
        let ghost before = out@;
        out.push(slice_subrange(s, a, b));
        assert(pieces(out@) =~= pieces(before).push(s@.subrange(a as int, b as int)));
        assert(pieces(out@) + words_from(s@, k, b as int) =~= pieces(before) + words_from(
            s@,
            k,
            i as int,
        ));
        i = b;
    }
}

// ---------- lines ----------

/// `s` without one carriage return at its end.
pub open spec fn strip_cr(s: Seq<char>) -> Seq<char> {
    if s.len() > 0 && s.last() == '\r' {
        s.drop_last()
    } else {
        s
    }
}

/// The lines of `s`: each ends in a line feed, which may follow a carriage
/// return, and a last line without one counts when it is not empty.
pub open spec fn lines(s: Seq<char>) -> Seq<Seq<char>> {
    let p = split(s, Class::Is('\n'));
    let ended = Seq::new((p.len() - 1) as nat, |i: int| strip_cr(p[i]));
    if p.last().len() == 0 {
        ended
    } else {
        ended.push(p.last())
    }
}

/// See the spec function `lines`.
pub fn lines_of<'a>(s: &'a [char]) -> (r: Vec<&'a [char]>)
    ensures
        pieces(r@) == lines(s@),
{
    let p = cut_at(s, Class::Is('\n'));
    let ghost parts = split(s@, Class::Is('\n'));
    let n: usize = p.len() - 1;
    let mut out: Vec<&'a [char]> = Vec::new();
    let mut i: usize = 0;
    assert(parts.len() == p@.len());
    while i < n
        invariant
            n + 1 == p@.len() == parts.len(),
            pieces(p@) == parts,
            i <= n,
            out@.len() == i,
            forall|j: int| 0 <= j < i ==> (#[trigger] out@[j])@ == strip_cr(parts[j]),
        decreases n - i,
    {
        let q: &'a [char] = p[i];
        assert(q@ == parts[i as int]);
        let m: usize = q.len();
        if m > 0 && q[m - 1] == '\r' {
            let t = slice_subrange(q, 0, m - 1);
            assert(t@ =~= q@.drop_last());
            out.push(t);
        } else {
            out.push(q);
        }
        i += 1;
    }
    let last: &'a [char] = p[n];
    assert(last@ == parts[n as int]);
    if last.len() > 0 {
        out.push(last);
    }
    assert(pieces(out@) =~= lines(s@));
    out
}

// ---------- cutting once ----------

/// `s` before and after its first character of `k`.
pub open spec fn split_once(s: Seq<char>, k: Class) -> Option<(Seq<char>, Seq<char>)> {
    let i = next_in(s, k, 0);
    if i < s.len() {
        Some((s.subrange(0, i), s.subrange(i + 1, s.len() as int)))
    } else {
        None
    }
}

/// `s` before and after its last character of `k`.
pub open spec fn rsplit_once(s: Seq<char>, k: Class) -> Option<(Seq<char>, Seq<char>)> {
    let i = last_in(s, k, s.len() as int);
    if i >= 0 {
        Some((s.subrange(0, i), s.subrange(i + 1, s.len() as int)))
    } else {
        None
    }
}

/// What a pair of slices shows.
pub open spec fn pair(r: Option<(&[char], &[char])>) -> Option<(Seq<char>, Seq<char>)> {
    match r {
        Some(p) => Some((p.0@, p.1@)),
        None => None,
    }
}

/// See the spec function `split_once`.
pub fn cut_once<'a>(s: &'a [char], k: Class) -> (r: Option<(&'a [char], &'a [char])>)
    ensures
        pair(r) == split_once(s@, k),
{
    let i = find_in(s, k, 0);
    if i < s.len() {
        Some((slice_subrange(s, 0, i), slice_subrange(s, i + 1, s.len())))
    } else {
        None
    }
}

/// See the spec function `rsplit_once`.
pub fn rcut_once<'a>(s: &'a [char], k: Class) -> (r: Option<(&'a [char], &'a [char])>)
    ensures
        pair(r) == rsplit_once(s@, k),
{
    let n: usize = s.len();
    match rfind_in(s, k) {
        Some(i) => Some((slice_subrange(s, 0, i), slice_subrange(s, i + 1, n))),
        None => None,
    }
}

// ---------- substrings ----------

/// Whether `p` stands in `s` at position `i`.
pub open spec fn occurs_at(s: Seq<char>, p: Seq<char>, i: int) -> bool {
    0 <= i && i + p.len() <= s.len() && s.subrange(i, i + p.len()) == p
}

/// Whether `p` stands anywhere in `s`.
pub open spec fn contains(s: Seq<char>, p: Seq<char>) -> bool {
    exists|i: int| occurs_at(s, p, i)
}

/// Whether `s` begins with `p`.
pub open spec fn starts_with(s: Seq<char>, p: Seq<char>) -> bool {
    occurs_at(s, p, 0)
}

/// Whether `s` ends with `p`.
pub open spec fn ends_with(s: Seq<char>, p: Seq<char>) -> bool {
    occurs_at(s, p, s.len() - p.len())
}

/// The first position of `p` in `s` at or after `i`.
pub open spec fn find_from(s: Seq<char>, p: Seq<char>, i: int) -> Option<int>
    decreases s.len() + 1 - i,
{
    if i + p.len() > s.len() {
        None
    } else if occurs_at(s, p, i) {
        Some(i)
    } else {
        find_from(s, p, i + 1)
    }
}

/// The last position of `p` in `s` at or before `i`.
pub open spec fn rfind_from(s: Seq<char>, p: Seq<char>, i: int) -> Option<int>
    decreases i + 1,
{
    if i < 0 {
        None
    } else if occurs_at(s, p, i) {
        Some(i)
    } else {
        rfind_from(s, p, i - 1)
    }
}

/// What `find_from` finds: an occurrence with none before it.
pub proof fn find_from_is_first(s: Seq<char>, p: Seq<char>, i: int)
    requires
        0 <= i,
    ensures
        find_from(s, p, i) matches Some(j) ==> i <= j && occurs_at(s, p, j) && forall|m: int|
            i <= m < j ==> !occurs_at(s, p, m),
        find_from(s, p, i) is None ==> forall|m: int| i <= m ==> !occurs_at(s, p, m),
    decreases s.len() + 1 - i,
{
    if i + p.len() <= s.len() && !occurs_at(s, p, i) {
        find_from_is_first(s, p, i + 1);
    }
}

/// What `rfind_from` finds: an occurrence with none after it.
pub proof fn rfind_from_is_last(s: Seq<char>, p: Seq<char>, i: int)
    ensures
        rfind_from(s, p, i) matches Some(j) ==> j <= i && occurs_at(s, p, j) && forall|m: int|
            j < m <= i ==> !occurs_at(s, p, m),
        rfind_from(s, p, i) is None ==> forall|m: int| 0 <= m <= i ==> !occurs_at(s, p, m),
    decreases i + 1,
{
    if i >= 0 && !occurs_at(s, p, i) {
        rfind_from_is_last(s, p, i - 1);
    }
}

/// Whether `p` stands in `s` at position `i`.
pub fn at(s: &[char], p: &[char], i: usize) -> (r: bool)
    ensures
        r == occurs_at(s@, p@, i as int),
{
    if i > s.len() || p.len() > s.len() - i {
        return false;
    }
    same(slice_subrange(s, i, i + p.len()), p)
}

/// Whether `s` begins with `p`.
pub fn begins(s: &[char], p: &str) -> (r: bool)
    ensures
        r == starts_with(s@, p@),
{
    let q = chars_of(p);
    at(s, q.as_slice(), 0)
}

/// Whether `s` ends with `p`.
pub fn ends(s: &[char], p: &str) -> (r: bool)
    ensures
        r == ends_with(s@, p@),
{
    let q = chars_of(p);
    if q.len() > s.len() {
        return false;
    }
    at(s, q.as_slice(), s.len() - q.len())
}

/// See the spec function `find_from`.
pub fn find_sub(s: &[char], p: &[char], from: usize) -> (r: Option<usize>)
    ensures
        r is None <==> find_from(s@, p@, from as int) is None,
        r matches Some(i) ==> find_from(s@, p@, from as int) == Some(i as int) && from <= i && i
            + p@.len() <= s@.len(),
{
    let mut i: usize = from;
    while i <= s.len() && p.len() <= s.len() - i
        invariant
            from <= i,
            from <= s@.len() ==> i <= s@.len() + 1,
            from > s@.len() ==> i == from,
            find_from(s@, p@, from as int) == find_from(s@, p@, i as int),
        decreases s@.len() + 1 - i,
    {
        if at(s, p, i) {
            return Some(i);
        }
        if i == s.len() {
            assert(find_from(s@, p@, i + 1) is None);
            return None;
        }
        i += 1;
    }
    None
}

/// The last position of `p` in `s`.
pub fn rfind_sub(s: &[char], p: &str) -> (r: Option<usize>)
    ensures
        r is None <==> rfind_from(s@, p@, s@.len() as int) is None,
        r matches Some(i) ==> rfind_from(s@, p@, s@.len() as int) == Some(i as int) && i + p@.len()
            <= s@.len(),
{
    let q = chars_of(p);
    let mut i: usize = s.len();
    loop
        invariant
            i <= s@.len(),
            q@ == p@,
            rfind_from(s@, p@, s@.len() as int) == rfind_from(s@, p@, i as int),
        decreases i,
    {
        if at(s, q.as_slice(), i) {
            return Some(i);
        }
        if i == 0 {
            assert(rfind_from(s@, p@, -1) is None);
            return None;
        }
        i -= 1;
    }
}

/// Whether `p` stands anywhere in `s`.
pub fn holds_sub(s: &[char], p: &[char]) -> (r: bool)
    ensures
        r == contains(s@, p@),
{
    proof {
        find_from_is_first(s@, p@, 0);
    }
    match find_sub(s, p, 0) {
        Some(i) => {
            assert(occurs_at(s@, p@, i as int));
            true
        },
        None => false,
    }
}

/// Whether the string `p` stands anywhere in `s`.
pub fn holds_str(s: &[char], p: &str) -> (r: bool)
    ensures
        r == contains(s@, p@),
{
    let q = chars_of(p);
    holds_sub(s, q.as_slice())
}

/// Whether the string `p` stands anywhere in the string `s`.
pub fn str_holds(s: &str, p: &str) -> (r: bool)
    ensures
        r == contains(s@, p@),
{
    let c = chars_of(s);
    holds_str(c.as_slice(), p)
}

/// `s` without `p` at its start, when it begins so.
pub open spec fn strip_prefix(s: Seq<char>, p: Seq<char>) -> Option<Seq<char>> {
    if starts_with(s, p) {
        Some(s.subrange(p.len() as int, s.len() as int))
    } else {
        None
    }
}

/// `s` without `p` at its end, when it ends so.
pub open spec fn strip_suffix(s: Seq<char>, p: Seq<char>) -> Option<Seq<char>> {
    if ends_with(s, p) {
        Some(s.subrange(0, s.len() - p.len()))
    } else {
        None
    }
}

/// What an optional slice shows.
pub open spec fn seen(r: Option<&[char]>) -> Option<Seq<char>> {
    match r {
        Some(p) => Some(p@),
        None => None,
    }
}

/// See the spec function `strip_prefix`.
pub fn without_prefix<'a>(s: &'a [char], p: &str) -> (r: Option<&'a [char]>)
    ensures
        seen(r) == strip_prefix(s@, p@),
{
    let q = chars_of(p);
    if at(s, q.as_slice(), 0) {
        Some(slice_subrange(s, q.len(), s.len()))
    } else {
        None
    }
}

/// See the spec function `strip_suffix`.
pub fn without_suffix<'a>(s: &'a [char], p: &str) -> (r: Option<&'a [char]>)
    ensures
        seen(r) == strip_suffix(s@, p@),
{
    let q = chars_of(p);
    if q.len() > s.len() {
        return None;
    }
    if at(s, q.as_slice(), s.len() - q.len()) {
        Some(slice_subrange(s, 0, s.len() - q.len()))
    } else {
        None
    }
}

/// `s` before and after the first occurrence of `p`.
pub open spec fn split_once_str(s: Seq<char>, p: Seq<char>) -> Option<(Seq<char>, Seq<char>)> {
    match find_from(s, p, 0) {
        Some(i) => Some((s.subrange(0, i), s.subrange(i + p.len(), s.len() as int))),
        None => None,
    }
}

/// See the spec function `split_once_str`.
pub fn cut_once_str<'a>(s: &'a [char], p: &str) -> (r: Option<(&'a [char], &'a [char])>)
    ensures
        pair(r) == split_once_str(s@, p@),
{
    let q = chars_of(p);
    let n: usize = s.len();
    match find_sub(s, q.as_slice(), 0) {
        Some(i) => Some((slice_subrange(s, 0, i), slice_subrange(s, i + q.len(), n))),
        None => None,
    }
}

/// `s` without any copies of `p` at its end.
pub open spec fn trim_end_str(s: Seq<char>, p: Seq<char>) -> Seq<char>
    decreases s.len(),
{
    if p.len() > 0 && ends_with(s, p) {
        trim_end_str(s.subrange(0, s.len() - p.len()), p)
    } else {
        s
    }
}

/// See the spec function `trim_end_str`.
pub fn cut_end_str<'a>(s: &'a [char], p: &str) -> (r: &'a [char])
    ensures
        r@ == trim_end_str(s@, p@),
{
    let q = chars_of(p);
    let m: usize = q.len();
    let mut n: usize = s.len();
    assert(s@.subrange(0, n as int) =~= s@);
    while m > 0 && m <= n && at(slice_subrange(s, 0, n), q.as_slice(), n - m)
        invariant
            q@ == p@,
            m == p@.len(),
            n <= s@.len(),
            trim_end_str(s@, p@) == trim_end_str(s@.subrange(0, n as int), p@),
        decreases n,
    {
        assert(s@.subrange(0, n as int).subrange(0, n - m) =~= s@.subrange(0, n - m));
        n = n - m;
    }
    slice_subrange(s, 0, n)
}

/// `s` up to the first occurrence of `p`, or all of it.
pub open spec fn before_str(s: Seq<char>, p: Seq<char>) -> Seq<char> {
    match split_once_str(s, p) {
        Some(c) => c.0,
        None => s,
    }
}

/// See the spec function `before_str`.
pub fn cut_before<'a>(s: &'a [char], p: &str) -> (r: &'a [char])
    ensures
        r@ == before_str(s@, p@),
{
    match cut_once_str(s, p) {
        Some(c) => c.0,
        None => s,
    }
}

// ---------- ASCII case ----------

/// The lower-case form of an ASCII letter; other characters unchanged.
pub open spec fn lower_char(c: char) -> char {
    if 'A' <= c <= 'Z' {
        ((c as u8) + 32) as char
    } else {
        c
    }
}

/// `s` with its ASCII letters in lower case.
pub open spec fn lower(s: Seq<char>) -> Seq<char> {
    Seq::new(s.len(), |i: int| lower_char(s[i]))
}

/// Whether two texts differ at most in the case of ASCII letters.
pub open spec fn same_ignoring_case(a: Seq<char>, b: Seq<char>) -> bool {
    lower(a) == lower(b)
}

/// See the spec function `lower_char`.
pub fn lower_of_char(c: char) -> (r: char)
    ensures
        r == lower_char(c),
{
    if 'A' <= c && c <= 'Z' {
        ((c as u8) + 32) as char
    } else {
        c
    }
}

/// See the spec function `lower`.
pub fn lower_of(s: &[char]) -> (r: Vec<char>)
    ensures
        r@ == lower(s@),
{
    let mut out: Vec<char> = Vec::new();
    let mut i: usize = 0;
    while i < s.len()
        invariant
            i <= s@.len(),
            out@.len() == i,
            forall|j: int| 0 <= j < i ==> out@[j] == lower_char(s@[j]),
        decreases s@.len() - i,
    {
        out.push(lower_of_char(s[i]));
        i += 1;
    }
    assert(out@ =~= lower(s@));
    out
}

/// See the spec function `same_ignoring_case`.
pub fn same_nocase(a: &[char], b: &str) -> (r: bool)
    ensures
        r == same_ignoring_case(a@, b@),
{
    let x = lower_of(a);
    let q = chars_of(b);
    let y = lower_of(q.as_slice());
    same(x.as_slice(), y.as_slice())
}

/// See the spec function `same_ignoring_case`.
pub fn same_str_nocase(a: &str, b: &str) -> (r: bool)
    ensures
        r == same_ignoring_case(a@, b@),
{
    let p = chars_of(a);
    same_nocase(p.as_slice(), b)
}

// ---------- Unicode case ----------

/// Whether every character is ASCII.
pub open spec fn is_ascii_text(s: Seq<char>) -> bool {
    forall|i: int| 0 <= i < s.len() ==> (#[trigger] s[i]) as u32 <= 127
}

/// The text that `str::to_lowercase` makes of `s`.
pub uninterp spec fn unicode_lower(s: Seq<char>) -> Seq<char>;

/// `str::to_lowercase`: the lower-case equivalent of a string by the Unicode
/// rules, a function of the string alone. For ASCII text it lowers the ASCII
/// letters and nothing else.
#[verifier::external_body]
pub(crate) fn lowercase(s: &str) -> (r: String)
    ensures
        r@ == unicode_lower(s@),
        is_ascii_text(s@) ==> r@ == lower(s@),
{
    s.to_lowercase()
}

// ---------- bytes ----------

/// The text that `String::from_utf8_lossy` makes of some bytes.
pub uninterp spec fn lossy(bytes: Seq<u8>) -> Seq<char>;

/// Whether every byte is ASCII.
pub open spec fn is_ascii_bytes(b: Seq<u8>) -> bool {
    forall|i: int| 0 <= i < b.len() ==> #[trigger] b[i] <= 127
}

/// `String::from_utf8_lossy`: the text of some bytes, a function of the bytes
/// alone. ASCII bytes, which are valid UTF-8, give one character each.
#[verifier::external_body]
pub(crate) fn lossy_text(bytes: &[u8]) -> (r: String)
    ensures
        r@ == lossy(bytes@),
        is_ascii_bytes(bytes@) ==> r@ == Seq::new(bytes@.len(), |i: int| bytes@[i] as char),
{
    String::from_utf8_lossy(bytes).into_owned()
}

// ---------- joining ----------

/// What a list of strings shows.
pub open spec fn texts(v: Seq<String>) -> Seq<Seq<char>> {
    Seq::new(v.len(), |i: int| v[i]@)
}

/// What a list of values shows.
pub open spec fn views<T: View>(v: Seq<T>) -> Seq<T::V> {
    Seq::new(v.len(), |i: int| v[i]@)
}

/// Pushing a value pushes its view.
pub broadcast proof fn views_push<T: View>(v: Seq<T>, x: T)
    ensures
        #[trigger] views(v.push(x)) == views(v).push(x@),
{
    assert(views(v.push(x)) =~= views(v).push(x@));
}

/// An empty list shows an empty list.
pub broadcast proof fn views_empty<T: View>()
    ensures
        #[trigger] views(Seq::<T>::empty()) == Seq::<T::V>::empty(),
{
    assert(views(Seq::<T>::empty()) =~= Seq::<T::V>::empty());
}

/// An empty list of strings shows an empty list.
pub broadcast proof fn texts_empty()
    ensures
        #[trigger] texts(Seq::<String>::empty()) == Seq::<Seq<char>>::empty(),
{
    assert(texts(Seq::<String>::empty()) =~= Seq::<Seq<char>>::empty());
}

pub broadcast group group_views {
    views_push,
    views_empty,
    texts_push,
    texts_empty,
}

/// What an optional string shows.
pub open spec fn opt(o: Option<String>) -> Option<Seq<char>> {
    match o {
        Some(s) => Some(s@),
        None => None,
    }
}

/// Whether two optional texts are the same.
pub fn same_opt(a: &Option<String>, b: &Option<String>) -> (r: bool)
    ensures
        r == (opt(*a) == opt(*b)),
{
    match (a, b) {
        (Some(x), Some(y)) => x.eq(y),
        (None, None) => true,
        _ => false,
    }
}

/// A copy of an optional string.
pub fn opt_copy(o: &Option<String>) -> (r: Option<String>)
    ensures
        r == *o,
{
    match o {
        Some(s) => Some(s.clone()),
        None => None,
    }
}

/// The parts with `sep` between them.
pub open spec fn join(parts: Seq<Seq<char>>, sep: Seq<char>) -> Seq<char>
    decreases parts.len(),
{
    if parts.len() == 0 {
        seq![]
    } else if parts.len() == 1 {
        parts[0]
    } else {
        join(parts.drop_last(), sep) + sep + parts.last()
    }
}

/// A copy of a list of strings.
pub fn copy_texts(v: &Vec<String>) -> (r: Vec<String>)
    ensures
        r@ == v@,
{
    let mut out: Vec<String> = Vec::new();
    let mut i: usize = 0;
    while i < v.len()
        invariant
            i <= v@.len(),
            out@ == v@.take(i as int),
        decreases v@.len() - i,
    {
        out.push(v[i].clone());
        assert(v@.take(i + 1) =~= v@.take(i as int).push(v@[i as int]));
        i += 1;
    }
    assert(v@.take(i as int) =~= v@);
    out
}

/// See the spec function `join`.
pub fn joined(parts: &Vec<String>, sep: &str) -> (r: String)
    ensures
        r@ == join(texts(parts@), sep@),
{
    if parts.len() == 0 {
        let r = String::new();
        assert(texts(parts@).len() == 0);
        return r;
    }
    let mut out = text(parts[0].as_str());
    let mut i: usize = 1;
    assert(texts(parts@).take(1).len() == 1);
    while i < parts.len()
        invariant
            1 <= i <= parts@.len(),
            out@ == join(texts(parts@).take(i as int), sep@),
        decreases parts@.len() - i,
    {
        out.append(sep);
        out.append(parts[i].as_str());
        assert(texts(parts@).take(i + 1).drop_last() =~= texts(parts@).take(i as int));
        i += 1;
    }
    assert(texts(parts@).take(i as int) =~= texts(parts@));
    out
}

/// Pushing a string pushes its text.
pub broadcast proof fn texts_push(v: Seq<String>, s: String)
    ensures
        #[trigger] texts(v.push(s)) == texts(v).push(s@),
{
    assert(texts(v.push(s)) =~= texts(v).push(s@));
}

/// Cutting a text at a character and joining the pieces with that character
/// gives the text back.
pub proof fn join_undoes_split(s: Seq<char>, c: char)
    ensures
        join(split(s, Class::Is(c)), seq![c]) == s,
{
    join_undoes_split_from(s, c, 0);
    assert(s.subrange(0, s.len() as int) =~= s);
}

proof fn join_undoes_split_from(s: Seq<char>, c: char, i: int)
    requires
        0 <= i <= s.len(),
    ensures
        split_from(s, Class::Is(c), i).len() >= 1,
        join(split_from(s, Class::Is(c), i), seq![c]) == s.subrange(i, s.len() as int),
    decreases s.len() - i,
{
    let k = Class::Is(c);
    next_in_is_first(s, k, i);
    let j = next_in(s, k, i);
    if j < s.len() {
        join_undoes_split_from(s, c, j + 1);
        let rest = split_from(s, k, j + 1);
        join_front(s.subrange(i, j), rest, seq![c]);
        assert(s.subrange(i, j) + seq![c] + s.subrange(j + 1, s.len() as int) =~= s.subrange(
            i,
            s.len() as int,
        ));
    }
}

proof fn join_front(first: Seq<char>, rest: Seq<Seq<char>>, sep: Seq<char>)
    requires
        rest.len() >= 1,
    ensures
        join(seq![first] + rest, sep) == first + sep + join(rest, sep),
    decreases rest.len(),
{
    let all = seq![first] + rest;
    assert(all.last() == rest.last());
    if rest.len() == 1 {
        assert(all.drop_last() =~= seq![first]);
        assert(join(seq![first], sep) == first);
    } else {
        join_front(first, rest.drop_last(), sep);
        assert(all.drop_last() =~= seq![first] + rest.drop_last());
        assert(first + sep + join(rest.drop_last(), sep) + sep + rest.last() =~= first + sep + (join(
            rest.drop_last(),
            sep,
        ) + sep + rest.last()));
    }
}

// ---------- what cutting gives back ----------

/// Looking for the class behind a prefix is looking for it in what follows.
pub proof fn next_in_behind(a: Seq<char>, b: Seq<char>, k: Class, i: int)
    requires
        0 <= i <= b.len(),
    ensures
        next_in(a + b, k, a.len() + i) == a.len() + next_in(b, k, i),
    decreases b.len() - i,
{
    if i < b.len() {
        assert((a + b)[a.len() + i] == b[i]);
        if !k.holds(b[i]) {
            next_in_behind(a, b, k, i + 1);
        }
    }
}

/// Looking for the end of a class behind a prefix is looking for it in what
/// follows.
pub proof fn next_out_behind(a: Seq<char>, b: Seq<char>, k: Class, i: int)
    requires
        0 <= i <= b.len(),
    ensures
        next_out(a + b, k, a.len() + i) == a.len() + next_out(b, k, i),
    decreases b.len() - i,
{
    if i < b.len() {
        assert((a + b)[a.len() + i] == b[i]);
        if k.holds(b[i]) {
            next_out_behind(a, b, k, i + 1);
        }
    }
}

/// The first character of a class is where it stands behind a text without
/// one.
pub proof fn next_in_is_where(a: Seq<char>, x: char, b: Seq<char>, k: Class, i: int)
    requires
        0 <= i <= a.len(),
        forall|j: int| 0 <= j < a.len() ==> !k.holds(#[trigger] a[j]),
        k.holds(x),
    ensures
        next_in(a + seq![x] + b, k, i) == a.len(),
    decreases a.len() - i,
{
    let s = a + seq![x] + b;
    if i < a.len() {
        assert(s[i] == a[i]);
        next_in_is_where(a, x, b, k, i + 1);
    } else {
        assert(s[i] == x);
    }
}

proof fn next_in_of_none(a: Seq<char>, k: Class, i: int)
    requires
        0 <= i <= a.len(),
        forall|j: int| 0 <= j < a.len() ==> !k.holds(#[trigger] a[j]),
    ensures
        next_in(a, k, i) == a.len(),
    decreases a.len() - i,
{
    if i < a.len() {
        next_in_of_none(a, k, i + 1);
    }
}

/// A run of a class ends where something else begins.
pub proof fn next_out_of_all(a: Seq<char>, b: Seq<char>, k: Class, i: int)
    requires
        0 <= i <= a.len(),
        forall|j: int| 0 <= j < a.len() ==> k.holds(#[trigger] a[j]),
        b.len() > 0 ==> !k.holds(b[0]),
    ensures
        next_out(a + b, k, i) == a.len(),
    decreases a.len() - i,
{
    let s = a + b;
    if i < a.len() {
        assert(s[i] == a[i]);
        next_out_of_all(a, b, k, i + 1);
    } else if b.len() > 0 {
        assert(s[i] == b[0]);
    }
}

proof fn split_behind(a: Seq<char>, b: Seq<char>, k: Class, i: int)
    requires
        0 <= i <= b.len(),
    ensures
        split_from(a + b, k, a.len() + i) == split_from(b, k, i),
    decreases b.len() - i,
{
    next_in_behind(a, b, k, i);
    next_in_is_first(b, k, i);
    let s = a + b;
    let j = next_in(b, k, i);
    assert(s.subrange(a.len() + i, a.len() + j) =~= b.subrange(i, j));
    if j < b.len() {
        split_behind(a, b, k, j + 1);
    }
}

/// A text without a character of the class is one piece.
pub proof fn uncut_is_one_piece(a: Seq<char>, k: Class)
    requires
        forall|j: int| 0 <= j < a.len() ==> !k.holds(#[trigger] a[j]),
    ensures
        split(a, k) == seq![a],
{
    next_in_of_none(a, k, 0);
    assert(a.subrange(0, a.len() as int) =~= a);
}

/// The first piece ends at the first character of the class, and the others
/// are those of what follows it.
pub proof fn first_piece_ends_at_the_cut(a: Seq<char>, x: char, b: Seq<char>, k: Class)
    requires
        forall|j: int| 0 <= j < a.len() ==> !k.holds(#[trigger] a[j]),
        k.holds(x),
    ensures
        split(a + seq![x] + b, k) == seq![a] + split(b, k),
{
    let s = a + seq![x] + b;
    next_in_is_where(a, x, b, k, 0);
    assert(s.subrange(0, a.len() as int) =~= a);
    let h = a + seq![x];
    split_behind(h, b, k, 0);
    assert(h.len() == a.len() + 1);
}

/// Joining pieces with a character that none of them holds, and cutting the
/// text there, gives the pieces back.
pub proof fn split_undoes_join(parts: Seq<Seq<char>>, c: char)
    requires
        parts.len() >= 1,
        forall|i: int| 0 <= i < parts.len() ==> !(#[trigger] parts[i]).contains(c),
    ensures
        split(join(parts, seq![c]), Class::Is(c)) == parts,
    decreases parts.len(),
{
    let k = Class::Is(c);
    let first = parts[0];
    assert(!parts[0].contains(c));
    assert forall|j: int| 0 <= j < first.len() implies !k.holds(#[trigger] first[j]) by {
        if first[j] == c {
            assert(first.contains(c));
        }
    }
    if parts.len() == 1 {
        uncut_is_one_piece(first, k);
        assert(parts =~= seq![first]);
    } else {
        let rest = parts.subrange(1, parts.len() as int);
        assert forall|i: int| 0 <= i < rest.len() implies !(#[trigger] rest[i]).contains(c) by {
            assert(rest[i] == parts[i + 1]);
        }
        split_undoes_join(rest, c);
        assert(parts =~= seq![first] + rest);
        join_front(first, rest, seq![c]);
        first_piece_ends_at_the_cut(first, c, join(rest, seq![c]), k);
    }
}

proof fn words_behind(a: Seq<char>, b: Seq<char>, k: Class, i: int)
    requires
        0 <= i <= b.len(),
    ensures
        words_from(a + b, k, a.len() + i) == words_from(b, k, i),
    decreases b.len() - i,
{
    next_out_behind(a, b, k, i);
    next_out_is_first(b, k, i);
    let s = a + b;
    let p = next_out(b, k, i);
    if p < b.len() {
        next_in_behind(a, b, k, p);
        next_in_is_first(b, k, p);
        let q = next_in(b, k, p);
        assert(s.subrange(a.len() + p, a.len() + q) =~= b.subrange(p, q));
        words_behind(a, b, k, q);
    }
}

/// White space before a text changes none of its words.
pub proof fn words_skip_white_space(a: Seq<char>, b: Seq<char>)
    requires
        forall|j: int| 0 <= j < a.len() ==> is_white(#[trigger] a[j]),
    ensures
        words(a + b) == words(b),
    decreases a.len(),
{
    if a.len() == 0 {
        assert(a + b =~= b);
    } else {
        let k = Class::White;
        let s = a + b;
        white_is_skipped(a, b, 0);
        words_behind(a, b, k, 0);
    }
}

proof fn white_is_skipped(a: Seq<char>, b: Seq<char>, i: int)
    requires
        0 <= i <= a.len(),
        forall|j: int| 0 <= j < a.len() ==> is_white(#[trigger] a[j]),
    ensures
        words_from(a + b, Class::White, i) == words_from(a + b, Class::White, a.len() as int),
    decreases a.len() - i,
{
    if i < a.len() {
        let s = a + b;
        assert(s[i] == a[i]);
        assert(Class::White.holds(s[i]));
        white_is_skipped(a, b, i + 1);
        assert(next_out(s, Class::White, i) == next_out(s, Class::White, i + 1));
        next_out_is_first(s, Class::White, i + 1);
    }
}

/// A word ends at the first white space behind it.
pub proof fn first_word_ends_at_white_space(w: Seq<char>, x: char, b: Seq<char>)
    requires
        w.len() > 0,
        forall|j: int| 0 <= j < w.len() ==> !is_white(#[trigger] w[j]),
        is_white(x),
    ensures
        words(w + seq![x] + b) == seq![w] + words(b),
{
    let k = Class::White;
    let s = w + seq![x] + b;
    assert(s[0] == w[0]);
    assert(!k.holds(s[0]));
    assert(next_out(s, k, 0) == 0);
    next_in_is_where(w, x, b, k, 0);
    assert(s.subrange(0, w.len() as int) =~= w);
    let r = seq![x] + b;
    assert(s =~= w + r);
    words_behind(w, r, k, 0);
    words_skip_white_space(seq![x], b);
}

/// A text without white space is one word.
pub proof fn unbroken_is_one_word(w: Seq<char>)
    requires
        w.len() > 0,
        forall|j: int| 0 <= j < w.len() ==> !is_white(#[trigger] w[j]),
    ensures
        words(w) == seq![w],
{
    let k = Class::White;
    assert(next_out(w, k, 0) == 0) by {
        assert(!k.holds(w[0]));
    }
    next_in_of_none(w, k, 0);
    assert(w.subrange(0, w.len() as int) =~= w);
    assert(next_out(w, k, w.len() as int) == w.len());
    assert(words_from(w, k, w.len() as int) =~= seq![]);
}

/// Whether a text is a word: it has characters, and none is white space.
pub open spec fn is_word(w: Seq<char>) -> bool {
    w.len() > 0 && forall|j: int| 0 <= j < w.len() ==> !is_white(#[trigger] w[j])
}

/// Words with spaces between them are read as these words.
pub proof fn words_undo_join(ws: Seq<Seq<char>>)
    requires
        forall|i: int| 0 <= i < ws.len() ==> is_word(#[trigger] ws[i]),
    ensures
        words(join(ws, seq![' '])) == ws,
    decreases ws.len(),
{
    if ws.len() == 0 {
        let s = join(ws, seq![' ']);
        assert(s =~= seq![]);
        assert(words(s) =~= ws);
    } else if ws.len() == 1 {
        assert(is_word(ws[0]));
        unbroken_is_one_word(ws[0]);
        assert(ws =~= seq![ws[0]]);
    } else {
        let rest = ws.subrange(1, ws.len() as int);
        assert forall|i: int| 0 <= i < rest.len() implies is_word(#[trigger] rest[i]) by {
            assert(rest[i] == ws[i + 1]);
        }
        words_undo_join(rest);
        assert(ws =~= seq![ws[0]] + rest);
        assert(is_word(ws[0]));
        join_front(ws[0], rest, seq![' ']);
        first_word_ends_at_white_space(ws[0], ' ', join(rest, seq![' ']));
    }
}

/// The first line ends at the first line feed, with or without a carriage
/// return before it.
pub proof fn first_line_ends_at_the_feed(l: Seq<char>, b: Seq<char>)
    requires
        !l.contains('\n'),
    ensures
        l.len() == 0 || l.last() != '\r' ==> lines(l + seq!['\n'] + b) == seq![l] + lines(b),
        lines(l + seq!['\r', '\n'] + b) == seq![l] + lines(b),
{
    let k = Class::Is('\n');
    assert forall|j: int| 0 <= j < l.len() implies !k.holds(#[trigger] l[j]) by {
        if l[j] == '\n' {
            assert(l.contains('\n'));
        }
    }
    first_piece_ends_at_the_cut(l, '\n', b, k);
    join_undoes_split_from(b, '\n', 0);
    let p = split(b, k);
    let s = l + seq!['\n'] + b;
    let q = split(s, k);
    assert(q.last() == p.last());
    if l.len() == 0 || l.last() != '\r' {
        assert(lines(s) =~= seq![l] + lines(b));
    }
    let lr = l.push('\r');
    first_piece_ends_at_the_cut(lr, '\n', b, k);
    let s2 = lr + seq!['\n'] + b;
    assert(l + seq!['\r', '\n'] + b =~= s2);
    let q2 = split(s2, k);
    assert(q2.last() == p.last());
    assert(strip_cr(lr) =~= l);
    assert(lines(s2) =~= seq![l] + lines(b));
}

/// A last line without a line feed counts as long as it is not empty.
pub proof fn last_line_needs_no_feed(l: Seq<char>)
    requires
        !l.contains('\n'),
    ensures
        lines(l) == if l.len() == 0 {
            Seq::<Seq<char>>::empty()
        } else {
            seq![l]
        },
{
    let k = Class::Is('\n');
    assert forall|j: int| 0 <= j < l.len() implies !k.holds(#[trigger] l[j]) by {
        if l[j] == '\n' {
            assert(l.contains('\n'));
        }
    }
    uncut_is_one_piece(l, k);
    assert(lines(l) =~= if l.len() == 0 {
        Seq::<Seq<char>>::empty()
    } else {
        seq![l]
    });
}

/// A text is cut once at its first character of a class.
pub proof fn cut_once_is_at_the_first(a: Seq<char>, x: char, b: Seq<char>, k: Class)
    requires
        forall|j: int| 0 <= j < a.len() ==> !k.holds(#[trigger] a[j]),
        k.holds(x),
    ensures
        split_once(a + seq![x] + b, k) == Some((a, b)),
        split_once(a, k) is None,
{
    let s = a + seq![x] + b;
    next_in_is_where(a, x, b, k, 0);
    next_in_of_none(a, k, 0);
    assert(s.subrange(0, a.len() as int) =~= a);
    assert(s.subrange(a.len() as int + 1, s.len() as int) =~= b);
}

proof fn last_in_is_where(a: Seq<char>, x: char, b: Seq<char>, k: Class, n: int)
    requires
        a.len() < n <= a.len() + 1 + b.len(),
        forall|j: int| 0 <= j < b.len() ==> !k.holds(#[trigger] b[j]),
        k.holds(x),
    ensures
        last_in(a + seq![x] + b, k, n) == a.len(),
    decreases n,
{
    let s = a + seq![x] + b;
    if n - 1 > a.len() {
        assert(s[n - 1] == b[n - 2 - a.len()]);
        last_in_is_where(a, x, b, k, n - 1);
    } else {
        assert(s[n - 1] == x);
    }
}

/// A text is cut from the back at its last character of a class.
pub proof fn rcut_once_is_at_the_last(a: Seq<char>, x: char, b: Seq<char>, k: Class)
    requires
        forall|j: int| 0 <= j < b.len() ==> !k.holds(#[trigger] b[j]),
        k.holds(x),
    ensures
        rsplit_once(a + seq![x] + b, k) == Some((a, b)),
{
    let s = a + seq![x] + b;
    last_in_is_where(a, x, b, k, s.len() as int);
    assert(s.subrange(0, a.len() as int) =~= a);
    assert(s.subrange(a.len() as int + 1, s.len() as int) =~= b);
}

/// A text holds another exactly if that one stands in it with something, or
/// nothing, before and behind it; likewise at its start and its end.
pub proof fn holding_is_standing_between(s: Seq<char>, p: Seq<char>)
    ensures
        contains(s, p) <==> exists|a: Seq<char>, b: Seq<char>| s == #[trigger] (a + p + b),
        starts_with(s, p) <==> exists|b: Seq<char>| s == #[trigger] (p + b),
        ends_with(s, p) <==> exists|a: Seq<char>| s == #[trigger] (a + p),
{
    if contains(s, p) {
        let i = choose|i: int| occurs_at(s, p, i);
        let a = s.subrange(0, i);
        let b = s.subrange(i + p.len(), s.len() as int);
        assert(s =~= a + p + b);
    }
    if exists|a: Seq<char>, b: Seq<char>| s == #[trigger] (a + p + b) {
        let (a, b) = choose|a: Seq<char>, b: Seq<char>| s == #[trigger] (a + p + b);
        assert(s.subrange(a.len() as int, a.len() as int + p.len()) =~= p);
        assert(occurs_at(s, p, a.len() as int));
    }
    if starts_with(s, p) {
        assert(s =~= p + s.subrange(p.len() as int, s.len() as int));
    }
    if exists|b: Seq<char>| s == #[trigger] (p + b) {
        let b = choose|b: Seq<char>| s == #[trigger] (p + b);
        assert(s.subrange(0, p.len() as int) =~= p);
    }
    if ends_with(s, p) {
        assert(s =~= s.subrange(0, s.len() - p.len()) + p);
    }
    if exists|a: Seq<char>| s == #[trigger] (a + p) {
        let a = choose|a: Seq<char>| s == #[trigger] (a + p);
        assert(s.subrange(s.len() - p.len(), s.len() as int) =~= p);
    }
}

/// Taking a text off the start or the end gives what stands before or behind
/// it.
pub proof fn stripping_undoes_adding(a: Seq<char>, p: Seq<char>)
    ensures
        strip_prefix(p + a, p) == Some(a),
        strip_suffix(a + p, p) == Some(a),
{
    assert((p + a).subrange(0, p.len() as int) =~= p);
    assert((p + a).subrange(p.len() as int, (p + a).len() as int) =~= a);
    let s = a + p;
    assert(s.subrange(s.len() - p.len(), s.len() as int) =~= p);
    assert(s.subrange(0, s.len() - p.len()) =~= a);
}

proof fn end_out_of_all(a: Seq<char>, b: Seq<char>, k: Class, n: int)
    requires
        a.len() <= n <= a.len() + b.len(),
        forall|j: int| 0 <= j < b.len() ==> k.holds(#[trigger] b[j]),
        a.len() > 0 ==> !k.holds(a.last()),
    ensures
        end_out(a + b, k, n) == a.len(),
    decreases n,
{
    let s = a + b;
    if n > a.len() {
        assert(s[n - 1] == b[n - 1 - a.len()]);
        end_out_of_all(a, b, k, n - 1);
    } else if n > 0 {
        assert(s[n - 1] == a.last());
    }
}

/// Trimming takes off what belongs to the class at both ends, and nothing
/// else.
pub proof fn trimming_takes_the_ends(a: Seq<char>, t: Seq<char>, b: Seq<char>, k: Class)
    requires
        forall|j: int| 0 <= j < a.len() ==> k.holds(#[trigger] a[j]),
        forall|j: int| 0 <= j < b.len() ==> k.holds(#[trigger] b[j]),
        t.len() > 0,
        !k.holds(t[0]),
        !k.holds(t.last()),
    ensures
        trim(a + t + b, k) == t,
        trim_start(a + t, k) == t,
        trim_end(t + b, k) == t,
{
    let s = a + t + b;
    assert(s =~= a + (t + b));
    next_out_of_all(a, t + b, k, 0);
    assert(s.subrange(a.len() as int, s.len() as int) =~= t + b);
    end_out_of_all(t, b, k, (t + b).len() as int);
    assert((t + b).subrange(0, t.len() as int) =~= t);
    next_out_of_all(a, t, k, 0);
    assert((a + t).subrange(a.len() as int, (a + t).len() as int) =~= t);
}

/// Two texts are the same but for the case of ASCII letters exactly if they
/// have the same length and, at each place, the same character or the same
/// letter in both cases.
pub proof fn ignoring_case_is_by_letter(a: Seq<char>, b: Seq<char>)
    ensures
        same_ignoring_case(a, b) <==> {
            &&& a.len() == b.len()
            &&& forall|i: int|
                0 <= i < a.len() ==> {
                    ||| #[trigger] a[i] == b[i]
                    ||| 'A' <= a[i] <= 'Z' && b[i] as u32 == a[i] as u32 + 32
                    ||| 'A' <= b[i] <= 'Z' && a[i] as u32 == b[i] as u32 + 32
                }
        },
{
    if same_ignoring_case(a, b) {
        assert(lower(a).len() == lower(b).len());
        assert forall|i: int| 0 <= i < a.len() implies {
            ||| #[trigger] a[i] == b[i]
            ||| 'A' <= a[i] <= 'Z' && b[i] as u32 == a[i] as u32 + 32
            ||| 'A' <= b[i] <= 'Z' && a[i] as u32 == b[i] as u32 + 32
        } by {
            assert(lower(a)[i] == lower(b)[i]);
        }
    }
    if a.len() == b.len() && forall|i: int|
        0 <= i < a.len() ==> {
            ||| #[trigger] a[i] == b[i]
            ||| 'A' <= a[i] <= 'Z' && b[i] as u32 == a[i] as u32 + 32
            ||| 'A' <= b[i] <= 'Z' && a[i] as u32 == b[i] as u32 + 32
        } {
        assert forall|i: int| 0 <= i < a.len() implies lower(a)[i] == lower(b)[i] by {
            assert(a[i] == b[i] || 'A' <= a[i] <= 'Z' || 'A' <= b[i] <= 'Z');
        }
        assert(lower(a) =~= lower(b));
    }
}

/// What a text holds, every longer text around it holds too.
pub proof fn longer_text_holds_it(a: Seq<char>, b: Seq<char>, p: Seq<char>)
    ensures
        contains(a, p) || contains(b, p) ==> contains(a + b, p),
        contains(p, p),
{
    if contains(a, p) {
        let i = choose|i: int| occurs_at(a, p, i);
        assert((a + b).subrange(i, i + p.len()) =~= a.subrange(i, i + p.len()));
        assert(occurs_at(a + b, p, i));
    }
    if contains(b, p) {
        let i = choose|i: int| occurs_at(b, p, i);
        let n = a.len() + i;
        assert((a + b).subrange(n, n + p.len()) =~= b.subrange(i, i + p.len()));
        assert(occurs_at(a + b, p, n));
    }
    assert(p.subrange(0, p.len() as int) =~= p);
    assert(occurs_at(p, p, 0));
}

/// A text holds what any text in it holds.
pub proof fn holding_goes_on(s: Seq<char>, t: Seq<char>, p: Seq<char>)
    requires
        contains(s, t),
        contains(t, p),
    ensures
        contains(s, p),
{
    let i = choose|i: int| occurs_at(s, t, i);
    let j = choose|j: int| occurs_at(t, p, j);
    assert(s.subrange(i, i + t.len()).subrange(j, j + p.len()) =~= s.subrange(
        i + j,
        i + j + p.len(),
    ));
    assert(occurs_at(s, p, i + j));
}

/// Trimming the end of a text leaves what does not end in white space.
pub proof fn trimming_leaves_what_is_black(s: Seq<char>, p: Seq<char>)
    requires
        contains(s, p),
        p.len() > 0,
        !is_white(p.last()),
    ensures
        contains(trim_end(s, Class::White), p),
{
    let i = choose|i: int| occurs_at(s, p, i);
    let n = i + p.len();
    let e = end_out(s, Class::White, s.len() as int);
    end_out_is_last(s, Class::White, s.len() as int);
    assert(s.subrange(i, n)[p.len() - 1] == s[n - 1]);
    let t = s.subrange(0, e);
    assert(t.subrange(i, n) =~= s.subrange(i, n));
    assert(occurs_at(t, p, i));
}

/// A joined text holds each of its parts.
pub proof fn joined_text_holds_its_parts(parts: Seq<Seq<char>>, sep: Seq<char>, i: int)
    requires
        0 <= i < parts.len(),
    ensures
        contains(join(parts, sep), parts[i]),
    decreases parts.len(),
{
    if parts.len() == 1 {
        longer_text_holds_it(parts[0], parts[0], parts[0]);
    } else {
        let before = join(parts.drop_last(), sep);
        if i < parts.len() - 1 {
            joined_text_holds_its_parts(parts.drop_last(), sep, i);
            assert(parts.drop_last()[i] == parts[i]);
        }
        longer_text_holds_it(before, sep, parts[i]);
        longer_text_holds_it(parts.last(), sep, parts.last());
        longer_text_holds_it(before + sep, parts.last(), parts[i]);
    }
}

/// A text is cut once where another first stands in it, and not where that one
/// does not stand in it at all.
pub proof fn cut_once_is_where_it_first_stands(a: Seq<char>, p: Seq<char>, b: Seq<char>)
    requires
        forall|i: int| 0 <= i < a.len() ==> !occurs_at(a + p + b, p, i),
    ensures
        split_once_str(a + p + b, p) == Some((a, b)),
        before_str(a + p + b, p) == a,
{
    let s = a + p + b;
    let n = a.len() as int;
    find_from_is_first(s, p, 0);
    assert(s.subrange(n, n + p.len()) =~= p);
    assert(occurs_at(s, p, n));
    assert(s.subrange(0, n) =~= a);
    assert(s.subrange(n + p.len(), s.len() as int) =~= b);
}

/// A text that another does not hold is not cut there.
pub proof fn uncut_where_it_does_not_stand(s: Seq<char>, p: Seq<char>)
    requires
        !contains(s, p),
    ensures
        split_once_str(s, p) is None,
        before_str(s, p) == s,
{
    find_from_is_first(s, p, 0);
}

/// A text at the end is taken off as often as it stands there.
pub proof fn ends_are_taken_off(s: Seq<char>, p: Seq<char>)
    requires
        p.len() > 0,
    ensures
        trim_end_str(s + p, p) == trim_end_str(s, p),
        !ends_with(s, p) ==> trim_end_str(s, p) == s,
{
    holding_is_standing_between(s + p, p);
    assert((s + p).subrange(0, s.len() as int) =~= s);
}

/// A letter in small is the letter 32 behind its capital; anything else stays.
pub proof fn capitals_become_small(s: Seq<char>, i: int)
    requires
        0 <= i < s.len(),
    ensures
        lower(s).len() == s.len(),
        'A' <= s[i] <= 'Z' ==> lower(s)[i] as u32 == s[i] as u32 + 32,
        !('A' <= s[i] <= 'Z') ==> lower(s)[i] == s[i],
{
}

} // verus!
