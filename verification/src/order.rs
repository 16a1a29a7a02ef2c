//! Stable sorting of positions by keys of several fields.

use vstd::prelude::*;

use crate::text;
use crate::text::chars_of;

verus! {

/// A sort key: fields that are compared one after the other, each a list of
/// numbers.
pub type Key = Seq<Seq<i64>>;

/// The field for a text: its characters in order.
pub open spec fn text_field(s: Seq<char>) -> Seq<i64> {
    Seq::new(s.len(), |i: int| s[i] as u32 as i64)
}

/// The comparison of two fields from position `i` on: negative, zero or
/// positive as `a` comes before, with or behind `b`.
pub open spec fn field_order(a: Seq<i64>, b: Seq<i64>, i: int) -> int
    decreases a.len() - i,
{
    if i >= a.len() && i >= b.len() {
        0
    } else if i >= a.len() {
        -1
    } else if i >= b.len() {
        1
    } else if a[i] < b[i] {
        -1
    } else if a[i] > b[i] {
        1
    } else {
        field_order(a, b, i + 1)
    }
}

/// The comparison of two keys from field `i` on.
pub open spec fn key_order(a: Key, b: Key, i: int) -> int
    decreases a.len() - i,
{
    if i >= a.len() && i >= b.len() {
        0
    } else if i >= a.len() {
        -1
    } else if i >= b.len() {
        1
    } else if field_order(a[i], b[i], 0) != 0 {
        field_order(a[i], b[i], 0)
    } else {
        key_order(a, b, i + 1)
    }
}

/// Whether `a` has to stand before `b`.
pub open spec fn precedes(a: Key, b: Key, desc: bool) -> bool {
    if desc {
        key_order(a, b, 0) > 0
    } else {
        key_order(a, b, 0) < 0
    }
}

/// `s` with `x` put in: before the entries at the end that `x` precedes.
pub open spec fn place(s: Seq<usize>, x: usize, keys: Seq<Key>, desc: bool) -> Seq<usize>
    decreases s.len(),
{
    if s.len() == 0 || !precedes(keys[x as int], keys[s.last() as int], desc) {
        s.push(x)
    } else {
        place(s.drop_last(), x, keys, desc).push(s.last())
    }
}

/// The positions `idx` sorted by their keys; those with the same key keep
/// their order.
pub open spec fn sorted(idx: Seq<usize>, keys: Seq<Key>, desc: bool) -> Seq<usize>
    decreases idx.len(),
{
    if idx.len() == 0 {
        seq![]
    } else {
        place(sorted(idx.drop_last(), keys, desc), idx.last(), keys, desc)
    }
}

// ---------- comparing ----------

fn compare_fields(a: &Vec<i64>, b: &Vec<i64>) -> (r: i8)
    ensures
        r == field_order(a@, b@, 0),
{
    let mut i: usize = 0;
    while i < a.len() && i < b.len()
        invariant
            i <= a@.len(),
            i <= b@.len(),
            field_order(a@, b@, 0) == field_order(a@, b@, i as int),
        decreases a@.len() - i,
    {
        if a[i] < b[i] {
            return -1;
        }
        if a[i] > b[i] {
            return 1;
        }
        i += 1;
    }
    if i < a.len() {
        1
    } else if i < b.len() {
        -1
    } else {
        0
    }
}

fn compare_keys(a: &Vec<Vec<i64>>, b: &Vec<Vec<i64>>) -> (r: i8)
    ensures
        r == key_order(text::views(a@), text::views(b@), 0),
{
    let ghost x = text::views(a@);
    let ghost y = text::views(b@);
    let mut i: usize = 0;
    while i < a.len() && i < b.len()
        invariant
            x == text::views(a@),
            y == text::views(b@),
            i <= a@.len(),
            i <= b@.len(),
            key_order(x, y, 0) == key_order(x, y, i as int),
        decreases a@.len() - i,
    {
        let o = compare_fields(&a[i], &b[i]);
        assert(x[i as int] == a@[i as int]@);
        assert(y[i as int] == b@[i as int]@);
        if o != 0 {
            return o;
        }
        i += 1;
    }
    if i < a.len() {
        1
    } else if i < b.len() {
        -1
    } else {
        0
    }
}

/// What a list of keys shows.
pub open spec fn keys_view(keys: Seq<Vec<Vec<i64>>>) -> Seq<Key> {
    Seq::new(keys.len(), |i: int| text::views(keys[i]@))
}

/// Pushing a key pushes what it shows.
pub broadcast proof fn keys_view_push(keys: Seq<Vec<Vec<i64>>>, k: Vec<Vec<i64>>)
    ensures
        #[trigger] keys_view(keys.push(k)) == keys_view(keys).push(text::views(k@)),
{
    assert(keys_view(keys.push(k)) =~= keys_view(keys).push(text::views(k@)));
}

/// The field for a text.
pub fn field_of_text(s: &str) -> (r: Vec<i64>)
    ensures
        r@ == text_field(s@),
{
    let c = chars_of(s);
    let mut out: Vec<i64> = Vec::new();
    let mut i: usize = 0;
    while i < c.len()
        invariant
            c@ == s@,
            i <= c@.len(),
            out@.len() == i,
            forall|j: int| 0 <= j < i ==> out@[j] == s@[j] as u32 as i64,
        decreases c@.len() - i,
    {
        out.push(c[i] as u32 as i64);
        i += 1;
    }
    assert(out@ =~= text_field(s@));
    out
}

/// The field for a number.
pub fn field_of_number(n: i64) -> (r: Vec<i64>)
    ensures
        r@ == seq![n],
{
    let mut out: Vec<i64> = Vec::new();
    out.push(n);
    assert(out@ =~= seq![n]);
    out
}

/// The key of one field.
pub fn key_of_one(a: Vec<i64>) -> (r: Vec<Vec<i64>>)
    ensures
        text::views(r@) == seq![a@],
{
    let mut out: Vec<Vec<i64>> = Vec::new();
    out.push(a);
    assert(text::views(out@) =~= seq![a@]);
    out
}

/// The key of two fields.
pub fn key_of_two(a: Vec<i64>, b: Vec<i64>) -> (r: Vec<Vec<i64>>)
    ensures
        text::views(r@) == seq![a@, b@],
{
    let mut out: Vec<Vec<i64>> = Vec::new();
    out.push(a);
    out.push(b);
    assert(text::views(out@) =~= seq![a@, b@]);
    out
}

/// The key of three fields.
pub fn key_of_three(a: Vec<i64>, b: Vec<i64>, c: Vec<i64>) -> (r: Vec<Vec<i64>>)
    ensures
        text::views(r@) == seq![a@, b@, c@],
{
    let mut out: Vec<Vec<i64>> = Vec::new();
    out.push(a);
    out.push(b);
    out.push(c);
    assert(text::views(out@) =~= seq![a@, b@, c@]);
    out
}

// ---------- sorting ----------

proof fn place_at(s: Seq<usize>, x: usize, keys: Seq<Key>, desc: bool, n: int)
    requires
        0 <= n <= s.len(),
        forall|i: int| n <= i < s.len() ==> precedes(keys[x as int], keys[#[trigger] s[i] as int], desc),
        n > 0 ==> !precedes(keys[x as int], keys[s[n - 1] as int], desc),
    ensures
        place(s, x, keys, desc) == s.insert(n, x),
    decreases s.len(),
{
    if n == s.len() {
        assert(s.insert(n, x) =~= s.push(x));
    } else {
        assert(precedes(keys[x as int], keys[s[s.len() - 1] as int], desc));
        place_at(s.drop_last(), x, keys, desc, n);
        assert(s.insert(n, x) =~= s.drop_last().insert(n, x).push(s.last()));
    }
}

/// See the spec function `sorted`.
pub fn sort(idx: &Vec<usize>, keys: &Vec<Vec<Vec<i64>>>, desc: bool) -> (r: Vec<usize>)
    requires
        forall|i: int| 0 <= i < idx@.len() ==> #[trigger] idx@[i] < keys@.len(),
    ensures
        r@ == sorted(idx@, keys_view(keys@), desc),
        r@.len() == idx@.len(),
        forall|i: int| 0 <= i < r@.len() ==> #[trigger] r@[i] < keys@.len(),
{
    let ghost ks = keys_view(keys@);
    let mut out: Vec<usize> = Vec::new();
    let mut a: usize = 0;
    assert(idx@.take(0) =~= seq![]);
    while a < idx.len()
        invariant
            ks == keys_view(keys@),
            forall|i: int| 0 <= i < idx@.len() ==> #[trigger] idx@[i] < keys@.len(),
            a <= idx@.len(),
            out@ == sorted(idx@.take(a as int), ks, desc),
            out@.len() == a,
            forall|i: int| 0 <= i < out@.len() ==> #[trigger] out@[i] < keys@.len(),
        decreases idx@.len() - a,
    {
        let x: usize = idx[a];
        let mut n: usize = out.len();
        while n > 0
            invariant
                ks == keys_view(keys@),
                x < keys@.len(),
                n <= out@.len(),
                forall|i: int| 0 <= i < out@.len() ==> #[trigger] out@[i] < keys@.len(),
                forall|i: int|
                    n <= i < out@.len() ==> precedes(ks[x as int], ks[#[trigger] out@[i] as int], desc),
            ensures
                n <= out@.len(),
                forall|i: int|
                    n <= i < out@.len() ==> precedes(ks[x as int], ks[#[trigger] out@[i] as int], desc),
                n > 0 ==> !precedes(ks[x as int], ks[out@[n - 1] as int], desc),
            decreases n,
        {
            let y: usize = out[n - 1];
            let o = compare_keys(&keys[x], &keys[y]);
            assert(ks[x as int] == text::views(keys@[x as int]@));
            assert(ks[y as int] == text::views(keys@[y as int]@));
            let first = if desc {
                o > 0
            } else {
                o < 0
            };
            if !first {
                break;
            }
            n -= 1;
        }
        let ghost was = out@;
        out.insert(n, x);
        proof {
            place_at(was, x, ks, desc, n as int);
            assert(idx@.take(a + 1).drop_last() =~= idx@.take(a as int));
            assert(idx@.take(a + 1).last() == x);
            assert forall|i: int| 0 <= i < out@.len() implies #[trigger] out@[i] < keys@.len() by {
                if i < n {
                    assert(out@[i] == was[i]);
                } else if i > n {
                    assert(out@[i] == was[i - 1]);
                }
            }
        }
        a += 1;
    }
    assert(idx@.take(a as int) =~= idx@);
    out
}

/// The items at these positions.
pub open spec fn arranged<T>(items: Seq<T>, idx: Seq<usize>) -> Seq<T> {
    Seq::new(idx.len(), |i: int| items[idx[i] as int])
}

/// All positions below `n`.
pub open spec fn all_positions(n: nat) -> Seq<usize> {
    Seq::new(n, |i: int| i as usize)
}

/// All positions below `n`.
pub fn positions(n: usize) -> (r: Vec<usize>)
    ensures
        r@ == all_positions(n as nat),
{
    let mut out: Vec<usize> = Vec::new();
    let mut i: usize = 0;
    while i < n
        invariant
            i <= n,
            out@.len() == i,
            forall|j: int| 0 <= j < i ==> out@[j] == j,
        decreases n - i,
    {
        out.push(i);
        i += 1;
    }
    assert(out@ =~= all_positions(n as nat));
    out
}

// ---------- laws ----------

proof fn field_order_flips(a: Seq<i64>, b: Seq<i64>, i: int)
    requires
        0 <= i,
    ensures
        field_order(a, b, i) == -field_order(b, a, i),
    decreases a.len() - i,
{
    if i < a.len() && i < b.len() && a[i] == b[i] {
        field_order_flips(a, b, i + 1);
    }
}

proof fn field_order_chains(a: Seq<i64>, b: Seq<i64>, c: Seq<i64>, i: int)
    requires
        0 <= i,
        field_order(a, b, i) <= 0,
        field_order(b, c, i) <= 0,
    ensures
        field_order(a, c, i) <= 0,
        field_order(a, c, i) == 0 ==> field_order(a, b, i) == 0 && field_order(b, c, i) == 0,
    decreases a.len() - i,
{
    if i < a.len() && i < b.len() && i < c.len() && a[i] == b[i] && b[i] == c[i] {
        field_order_chains(a, b, c, i + 1);
    }
}

proof fn key_order_flips(a: Key, b: Key, i: int)
    requires
        0 <= i,
    ensures
        key_order(a, b, i) == -key_order(b, a, i),
    decreases a.len() - i,
{
    if i < a.len() && i < b.len() {
        field_order_flips(a[i], b[i], 0);
        if field_order(a[i], b[i], 0) == 0 {
            key_order_flips(a, b, i + 1);
        }
    }
}

proof fn key_order_chains(a: Key, b: Key, c: Key, i: int)
    requires
        0 <= i,
        key_order(a, b, i) <= 0,
        key_order(b, c, i) <= 0,
    ensures
        key_order(a, c, i) <= 0,
        key_order(a, c, i) == 0 ==> key_order(a, b, i) == 0 && key_order(b, c, i) == 0,
    decreases a.len() - i,
{
    if i < a.len() && i < b.len() && i < c.len() {
        field_order_chains(a[i], b[i], c[i], 0);
        if field_order(a[i], c[i], 0) == 0 {
            key_order_chains(a, b, c, i + 1);
        }
    }
}

/// Whether `x` may stand before `y` in sorted output: its key comes first, or
/// the keys are the same and `x` came first.
pub open spec fn in_order(x: usize, y: usize, keys: Seq<Key>, desc: bool) -> bool {
    precedes(keys[x as int], keys[y as int], desc) || (key_order(
        keys[x as int],
        keys[y as int],
        0,
    ) == 0 && x < y)
}

proof fn in_order_chains(x: usize, y: usize, z: usize, keys: Seq<Key>, desc: bool)
    requires
        in_order(x, y, keys, desc),
        in_order(y, z, keys, desc),
    ensures
        in_order(x, z, keys, desc),
{
    let (a, b, c) = (keys[x as int], keys[y as int], keys[z as int]);
    key_order_flips(a, b, 0);
    key_order_flips(b, c, 0);
    key_order_flips(a, c, 0);
    if desc {
        key_order_chains(c, b, a, 0);
    } else {
        key_order_chains(a, b, c, 0);
    }
    if key_order(a, b, 0) == 0 && key_order(b, c, 0) == 0 {
        key_order_chains(a, b, c, 0);
        key_order_chains(c, b, a, 0);
    }
}

proof fn place_keeps_order(s: Seq<usize>, x: usize, keys: Seq<Key>, desc: bool)
    requires
        forall|i: int, j: int|
            0 <= i < j < s.len() ==> in_order(#[trigger] s[i], #[trigger] s[j], keys, desc),
        forall|i: int| 0 <= i < s.len() ==> #[trigger] s[i] < x,
    ensures
        ({
            let t = place(s, x, keys, desc);
            &&& t.len() == s.len() + 1
            &&& forall|y: usize| #[trigger] t.contains(y) <==> s.contains(y) || y == x
            &&& forall|i: int, j: int|
                0 <= i < j < t.len() ==> in_order(#[trigger] t[i], #[trigger] t[j], keys, desc)
        }),
    decreases s.len(),
{
    let t = place(s, x, keys, desc);
    if s.len() == 0 || !precedes(keys[x as int], keys[s.last() as int], desc) {
        assert(t[s.len() as int] == x);
        assert forall|y: usize| s.contains(y) implies #[trigger] t.contains(y) by {
            let i = choose|i: int| 0 <= i < s.len() && s[i] == y;
            assert(t[i] == y);
        }
        if s.len() > 0 {
            key_order_flips(keys[x as int], keys[s.last() as int], 0);
            assert(in_order(s.last(), x, keys, desc));
            assert forall|i: int, j: int| 0 <= i < j < t.len() implies in_order(
                #[trigger] t[i],
                #[trigger] t[j],
                keys,
                desc,
            ) by {
                if j == s.len() && i < s.len() - 1 {
                    assert(in_order(s[i], s[s.len() - 1], keys, desc));
                    in_order_chains(s[i], s.last(), x, keys, desc);
                }
            }
        }
    } else {
        let d = s.drop_last();
        assert forall|i: int, j: int| 0 <= i < j < d.len() implies in_order(
            #[trigger] d[i],
            #[trigger] d[j],
            keys,
            desc,
        ) by {
            assert(in_order(s[i], s[j], keys, desc));
        }
        place_keeps_order(d, x, keys, desc);
        let g = place(d, x, keys, desc);
        assert(t[g.len() as int] == s.last());
        assert forall|y: usize| #[trigger] t.contains(y) <==> s.contains(y) || y == x by {
            if s.contains(y) {
                let i = choose|i: int| 0 <= i < s.len() && s[i] == y;
                if i < d.len() {
                    assert(d[i] == y);
                    assert(g.contains(y));
                    let k = choose|k: int| 0 <= k < g.len() && g[k] == y;
                    assert(t[k] == y);
                }
            }
            if y == x {
                assert(g.contains(y));
                let k = choose|k: int| 0 <= k < g.len() && g[k] == y;
                assert(t[k] == y);
            }
            if t.contains(y) {
                let k = choose|k: int| 0 <= k < t.len() && t[k] == y;
                if k < g.len() {
                    assert(g[k] == y);
                    assert(g.contains(y));
                    if d.contains(y) {
                        let i = choose|i: int| 0 <= i < d.len() && d[i] == y;
                        assert(s[i] == y);
                    }
                } else {
                    assert(s[s.len() - 1] == y);
                }
            }
        }
        assert forall|i: int, j: int| 0 <= i < j < t.len() implies in_order(
            #[trigger] t[i],
            #[trigger] t[j],
            keys,
            desc,
        ) by {
            if j == g.len() {
                assert(g[i] == t[i]);
                assert(g.contains(t[i]));
                if t[i] != x {
                    let k = choose|k: int| 0 <= k < d.len() && d[k] == t[i];
                    assert(in_order(s[k], s[s.len() - 1], keys, desc));
                }
            } else {
                assert(g[i] == t[i]);
                assert(g[j] == t[j]);
            }
        }
    }
}

/// Sorting keeps exactly the positions it was given, and any two of them stand
/// in the order of their keys, and in their old order where the keys are the
/// same.
pub proof fn sorting_is_stable(idx: Seq<usize>, keys: Seq<Key>, desc: bool)
    requires
        forall|i: int, j: int| 0 <= i < j < idx.len() ==> #[trigger] idx[i] < #[trigger] idx[j],
    ensures
        ({
            let s = sorted(idx, keys, desc);
            &&& s.len() == idx.len()
            &&& forall|y: usize| #[trigger] s.contains(y) <==> idx.contains(y)
            &&& forall|i: int, j: int|
                0 <= i < j < s.len() ==> in_order(#[trigger] s[i], #[trigger] s[j], keys, desc)
        }),
    decreases idx.len(),
{
    if idx.len() > 0 {
        let d = idx.drop_last();
        let x = idx.last();
        sorting_is_stable(d, keys, desc);
        let g = sorted(d, keys, desc);
        assert forall|i: int| 0 <= i < g.len() implies #[trigger] g[i] < x by {
            assert(g.contains(g[i]));
            assert(d.contains(g[i]));
            let k = choose|k: int| 0 <= k < d.len() && d[k] == g[i];
            assert(idx[k] < idx[idx.len() - 1]);
        }
        place_keeps_order(g, x, keys, desc);
        let s = sorted(idx, keys, desc);
        assert forall|y: usize| #[trigger] s.contains(y) <==> idx.contains(y) by {
            if idx.contains(y) {
                let k = choose|k: int| 0 <= k < idx.len() && idx[k] == y;
                if k < d.len() {
                    assert(d[k] == y);
                    assert(d.contains(y));
                }
            }
            if d.contains(y) {
                let k = choose|k: int| 0 <= k < d.len() && d[k] == y;
                assert(idx[k] == y);
            }
            if y == x {
                assert(idx[idx.len() - 1] == y);
            }
        }
    }
}

proof fn same_front(p: Seq<i64>, a: Seq<i64>, b: Seq<i64>, i: int)
    requires
        0 <= i <= p.len(),
    ensures
        field_order(p + a, p + b, i) == field_order(p + a, p + b, p.len() as int),
    decreases p.len() - i,
{
    if i < p.len() {
        same_front(p, a, b, i + 1);
    }
}

/// Two lists are compared at the first place where they differ: the smaller
/// number comes first, and a list that ends comes before one that goes on.
pub proof fn first_difference_decides(p: Seq<i64>, x: i64, a: Seq<i64>, y: i64, b: Seq<i64>)
    ensures
        x < y ==> field_order(p + (seq![x] + a), p + (seq![y] + b), 0) < 0,
        x > y ==> field_order(p + (seq![x] + a), p + (seq![y] + b), 0) > 0,
        field_order(p, p + (seq![y] + b), 0) < 0,
        field_order(p + (seq![x] + a), p, 0) > 0,
        field_order(p, p, 0) == 0,
{
    let none = Seq::<i64>::empty();
    same_front(p, seq![x] + a, seq![y] + b, 0);
    same_front(p, none, seq![y] + b, 0);
    same_front(p, seq![x] + a, none, 0);
    same_front(p, none, none, 0);
    assert(p + none =~= p);
    let n = p.len() as int;
    assert((p + (seq![x] + a))[n] == x);
    assert((p + (seq![y] + b))[n] == y);
}

/// Texts are compared by their characters.
pub proof fn texts_are_compared_by_character(p: Seq<char>, x: char, a: Seq<char>, y: char, b: Seq<char>)
    ensures
        x < y ==> field_order(text_field(p + (seq![x] + a)), text_field(p + (seq![y] + b)), 0) < 0,
        x > y ==> field_order(text_field(p + (seq![x] + a)), text_field(p + (seq![y] + b)), 0) > 0,
        field_order(text_field(p), text_field(p + (seq![y] + b)), 0) < 0,
        field_order(text_field(p), text_field(p), 0) == 0,
{
    let xn = x as u32 as i64;
    let yn = y as u32 as i64;
    first_difference_decides(text_field(p), xn, text_field(a), yn, text_field(b));
    assert(text_field(p + (seq![x] + a)) =~= text_field(p) + (seq![xn] + text_field(a)));
    assert(text_field(p + (seq![y] + b)) =~= text_field(p) + (seq![yn] + text_field(b)));
}

proof fn same_fields_front(p: Key, a: Key, b: Key, i: int)
    requires
        0 <= i <= p.len(),
    ensures
        key_order(p + a, p + b, i) == key_order(p + a, p + b, p.len() as int),
    decreases p.len() - i,
{
    if i < p.len() {
        let none = Seq::<i64>::empty();
        same_front(p[i], none, none, 0);
        assert(p[i] + none =~= p[i]);
        same_fields_front(p, a, b, i + 1);
    }
}

/// Two keys are compared at their first field that differs.
pub proof fn first_field_decides(p: Key, x: Seq<i64>, a: Key, y: Seq<i64>, b: Key)
    ensures
        field_order(x, y, 0) != 0 ==> key_order(p + (seq![x] + a), p + (seq![y] + b), 0)
            == field_order(x, y, 0),
        key_order(p, p, 0) == 0,
{
    let none = Seq::<Seq<i64>>::empty();
    same_fields_front(p, seq![x] + a, seq![y] + b, 0);
    same_fields_front(p, none, none, 0);
    assert(p + none =~= p);
    let n = p.len() as int;
    assert((p + (seq![x] + a))[n] == x);
    assert((p + (seq![y] + b))[n] == y);
}

/// Sorted positions never go down in their keys, or never up where the order is
/// turned; each position stands there once, and those with one key keep their
/// order.
pub proof fn sorted_keys_go_one_way(n: nat, keys: Seq<Key>, desc: bool, i: int, j: int)
    requires
        n <= usize::MAX,
        n <= keys.len(),
        0 <= i < j < n,
    ensures
        ({
            let s = sorted(all_positions(n), keys, desc);
            &&& s.len() == n
            &&& s[i] < n && s[j] < n && s[i] != s[j]
            &&& !desc ==> key_order(keys[s[i] as int], keys[s[j] as int], 0) <= 0
            &&& desc ==> key_order(keys[s[i] as int], keys[s[j] as int], 0) >= 0
            &&& key_order(keys[s[i] as int], keys[s[j] as int], 0) == 0 ==> s[i] < s[j]
        }),
{
    let idx = all_positions(n);
    assert forall|a: int, b: int| 0 <= a < b < idx.len() implies #[trigger] idx[a]
        < #[trigger] idx[b] by {
    }
    sorting_is_stable(idx, keys, desc);
    let s = sorted(idx, keys, desc);
    assert(in_order(s[i], s[j], keys, desc));
    assert(s.contains(s[i]) && s.contains(s[j]));
    assert(idx.contains(s[i]) && idx.contains(s[j]));
    first_field_decides(keys[s[i] as int], seq![], seq![], seq![], seq![]);
}

/// Sorting keeps every position.
pub proof fn sorting_loses_nothing(n: nat, keys: Seq<Key>, desc: bool, k: usize)
    requires
        n <= usize::MAX,
        k < n,
    ensures
        sorted(all_positions(n), keys, desc).contains(k),
{
    let idx = all_positions(n);
    assert forall|a: int, b: int| 0 <= a < b < idx.len() implies #[trigger] idx[a]
        < #[trigger] idx[b] by {
    }
    sorting_is_stable(idx, keys, desc);
    assert(idx[k as int] == k);
    assert(sorted(idx, keys, desc).contains(k) <==> idx.contains(k));
}

} // verus!
