//! What holds of the socket tables of procfs: how addresses, ports and states
//! are read, which sockets a port has, and who owns them.

use vstd::prelude::*;
use vstd::string::*;

use crate::model::{Pid, SocketView};
use crate::platform::linux;
use crate::platform::linux::{EntryView, Want};
use crate::text::Class;
use crate::{num, risk, text};

verus! {

// ---------- addresses ----------

/// A digit below 16, with capital letters.
pub open spec fn hex_digit(n: int) -> char {
    if n < 10 {
        (48 + n) as u8 as char
    } else {
        (55 + n) as u8 as char
    }
}

/// A byte as two hexadecimal digits.
#[verifier::opaque]
pub open spec fn hex_byte(b: u8) -> Seq<char> {
    seq![hex_digit(b as int / 16), hex_digit(b as int % 16)]
}

proof fn hex_byte_reads_back(b: u8)
    ensures
        num::parse_unsigned(hex_byte(b), 16, u8::MAX as int) == Some(b as int),
        num::all_digits(hex_byte(b), 16),
        num::digits_value(hex_byte(b), 16) == b,
        hex_byte(b).len() == 2,
        hex_byte(b)[0] != '+',
        forall|i: int| 0 <= i < 2 ==> #[trigger] hex_byte(b)[i] != ':',
{
    reveal(hex_byte);
    let s = hex_byte(b);
    let e: Seq<char> = seq![];
    num::digit_behind(e, s[0], 16);
    num::digit_behind(e.push(s[0]), s[1], 16);
    assert(s =~= e.push(s[0]).push(s[1]));
    assert(num::digits_value(e, 16) == 0);
}

/// A number of 16 bits as four hexadecimal digits.
pub open spec fn hex_port(p: u16) -> Seq<char> {
    hex_byte((p / 256) as u8) + hex_byte((p % 256) as u8)
}

proof fn hex_port_reads_back(p: u16)
    ensures
        num::parse_unsigned(hex_port(p), 16, u16::MAX as int) == Some(p as int),
        hex_port(p).len() == 4,
{
    let s = hex_port(p);
    let hi = hex_byte((p / 256) as u8);
    let lo = hex_byte((p % 256) as u8);
    hex_byte_reads_back((p / 256) as u8);
    hex_byte_reads_back((p % 256) as u8);
    num::digit_behind(hi, lo[0], 16);
    num::digit_behind(hi.push(lo[0]), lo[1], 16);
    let e: Seq<char> = seq![];
    num::digit_behind(e, lo[0], 16);
    num::digit_behind(e.push(lo[0]), lo[1], 16);
    assert(lo =~= e.push(lo[0]).push(lo[1]));
    assert(s =~= hi.push(lo[0]).push(lo[1]));
    assert(num::digits_value(e, 16) == 0);
    assert forall|i: int| 0 <= i < s.len() implies num::digit_value(#[trigger] s[i], 16) >= 0 by {
        if i < 2 {
            assert(s[i] == hi[i]);
        } else {
            assert(s[i] == lo[i - 2]);
        }
    }
    assert(s[0] == hi[0]);
}

/// An IPv4 address as the kernel writes it on a little-endian machine: the
/// last number first.
#[verifier::opaque]
pub open spec fn kernel_v4(a: u8, b: u8, c: u8, d: u8) -> Seq<char> {
    hex_byte(d) + hex_byte(c) + hex_byte(b) + hex_byte(a)
}

proof fn pair_at(s: Seq<char>, i: int, b: u8)
    requires
        0 <= i,
        2 * i + 2 <= s.len(),
        s.subrange(2 * i, 2 * i + 2) == hex_byte(b),
    ensures
        linux::hex_pair(s, i) == Some(b as int),
{
    hex_byte_reads_back(b);
}

proof fn four_bytes(s: Seq<char>, w: u8, x: u8, y: u8, z: u8)
    requires
        s == hex_byte(w) + hex_byte(x) + hex_byte(y) + hex_byte(z),
    ensures
        linux::bytes_in_hex(s) == Some(seq![w, x, y, z]),
        s.len() == 8,
{
    hex_byte_reads_back(w);
    hex_byte_reads_back(x);
    hex_byte_reads_back(y);
    hex_byte_reads_back(z);
    assert(s.subrange(0, 2) =~= hex_byte(w));
    assert(s.subrange(2, 4) =~= hex_byte(x));
    assert(s.subrange(4, 6) =~= hex_byte(y));
    assert(s.subrange(6, 8) =~= hex_byte(z));
    pair_at(s, 0, w);
    pair_at(s, 1, x);
    pair_at(s, 2, y);
    pair_at(s, 3, z);
    assert forall|i: int| 0 <= i < s.len() / 2 implies #[trigger] linux::hex_pair(s, i) is Some by {
        assert(i == 0 || i == 1 || i == 2 || i == 3);
    }
    assert(linux::bytes_in_hex(s)->0 =~= seq![w, x, y, z]);
}

#[verifier::spinoff_prover]
#[verifier::rlimit(40)]
proof fn kernel_word(a: u8, b: u8, c: u8, d: u8)
    ensures
        linux::bytes_in_hex(kernel_v4(a, b, c, d)) == Some(seq![d, c, b, a]),
        kernel_v4(a, b, c, d).len() == 8,
        seq![d, c, b, a].reverse() == seq![a, b, c, d],
{
    reveal(kernel_v4);
    four_bytes(kernel_v4(a, b, c, d), d, c, b, a);
    assert(seq![d, c, b, a].reverse() =~= seq![a, b, c, d]);
}

proof fn dotted_is_quad(a: u8, b: u8, c: u8, d: u8)
    ensures
        linux::dotted(a, b, c, d) == risk::quad(a as int, b as int, c as int, d as int),
{
    reveal_strlit(".");
    assert("."@ =~= seq!['.']);
}

/// What the kernel writes for an IPv4 address is read as that address: its
/// four numbers in their order, with dots between them.
pub proof fn kernel_v4_is_read(a: u8, b: u8, c: u8, d: u8)
    ensures
        linux::v4_address(kernel_v4(a, b, c, d)) == Some(
            risk::quad(a as int, b as int, c as int, d as int),
        ),
{
    kernel_word(a, b, c, d);
    dotted_is_quad(a, b, c, d);
}

/// An IPv6 address as the kernel writes it on a little-endian machine: four
/// words, the last byte of each first.
pub open spec fn kernel_v6(b: Seq<u8>) -> Seq<char> {
    kernel_v4(b[0], b[1], b[2], b[3]) + kernel_v4(b[4], b[5], b[6], b[7]) + kernel_v4(
        b[8],
        b[9],
        b[10],
        b[11],
    ) + kernel_v4(b[12], b[13], b[14], b[15])
}

proof fn kernel_v6_is_text(b: Seq<u8>)
    requires
        b.len() == 16,
    ensures
        linux::v6_address(kernel_v6(b)) == Some(linux::v6_text(b)),
{
    let s = kernel_v6(b);
    let w0 = kernel_v4(b[0], b[1], b[2], b[3]);
    let w1 = kernel_v4(b[4], b[5], b[6], b[7]);
    let w2 = kernel_v4(b[8], b[9], b[10], b[11]);
    let w3 = kernel_v4(b[12], b[13], b[14], b[15]);
    kernel_word(b[0], b[1], b[2], b[3]);
    kernel_word(b[4], b[5], b[6], b[7]);
    kernel_word(b[8], b[9], b[10], b[11]);
    kernel_word(b[12], b[13], b[14], b[15]);
    assert(s.subrange(0, 8) =~= w0);
    assert(s.subrange(8, 16) =~= w1);
    assert(s.subrange(16, 24) =~= w2);
    assert(s.subrange(24, 32) =~= w3);
    sixteen(b);
}

proof fn sixteen(b: Seq<u8>)
    requires
        b.len() == 16,
    ensures
        seq![b[0], b[1], b[2], b[3]] + seq![b[4], b[5], b[6], b[7]] + seq![
            b[8],
            b[9],
            b[10],
            b[11],
        ] + seq![b[12], b[13], b[14], b[15]] == b,
{
    assert(seq![b[0], b[1], b[2], b[3]] =~= b.subrange(0, 4));
    assert(seq![b[4], b[5], b[6], b[7]] =~= b.subrange(4, 8));
    assert(seq![b[8], b[9], b[10], b[11]] =~= b.subrange(8, 12));
    assert(seq![b[12], b[13], b[14], b[15]] =~= b.subrange(12, 16));
    assert(b.subrange(0, 4) + b.subrange(4, 8) + b.subrange(8, 12) + b.subrange(12, 16) =~= b);
}

/// The eight groups of 16 bits in 16 bytes.
pub open spec fn byte_groups(b: Seq<u8>) -> Seq<int> {
    Seq::new(8, |i: int| b[2 * i] * 256 + b[2 * i + 1])
}

proof fn zero_run(g: Seq<int>, i: int)
    requires
        0 <= i <= g.len(),
    ensures
        0 <= linux::zeros_from(g, i) <= g.len() - i,
        forall|j: int| i <= j < i + linux::zeros_from(g, i) ==> #[trigger] g[j] == 0,
    decreases g.len() - i,
{
    if i < g.len() && g[i] == 0 {
        zero_run(g, i + 1);
    }
}

proof fn longest_run(g: Seq<int>, i: int)
    requires
        0 <= i <= g.len(),
    ensures
        ({
            let z = linux::longest_zeros(g, i);
            &&& i <= z.0
            &&& 0 <= z.1
            &&& z.0 + z.1 <= g.len()
            &&& forall|j: int| z.0 <= j < z.0 + z.1 ==> #[trigger] g[j] == 0
        }),
    decreases g.len() - i,
{
    if i < g.len() {
        zero_run(g, i);
        longest_run(g, i + 1);
    }
}

proof fn coloned_is_colons(g: Seq<int>, i: int, j: int)
    requires
        0 <= i <= j <= g.len(),
    ensures
        linux::coloned(g, i, j) == risk::colons(g.subrange(i, j)),
{
    reveal_strlit(":");
    assert(":"@ =~= seq![':']);
    let h = g.subrange(i, j);
    assert(Seq::new((j - i) as nat, |k: int| num::nat_text(g[i + k] as nat, 16)) =~= Seq::new(
        h.len(),
        |k: int| num::nat_text(h[k] as nat, 16),
    ));
}

proof fn mapped_v4_reads_back(a: u8, b: u8, c: u8, d: u8)
    ensures
        risk::v6_groups("::ffff:"@ + risk::quad(a as int, b as int, c as int, d as int)) == Some(
            seq![0int, 0, 0, 0, 0, 0xffff, a * 256 + b, c * 256 + d],
        ),
{
    reveal_strlit("::ffff:");
    reveal_strlit("::");
    let q = risk::quad(a as int, b as int, c as int, d as int);
    let p = "::"@;
    let right = seq!['f', 'f', 'f', 'f', ':'] + q;
    let s = "::ffff:"@ + q;
    risk::quad_is_one_piece(a as int, b as int, c as int, d as int);
    assert(s =~= seq![':', ':'] + right);
    assert forall|i: int| 0 <= i < s.len() implies s[i] != '%' by {
        if i >= 7 {
            assert(s[i] == q[i - 7]);
        }
    }
    text::next_in_is_first(s, Class::Is('%'), 0);
    assert(text::split_once(s, Class::Is('%')) is None);
    assert(s.subrange(0, 2) =~= p);
    assert(text::occurs_at(s, p, 0));
    assert(s.subrange(0, 0) =~= seq![]);
    assert(s.subrange(2, s.len() as int) =~= right);
    let k = Class::Is(':');
    let ffff = seq!['f', 'f', 'f', 'f'];
    assert(right =~= ffff + seq![':'] + q);
    text::uncut_is_one_piece(q, k);
    text::first_piece_ends_at_the_cut(ffff, ':', q, k);
    let parts = text::split(right, k);
    assert(parts =~= seq![ffff, q]);
    assert(num::nat_text(0xffff, 16) =~= ffff) by {
        reveal_with_fuel(num::nat_text, 5);
    }
    risk::group_is_read(0xffff);
    reveal_with_fuel(risk::groups, 2);
    assert(risk::groups(parts, 1) == Some(seq![0xffffint])) by {
        assert(Seq::<int>::empty().push(0xffff) =~= seq![0xffffint]);
    }
    let l: Seq<int> = seq![];
    assert(risk::side(Seq::<char>::empty()) == Some(l));
    let r = seq![0xffffint] + seq![a * 256 + b, c * 256 + d];
    assert(risk::side(right) == Some(r));
    assert(l + risk::zeros(5) + r =~= seq![
        0int,
        0,
        0,
        0,
        0,
        0xffff,
        a * 256 + b,
        c * 256 + d,
    ]);
}

proof fn mapped_text_reads_back(b: Seq<u8>)
    requires
        b.len() == 16,
        linux::maps_v4(linux::groups(b)),
    ensures
        risk::v6_groups(linux::v6_text(b)) == Some(linux::groups(b)),
{
    let g = linux::groups(b);
    dotted_is_quad(b[12], b[13], b[14], b[15]);
    mapped_v4_reads_back(b[12], b[13], b[14], b[15]);
    assert(g[6] == linux::group(b, 6));
    assert(g[7] == linux::group(b, 7));
    assert(g =~= seq![
        0int,
        0,
        0,
        0,
        0,
        0xffff,
        b[12] * 256 + b[13],
        b[14] * 256 + b[15],
    ]);
}

proof fn shortened_reads_back(g: Seq<int>, i: int, n: int)
    requires
        g.len() == 8,
        risk::are_groups(g),
        0 <= i,
        n >= 1,
        i + n <= 8,
        forall|j: int| i <= j < i + n ==> #[trigger] g[j] == 0,
    ensures
        risk::v6_groups(linux::coloned(g, 0, i) + "::"@ + linux::coloned(g, i + n, 8)) == Some(g),
{
    reveal_strlit("::");
    assert("::"@ =~= seq![':', ':']);
    let l = g.subrange(0, i);
    let r = g.subrange(i + n, 8);
    coloned_is_colons(g, 0, i);
    coloned_is_colons(g, i + n, 8);
    assert(risk::are_groups(l));
    assert(risk::are_groups(r));
    risk::v6_groups_read_back(l, r);
    let mid = Seq::new((8 - l.len() - r.len()) as nat, |i: int| 0int);
    assert(l + mid + r =~= g);
}

/// What the kernel writes for an IPv6 address is read as a text that stands
/// for the same address: its eight groups are those of the sixteen bytes.
pub proof fn kernel_v6_is_read(b: Seq<u8>)
    requires
        b.len() == 16,
    ensures
        linux::v6_address(kernel_v6(b)) is Some,
        risk::v6_groups(linux::v6_address(kernel_v6(b))->0) == Some(byte_groups(b)),
{
    kernel_v6_is_text(b);
    let g = linux::groups(b);
    assert(g =~= byte_groups(b));
    let z = linux::longest_zeros(g, 0);
    longest_run(g, 0);
    assert forall|i: int| 0 <= i < g.len() implies 0 <= #[trigger] g[i] <= 0xffff by {
        assert(g[i] == b[2 * i] * 256 + b[2 * i + 1]);
    }
    if linux::maps_v4(g) {
        mapped_text_reads_back(b);
    } else if z.1 > 1 {
        shortened_reads_back(g, z.0, z.1);
    } else {
        coloned_is_colons(g, 0, 8);
        assert(g.subrange(0, 8) =~= g);
        risk::v6_full_form_reads_back(g);
    }
}

// ---------- states ----------

/// The states of a tcp socket by the numbers that the kernel gives them, from
/// 1 on; those from 9 on have a name only where they are LISTEN.
pub proof fn tcp_states_have_their_names(n: int, proto: Seq<char>)
    requires
        1 <= n <= 15,
        proto == "tcp"@ || proto == "tcp6"@,
    ensures
        linux::state_name(seq!['0', hex_digit(n)], proto) == if n == 1 {
            "ESTABLISHED"@
        } else if n == 2 {
            "SYN_SENT"@
        } else if n == 3 {
            "SYN_RECV"@
        } else if n == 4 {
            "FIN_WAIT1"@
        } else if n == 5 {
            "FIN_WAIT2"@
        } else if n == 6 {
            "TIME_WAIT"@
        } else if n == 7 {
            "CLOSE"@
        } else if n == 8 {
            "CLOSE_WAIT"@
        } else if n == 10 {
            "LISTEN"@
        } else {
            "0x"@ + seq!['0', hex_digit(n)]
        },
{
    reveal_strlit("01");
    reveal_strlit("02");
    reveal_strlit("03");
    reveal_strlit("04");
    reveal_strlit("05");
    reveal_strlit("06");
    reveal_strlit("07");
    reveal_strlit("08");
    reveal_strlit("0A");
    let st = seq!['0', hex_digit(n)];
    assert(st[1] == hex_digit(n));
    assert("01"@ =~= seq!['0', '1'] && "02"@ =~= seq!['0', '2'] && "03"@ =~= seq!['0', '3']);
    assert("04"@ =~= seq!['0', '4'] && "05"@ =~= seq!['0', '5'] && "06"@ =~= seq!['0', '6']);
    assert("07"@ =~= seq!['0', '7'] && "08"@ =~= seq!['0', '8'] && "0A"@ =~= seq!['0', 'A']);
    assert(forall|x: char, y: char| #[trigger] seq!['0', x] == #[trigger] seq!['0', y] ==> x == y)
        by {
        assert forall|x: char, y: char| #[trigger]
            seq!['0', x] == #[trigger] seq!['0', y] implies x == y by {
            assert(seq!['0', x][1] == seq!['0', y][1]);
        }
    }
}

/// A socket of another protocol than tcp has no connection.
pub proof fn other_protocols_are_unconnected(st: Seq<char>, proto: Seq<char>)
    requires
        proto != "tcp"@,
        proto != "tcp6"@,
    ensures
        linux::state_name(st, proto) == "UNCONNECTED"@,
{
}

// ---------- lines of a table ----------

proof fn kernel_v4_has_no_colon(a: u8, b: u8, c: u8, d: u8)
    ensures
        forall|i: int|
            0 <= i < kernel_v4(a, b, c, d).len() ==> !Class::Is(':').holds(
                #[trigger] kernel_v4(a, b, c, d)[i],
            ),
{
    reveal(kernel_v4);
    hex_byte_reads_back(a);
    hex_byte_reads_back(b);
    hex_byte_reads_back(c);
    hex_byte_reads_back(d);
    let s = kernel_v4(a, b, c, d);
    assert forall|i: int| 0 <= i < s.len() implies !Class::Is(':').holds(#[trigger] s[i]) by {
        if i < 2 {
            assert(s[i] == hex_byte(d)[i]);
        } else if i < 4 {
            assert(s[i] == hex_byte(c)[i - 2]);
        } else if i < 6 {
            assert(s[i] == hex_byte(b)[i - 4]);
        } else {
            assert(s[i] == hex_byte(a)[i - 6]);
        }
    }
}

/// A line of the table of IPv4 sockets is read by its columns: the second
/// holds the local address and port, the fourth the state, the tenth the
/// inode.
pub proof fn table_line_is_read(
    cols: Seq<Seq<char>>,
    proto: Seq<char>,
    a: u8,
    b: u8,
    c: u8,
    d: u8,
    port: u16,
    inode: u64,
)
    requires
        proto == "tcp"@ || proto == "udp"@,
        cols.len() >= 10,
        cols[1] == kernel_v4(a, b, c, d) + seq![':'] + hex_port(port),
        cols[9] == num::dec(inode as int),
        forall|i: int| 0 <= i < cols.len() ==> text::is_word(#[trigger] cols[i]),
    ensures
        linux::net_columns(text::words(text::join(cols, seq![' '])), proto) == Some(
            (
                risk::quad(a as int, b as int, c as int, d as int),
                port,
                cols[2],
                linux::state_name(cols[3], proto),
                inode,
            ),
        ),
{
    text::words_undo_join(cols);
    kernel_v4_has_no_colon(a, b, c, d);
    text::cut_once_is_at_the_first(
        kernel_v4(a, b, c, d),
        ':',
        hex_port(port),
        Class::Is(':'),
    );
    kernel_v4_is_read(a, b, c, d);
    hex_port_reads_back(port);
    num::printed_natural_reads_back(inode as int, u64::MAX as int);
    reveal_strlit("tcp");
    reveal_strlit("udp");
    reveal_strlit("6");
    let t = proto.subrange(proto.len() - 1, proto.len() as int);
    assert(t[0] != "6"@[0]);
    assert(!text::ends_with(proto, "6"@));
}

/// The peer of a socket is read off its remote column; port 0 is none.
pub proof fn remote_column_is_the_peer(
    proto: Seq<char>,
    a: u8,
    b: u8,
    c: u8,
    d: u8,
    port: u16,
)
    requires
        proto == "tcp"@ || proto == "udp"@,
    ensures
        linux::peer(kernel_v4(a, b, c, d) + seq![':'] + hex_port(port), proto) == if port == 0 {
            None
        } else {
            Some((risk::quad(a as int, b as int, c as int, d as int), port))
        },
{
    kernel_v4_has_no_colon(a, b, c, d);
    text::cut_once_is_at_the_first(
        kernel_v4(a, b, c, d),
        ':',
        hex_port(port),
        Class::Is(':'),
    );
    kernel_v4_is_read(a, b, c, d);
    hex_port_reads_back(port);
    reveal_strlit("tcp");
    reveal_strlit("udp");
    reveal_strlit("6");
    let t = proto.subrange(proto.len() - 1, proto.len() as int);
    assert(t[0] != "6"@[0]);
    assert(!text::ends_with(proto, "6"@));
}

/// The tables of IPv6 sockets have IPv6 addresses in both columns.
pub proof fn v6_tables_hold_v6_addresses(ip: Seq<char>, proto: Seq<char>)
    requires
        proto == "tcp6"@ || proto == "udp6"@,
    ensures
        linux::address(ip, proto) == linux::v6_address(ip),
{
    reveal_strlit("tcp6");
    reveal_strlit("udp6");
    reveal_strlit("6");
    assert(proto.subrange(3, 4) =~= "6"@);
}

#[verifier::spinoff_prover]
#[verifier::rlimit(40)]
proof fn entries_are_lines(ls: Seq<Seq<char>>, proto: Seq<char>, n: int, e: EntryView)
    requires
        0 <= n <= ls.len(),
    ensures
        linux::table_entries(ls, proto, n).contains(e) <==> exists|i: int|
            1 <= i < n && e.proto == proto && linux::net_columns(
                text::words(#[trigger] ls[i]),
                proto,
            ) == Some((e.local_addr, e.local_port, e.rem, e.state, e.inode)),
    decreases n,
{
    if n > 1 {
        entries_are_lines(ls, proto, n - 1, e);
        let a = linux::table_entries(ls, proto, n - 1);
        let b = linux::table_entries(ls, proto, n);
        let cols = linux::net_columns(text::words(ls[n - 1]), proto);
        if a.contains(e) {
            let x = choose|x: int| 0 <= x < a.len() && a[x] == e;
            assert(b[x] == e);
        }
        if b.contains(e) {
            let x = choose|x: int| 0 <= x < b.len() && b[x] == e;
            if x < a.len() {
                assert(a[x] == e);
                assert(a.contains(e));
            } else {
                assert(cols == Some((e.local_addr, e.local_port, e.rem, e.state, e.inode)));
            }
        }
        if e.proto == proto && cols == Some(
            (e.local_addr, e.local_port, e.rem, e.state, e.inode),
        ) {
            assert(b[a.len() as int] =~= e);
            assert(b.contains(e));
        }
        if exists|i: int|
            1 <= i < n && e.proto == proto && linux::net_columns(
                text::words(#[trigger] ls[i]),
                proto,
            ) == Some((e.local_addr, e.local_port, e.rem, e.state, e.inode)) {
            let i = choose|i: int|
                1 <= i < n && e.proto == proto && linux::net_columns(
                    text::words(#[trigger] ls[i]),
                    proto,
                ) == Some((e.local_addr, e.local_port, e.rem, e.state, e.inode));
            if i < n - 1 {
                assert(a.contains(e));
            }
        }
    } else {
        assert(linux::table_entries(ls, proto, n) =~= seq![]);
    }
}

/// The entries of a table are its lines but the first, each with what its
/// columns say and the protocol of the table.
pub proof fn entries_are_the_lines_of_the_table(raw: Seq<char>, proto: Seq<char>, e: EntryView)
    ensures
        linux::entries_in(raw, proto).contains(e) <==> exists|i: int|
            1 <= i < text::lines(raw).len() && e.proto == proto && linux::net_columns(
                text::words(#[trigger] text::lines(raw)[i]),
                proto,
            ) == Some((e.local_addr, e.local_port, e.rem, e.state, e.inode)),
{
    entries_are_lines(text::lines(raw), proto, text::lines(raw).len() as int, e);
}

// ---------- sockets on a port ----------

/// Whether no two entries share an inode.
pub open spec fn distinct_inodes(es: Seq<EntryView>) -> bool {
    forall|i: int, j: int|
        0 <= i < j < es.len() ==> (#[trigger] es[i]).inode != (#[trigger] es[j]).inode
}

proof fn picked_are_taken(es: Seq<EntryView>, want: Want, n: int)
    requires
        0 <= n <= es.len(),
        distinct_inodes(es),
    ensures
        linux::picked(es, want, n) == es.take(n).filter(|e: EntryView| want.takes(e)),
        forall|x: u64|
            linux::has_inode(linux::picked(es, want, n), x) ==> exists|i: int|
                0 <= i < n && (#[trigger] es[i]).inode == x,
    decreases n,
{
    reveal(Seq::filter);
    if n > 0 {
        picked_are_taken(es, want, n - 1);
        assert(es.take(n).drop_last() =~= es.take(n - 1));
        assert(es.take(n).last() == es[n - 1]);
        let a = linux::picked(es, want, n - 1);
        let b = linux::picked(es, want, n);
        if linux::has_inode(a, es[n - 1].inode) {
            let i = choose|i: int| 0 <= i < n - 1 && (#[trigger] es[i]).inode == es[n - 1].inode;
            assert(es[i].inode != es[n - 1].inode);
        }
        assert forall|x: u64| linux::has_inode(b, x) implies exists|i: int|
            0 <= i < n && (#[trigger] es[i]).inode == x by {
            let k = choose|k: int| 0 <= k < b.len() && (#[trigger] b[k]).inode == x;
            if k < a.len() {
                assert(a[k].inode == x);
                assert(linux::has_inode(a, x));
                let i = choose|i: int| 0 <= i < n - 1 && (#[trigger] es[i]).inode == x;
                assert(es[i].inode == x);
            } else {
                assert(es[n - 1].inode == x);
            }
        }
    }
}

/// Whether a socket is that of an entry: its protocol, local address, port and
/// state are those of the entry, its peer is that of the remote column, and
/// its owner is the one noted for the inode.
pub open spec fn is_socket_of(s: SocketView, e: EntryView, owners: Map<u64, Pid>) -> bool {
    &&& s.proto == e.proto
    &&& s.local_addr == e.local_addr
    &&& s.local_port == e.local_port
    &&& s.state == e.state
    &&& s.peer_addr is Some <==> linux::peer(e.rem, e.proto) is Some
    &&& s.peer_port is Some <==> linux::peer(e.rem, e.proto) is Some
    &&& linux::peer(e.rem, e.proto) matches Some(p) ==> s.peer_addr == Some(p.0) && s.peer_port
        == Some(p.1)
    &&& s.pid is Some <==> owners.contains_key(e.inode)
    &&& owners.contains_key(e.inode) ==> s.pid == Some(owners[e.inode])
}

/// The sockets on a port are those of the entries whose local port it is, in
/// their order, each with the owner of its inode.
pub proof fn port_has_the_sockets_on_it(
    es: Seq<EntryView>,
    port: u16,
    owners: Map<u64, Pid>,
)
    requires
        distinct_inodes(es),
    ensures
        ({
            let on = es.filter(|e: EntryView| e.local_port == port);
            let s = linux::wanted_sockets(es, Want::Port(port), owners);
            &&& s.len() == on.len()
            &&& forall|i: int| 0 <= i < s.len() ==> is_socket_of(#[trigger] s[i], on[i], owners)
        }),
{
    picked_are_taken(es, Want::Port(port), es.len() as int);
    assert(es.take(es.len() as int) =~= es);
    same_filter(
        es,
        |e: EntryView| Want::Port(port).takes(e),
        |e: EntryView| e.local_port == port,
    );
}

/// The sockets listed are those of the entries that listen, for tcp, and all
/// others, each with the owner of its inode.
pub proof fn listing_has_the_listening_sockets(es: Seq<EntryView>, owners: Map<u64, Pid>)
    requires
        distinct_inodes(es),
    ensures
        ({
            let on = es.filter(
                |e: EntryView|
                    e.state == "LISTEN"@ || !(exists|rest: Seq<char>|
                        e.proto == #[trigger] ("tcp"@ + rest)),
            );
            let s = linux::wanted_sockets(es, Want::Listening, owners);
            &&& s.len() == on.len()
            &&& forall|i: int| 0 <= i < s.len() ==> is_socket_of(#[trigger] s[i], on[i], owners)
        }),
{
    picked_are_taken(es, Want::Listening, es.len() as int);
    assert(es.take(es.len() as int) =~= es);
    assert forall|e: EntryView| #[trigger] Want::Listening.takes(e) == (e.state == "LISTEN"@ || !(
    exists|rest: Seq<char>| e.proto == #[trigger] ("tcp"@ + rest))) by {
        text::holding_is_standing_between(e.proto, "tcp"@);
    }
    same_filter(
        es,
        |e: EntryView| Want::Listening.takes(e),
        |e: EntryView|
            e.state == "LISTEN"@ || !(exists|rest: Seq<char>|
                e.proto == #[trigger] ("tcp"@ + rest)),
    );
}

proof fn same_filter(
    es: Seq<EntryView>,
    f: spec_fn(EntryView) -> bool,
    g: spec_fn(EntryView) -> bool,
)
    requires
        forall|e: EntryView| #[trigger] f(e) == g(e),
    ensures
        es.filter(f) == es.filter(g),
    decreases es.len(),
{
    reveal(Seq::filter);
    if es.len() > 0 {
        same_filter(es.drop_last(), f, g);
        assert(f(es.last()) == g(es.last()));
    }
}

// ---------- owners ----------

/// The link of a descriptor to a socket names the inode of the socket.
pub proof fn socket_links_name_the_inode(inode: u64)
    ensures
        linux::link_inode("socket:["@ + num::dec(inode as int) + "]"@) == Some(inode as int),
{
    let n = num::dec(inode as int);
    let t = "socket:["@ + n + "]"@;
    assert(t =~= "socket:["@ + (n + "]"@));
    text::stripping_undoes_adding(n + "]"@, "socket:["@);
    text::stripping_undoes_adding(n, "]"@);
    text::holding_is_standing_between(t, "socket:["@);
    num::printed_natural_reads_back(inode as int, u64::MAX as int);
}

proof fn inodes_fit(t: Seq<char>)
    ensures
        linux::link_inode(t) matches Some(v) ==> 0 <= v <= u64::MAX,
{
    if linux::link_inode(t) is Some {
        let r = text::strip_prefix(t, "socket:["@)->0;
        num::parsed_is_in_range(text::strip_suffix(r, "]"@)->0, 10, u64::MAX as int);
    }
}

/// A process that has a link to a socket owns it; sockets that none of its
/// links names keep their owners.
pub proof fn links_tell_the_owners(
    m: Map<u64, Pid>,
    pid: Pid,
    links: Seq<Seq<char>>,
    n: int,
    inode: u64,
)
    requires
        0 <= n <= links.len(),
    ensures
        ({
            let o = linux::with_links(m, pid, links, n);
            &&& (exists|i: int|
                0 <= i < n && #[trigger] links[i] == "socket:["@ + num::dec(inode as int) + "]"@)
                ==> o.contains_key(inode) && o[inode] == pid
            &&& (forall|i: int|
                0 <= i < n ==> linux::link_inode(#[trigger] links[i]) != Some(inode as int)) ==> (
            o.contains_key(inode) == m.contains_key(inode) && (m.contains_key(inode) ==> o[inode]
                == m[inode]))
        }),
    decreases n,
{
    socket_links_name_the_inode(inode);
    if n > 0 {
        inodes_fit(links[n - 1]);
        links_tell_the_owners(m, pid, links, n - 1, inode);
        let o = linux::with_links(m, pid, links, n);
        if exists|i: int|
            0 <= i < n && #[trigger] links[i] == "socket:["@ + num::dec(inode as int) + "]"@ {
            let i = choose|i: int|
                0 <= i < n && #[trigger] links[i] == "socket:["@ + num::dec(inode as int) + "]"@;
            if i < n - 1 {
                assert(links[i] == "socket:["@ + num::dec(inode as int) + "]"@);
            }
            assert(o.contains_key(inode) && o[inode] == pid);
        }
    }
}

/// Only links that begin with `socket:[` and end with `]` name an inode.
pub proof fn other_links_name_no_inode(t: Seq<char>)
    requires
        !(exists|rest: Seq<char>| t == #[trigger] ("socket:["@ + rest + "]"@)),
    ensures
        linux::link_inode(t) is None,
{
    if linux::link_inode(t) is Some {
        let r = text::strip_prefix(t, "socket:["@)->0;
        let n = text::strip_suffix(r, "]"@)->0;
        assert(r =~= n + "]"@);
        assert(t =~= "socket:["@ + r);
        assert("socket:["@ + (n + "]"@) =~= "socket:["@ + n + "]"@);
    }
}

/// Whether the groups from `i` up to `j` are all zero.
pub open spec fn all_zero(g: Seq<int>, i: int, j: int) -> bool {
    0 <= i <= j <= g.len() && forall|k: int| i <= k < j ==> #[trigger] g[k] == 0
}

proof fn run_is_as_long(g: Seq<int>, i: int, j: int)
    requires
        all_zero(g, i, j),
    ensures
        linux::zeros_from(g, i) >= j - i,
    decreases j - i,
{
    if i < j {
        assert(g[i] == 0);
        run_is_as_long(g, i + 1, j);
    } else {
        zero_run(g, i);
    }
}

proof fn no_run_is_longer(g: Seq<int>, from: int, i: int, j: int)
    requires
        0 <= from <= i < j,
        all_zero(g, i, j),
    ensures
        ({
            let z = linux::longest_zeros(g, from);
            j - i <= z.1 && (j - i == z.1 ==> z.0 <= i)
        }),
    decreases g.len() - from,
{
    run_is_as_long(g, i, j);
    if from < i {
        no_run_is_longer(g, from + 1, i, j);
    }
}

/// An IPv6 address is written with `::` in place of its longest run of zeros,
/// where that has two or more; of several the first. Without such a run all
/// eight groups are written out.
pub proof fn longest_run_of_zeros_is_left_out(b: Seq<u8>, s: int, e: int)
    requires
        b.len() == 16,
        !(all_zero(byte_groups(b), 0, 5) && byte_groups(b)[5] == 0xffff),
    ensures
        ({
            let g = byte_groups(b);
            &&& e - s >= 2 && all_zero(g, s, e) && (forall|i: int, j: int|
                i < j && #[trigger] all_zero(g, i, j) ==> j - i <= e - s && (j - i == e - s ==> s
                    <= i)) ==> linux::v6_text(b) == risk::colons(g.subrange(0, s)) + seq![':', ':']
                + risk::colons(g.subrange(e, 8))
            &&& (forall|i: int, j: int| #[trigger] all_zero(g, i, j) ==> j - i < 2)
                ==> linux::v6_text(b) == risk::colons(g)
        }),
{
    let g = linux::groups(b);
    assert(g =~= byte_groups(b));
    let z = linux::longest_zeros(g, 0);
    longest_run(g, 0);
    assert(!linux::maps_v4(g));
    assert(all_zero(g, z.0, z.0 + z.1));
    reveal_strlit("::");
    assert("::"@ =~= seq![':', ':']);
    if e - s >= 2 && all_zero(g, s, e) && (forall|i: int, j: int|
        i < j && #[trigger] all_zero(g, i, j) ==> j - i <= e - s && (j - i == e - s ==> s <= i)) {
        no_run_is_longer(g, 0, s, e);
        assert(z.1 == e - s && z.0 == s);
        coloned_is_colons(g, 0, s);
        coloned_is_colons(g, e, 8);
    }
    if forall|i: int, j: int| #[trigger] all_zero(g, i, j) ==> j - i < 2 {
        coloned_is_colons(g, 0, 8);
        assert(g.subrange(0, 8) =~= g);
    }
}

/// An IPv4 address inside an IPv6 one is written with dots behind `::ffff:`.
pub proof fn mapped_address_is_dotted(b: Seq<u8>)
    requires
        b.len() == 16,
        all_zero(byte_groups(b), 0, 5),
        byte_groups(b)[5] == 0xffff,
    ensures
        linux::v6_text(b) == "::ffff:"@ + risk::quad(
            b[12] as int,
            b[13] as int,
            b[14] as int,
            b[15] as int,
        ),
{
    let g = linux::groups(b);
    assert(g =~= byte_groups(b));
    assert(g[0] == 0 && g[1] == 0 && g[2] == 0 && g[3] == 0 && g[4] == 0);
    dotted_is_quad(b[12], b[13], b[14], b[15]);
}

} // verus!
