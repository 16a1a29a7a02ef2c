//! What holds of the listings of `lsof`: how its rows are read, and which
//! sockets and processes come out of them.

use vstd::prelude::*;
use vstd::string::*;

use crate::model::{Pid, SocketView};
use crate::platform::{macos, PlatErrorView};
use crate::text::Class;
use crate::{num, text, util};

verus! {

// ---------- rows ----------

proof fn arrow_cuts(l: Seq<char>, r: Seq<char>)
    requires
        !l.contains('>'),
    ensures
        macos::ends_of(l + seq!['-', '>'] + r) == (l, Some(r)),
        macos::ends_of(l) == (l, None::<Seq<char>>),
{
    reveal_strlit("->");
    let p = "->"@;
    assert(p =~= seq!['-', '>']);
    let s = l + seq!['-', '>'] + r;
    text::find_from_is_first(s, p, 0);
    text::find_from_is_first(l, p, 0);
    let n = l.len() as int;
    assert(text::occurs_at(s, p, n)) by {
        assert(s.subrange(n, n + 2) =~= p);
    }
    assert forall|m: int| 0 <= m < n implies !text::occurs_at(s, p, m) by {
        if text::occurs_at(s, p, m) {
            assert(s.subrange(m, m + 2)[1] == '>');
            if m + 1 < n {
                assert(l[m + 1] == '>');
                assert(l.contains(l[m + 1]));
            } else {
                assert(s[n] == '-');
            }
        }
    }
    assert forall|m: int| 0 <= m implies !text::occurs_at(l, p, m) by {
        if text::occurs_at(l, p, m) {
            assert(l.subrange(m, m + 2)[1] == '>');
            assert(l[m + 1] == '>');
            assert(l.contains(l[m + 1]));
        }
    }
    assert(s.subrange(0, n) =~= l);
    assert(s.subrange(n + 2, s.len() as int) =~= r);
}

proof fn state_is_cut(name: Seq<char>, state: Seq<char>)
    requires
        !state.contains(' '),
        !name.contains(' '),
    ensures
        macos::name_and_state(name + seq![' '] + (seq!['('] + state + seq![')'])) == (name, state),
        macos::name_and_state(name) == (name, "CONNECTED"@),
{
    reveal_strlit(" (");
    reveal_strlit(")");
    let p = " ("@;
    assert(p =~= seq![' ', '(']);
    assert(")"@ =~= seq![')']);
    let s = name + seq![' '] + (seq!['('] + state + seq![')']);
    let n = name.len() as int;
    text::rfind_from_is_last(s, p, s.len() as int);
    text::rfind_from_is_last(name, p, name.len() as int);
    assert(text::occurs_at(s, p, n)) by {
        assert(s.subrange(n, n + 2) =~= p);
    }
    assert forall|m: int| n < m <= s.len() implies !text::occurs_at(s, p, m) by {
        if text::occurs_at(s, p, m) {
            assert(s.subrange(m, m + 2)[0] == ' ');
            assert(s[m] == ' ');
            if n + 2 <= m < n + 2 + state.len() {
                assert(state[m - n - 2] == ' ');
                assert(state.contains(state[m - n - 2]));
            }
        }
    }
    assert forall|m: int| 0 <= m <= n implies !text::occurs_at(name, p, m) by {
        if text::occurs_at(name, p, m) {
            assert(name.subrange(m, m + 2)[0] == ' ');
            assert(name.contains(name[m]));
        }
    }
    text::holding_is_standing_between(s, ")"@);
    assert(s =~= (name + seq![' '] + (seq!['('] + state)) + ")"@);
    assert(s.subrange(0, n) =~= name);
    assert(s.subrange(n + 2, s.len() - 1) =~= state);
}

proof fn protocols_in_small_letters(node: Seq<char>)
    ensures
        node == seq!['T', 'C', 'P'] ==> text::lower(node) == "tcp"@,
        node == seq!['U', 'D', 'P'] ==> text::lower(node) == "udp"@,
{
    reveal_strlit("tcp");
    reveal_strlit("udp");
    assert("tcp"@ =~= seq!['t', 'c', 'p']);
    assert("udp"@ =~= seq!['u', 'd', 'p']);
    if node == seq!['T', 'C', 'P'] {
        assert(text::lower(node) =~= seq!['t', 'c', 'p']);
    }
    if node == seq!['U', 'D', 'P'] {
        assert(text::lower(node) =~= seq!['u', 'd', 'p']);
    }
}

/// The protocol that a row shows, in small letters and with a 6 where its type
/// has one.
pub open spec fn shown_protocol(udp: bool, six: bool) -> Seq<char> {
    if udp && six {
        seq!['u', 'd', 'p', '6']
    } else if udp {
        seq!['u', 'd', 'p']
    } else if six {
        seq!['t', 'c', 'p', '6']
    } else {
        seq!['t', 'c', 'p']
    }
}

/// A row of a connection has the pid in its second column, the protocol in its
/// eighth, the two ends with an arrow between them in its ninth, and the state
/// in brackets in its tenth.
pub proof fn connection_row_is_read(
    cols: Seq<Seq<char>>,
    pid: Pid,
    udp: bool,
    local: Seq<char>,
    peer: Seq<char>,
    state: Seq<char>,
)
    requires
        cols.len() == 10,
        cols[1] == num::dec(pid as int),
        cols[7] == if udp {
            seq!['U', 'D', 'P']
        } else {
            seq!['T', 'C', 'P']
        },
        cols[8] == local + seq!['-', '>'] + peer,
        cols[9] == seq!['('] + state + seq![')'],
        !local.contains('>'),
        !cols[8].contains(' '),
        !state.contains(' '),
        util::host_port(local) is Some,
    ensures
        macos::net_row(cols) == Some(
            SocketView {
                proto: shown_protocol(udp, cols[4].contains('6')),
                local_addr: (util::host_port(local)->0).0,
                local_port: (util::host_port(local)->0).1 as u16,
                peer_addr: if util::host_port(peer) is Some {
                    Some((util::host_port(peer)->0).0)
                } else {
                    None
                },
                peer_port: if util::host_port(peer) is Some {
                    Some((util::host_port(peer)->0).1 as u16)
                } else {
                    None
                },
                state,
                pid: Some(pid),
            },
        ),
{
    let tail = cols.subrange(8, 10);
    reveal_strlit(" ");
    assert(" "@ =~= seq![' ']);
    assert(tail.drop_last() =~= seq![cols[8]]);
    assert(tail.drop_last().drop_last() =~= seq![]);
    assert(tail.last() == cols[9]);
    reveal_with_fuel(text::join, 3);
    assert(text::join(tail, " "@) =~= cols[8] + seq![' '] + cols[9]);
    state_is_cut(cols[8], state);
    arrow_cuts(local, peer);
    row_protocol(cols, udp);
    num::printed_number_reads_back(pid as int, i32::MIN as int, i32::MAX as int);
}

proof fn row_protocol(cols: Seq<Seq<char>>, udp: bool)
    requires
        cols.len() >= 8,
        cols[7] == if udp {
            seq!['U', 'D', 'P']
        } else {
            seq!['T', 'C', 'P']
        },
    ensures
        text::lower(cols[7]) == "tcp"@ || text::lower(cols[7]) == "udp"@,
        macos::row_proto(cols[7], cols[4]) == shown_protocol(udp, cols[4].contains('6')),
{
    protocols_in_small_letters(cols[7]);
    reveal_strlit("tcp");
    reveal_strlit("udp");
    assert("tcp"@ =~= seq!['t', 'c', 'p']);
    assert("udp"@ =~= seq!['u', 'd', 'p']);
    let kind = cols[4];
    assert(text::has_in(kind, Class::Is('6')) <==> kind.contains('6')) by {
        if kind.contains('6') {
            let i = choose|i: int| 0 <= i < kind.len() && kind[i] == '6';
            assert(Class::Is('6').holds(kind[i]));
        }
        if text::has_in(kind, Class::Is('6')) {
            let i = choose|i: int| 0 <= i < kind.len() && Class::Is('6').holds(#[trigger] kind[i]);
            assert(kind[i] == '6');
        }
    }
    assert(seq!['t', 'c', 'p'].push('6') =~= seq!['t', 'c', 'p', '6']);
    assert(seq!['u', 'd', 'p'].push('6') =~= seq!['u', 'd', 'p', '6']);
}

/// A row without a state and without an arrow is that of a socket with no
/// peer.
pub proof fn unconnected_row_is_read(
    cols: Seq<Seq<char>>,
    pid: Pid,
    udp: bool,
)
    requires
        cols.len() == 9,
        cols[1] == num::dec(pid as int),
        cols[7] == if udp {
            seq!['U', 'D', 'P']
        } else {
            seq!['T', 'C', 'P']
        },
        !cols[8].contains('>'),
        !cols[8].contains(' '),
        util::host_port(cols[8]) is Some,
    ensures
        macos::net_row(cols) == Some(
            SocketView {
                proto: shown_protocol(udp, cols[4].contains('6')),
                local_addr: (util::host_port(cols[8])->0).0,
                local_port: (util::host_port(cols[8])->0).1 as u16,
                peer_addr: None,
                peer_port: None,
                state: "CONNECTED"@,
                pid: Some(pid),
            },
        ),
{
    let tail = cols.subrange(8, 9);
    assert(tail.drop_last() =~= seq![]);
    assert(tail.last() == cols[8]);
    reveal_with_fuel(text::join, 2);
    assert(text::join(tail, " "@) =~= cols[8]);
    state_is_cut(cols[8], seq![]);
    arrow_cuts(cols[8], seq![]);
    row_protocol(cols, udp);
    num::printed_number_reads_back(pid as int, i32::MIN as int, i32::MAX as int);
}

/// The sockets of a listing are those of its rows, without the header, in the
/// order of the rows.
pub proof fn rows_tell_the_sockets(ls: Seq<Seq<char>>, line: Seq<char>)
    ensures
        ls.len() == 0 ==> macos::net_rows(ls.push(line), 1) == Seq::<SocketView>::empty(),
        ls.len() > 0 && macos::net_row(text::words(line)) is Some ==> macos::net_rows(
            ls.push(line),
            ls.len() as int + 1,
        ) == macos::net_rows(ls, ls.len() as int).push(macos::net_row(text::words(line))->0),
        ls.len() > 0 && macos::net_row(text::words(line)) is None ==> macos::net_rows(
            ls.push(line),
            ls.len() as int + 1,
        ) == macos::net_rows(ls, ls.len() as int),
{
    net_rows_prefix(ls, line, ls.len() as int);
}

proof fn net_rows_prefix(ls: Seq<Seq<char>>, line: Seq<char>, n: int)
    requires
        n <= ls.len(),
    ensures
        macos::net_rows(ls.push(line), n) == macos::net_rows(ls, n),
    decreases n,
{
    if n > 1 {
        net_rows_prefix(ls, line, n - 1);
    }
}

/// Asking for a port gives the listed sockets on it and no others; without a
/// listing there are none, unless it was forbidden.
pub proof fn port_has_the_listed_sockets(port: u16, stdout: Seq<u8>, stderr: Seq<u8>, s: SocketView)
    ensures
        ({
            let ls = text::lines(text::lossy(stdout));
            stdout.len() > 0 ==> (macos::port_sockets(port, stdout, stderr) matches Ok(v) && (
            v.contains(s) <==> s.local_port == port && macos::net_rows(
                ls,
                ls.len() as int,
            ).contains(s)))
        }),
        stdout.len() == 0 ==> (macos::port_sockets(port, stdout, stderr) is Err <==> exists|
            a: Seq<char>,
            b: Seq<char>,
        |
            text::lossy(stderr) == #[trigger] (a + "Permission denied"@ + b)),
        macos::port_sockets(port, stdout, stderr) matches Err(e) ==> e == PlatErrorView::Permission(
            text::trim(text::lossy(stderr), Class::White),
        ),
        stdout.len() == 0 ==> (macos::port_sockets(port, stdout, stderr) matches Ok(v) ==> v.len()
            == 0),
{
    let ls = text::lines(text::lossy(stdout));
    let rows = macos::net_rows(ls, ls.len() as int);
    macos::port_lookup_is_exact(rows, port, rows.len() as int);
    text::holding_is_standing_between(text::lossy(stderr), "Permission denied"@);
    if stdout.len() > 0 {
        let v = macos::on_port(rows, port, rows.len() as int);
        if v.contains(s) {
            on_port_is_listed(rows, port, rows.len() as int, s);
        }
        if s.local_port == port && rows.contains(s) {
            let i = choose|i: int| 0 <= i < rows.len() && rows[i] == s;
            assert(v.contains(rows[i]));
        }
    }
}

proof fn on_port_is_listed(v: Seq<SocketView>, port: u16, n: int, s: SocketView)
    requires
        0 <= n <= v.len(),
        macos::on_port(v, port, n).contains(s),
    ensures
        v.contains(s),
    decreases n,
{
    if n > 0 {
        let before = macos::on_port(v, port, n - 1);
        if before.contains(s) {
            on_port_is_listed(v, port, n - 1, s);
        } else {
            let i = choose|i: int|
                0 <= i < macos::on_port(v, port, n).len() && macos::on_port(v, port, n)[i] == s;
            if i < before.len() {
                assert(before[i] == s);
            }
            assert(v[n - 1] == s);
        }
    }
}

/// Whether two rows show one socket: the same process, protocol and local end.
pub open spec fn one_socket(a: SocketView, b: SocketView) -> bool {
    &&& a.pid == b.pid
    &&& a.proto == b.proto
    &&& a.local_addr == b.local_addr
    &&& a.local_port == b.local_port
}

/// A listing is added without what is there already: nothing is lost, every
/// listed socket is there afterwards, what is new was listed, and no socket is
/// there twice that was not.
pub proof fn listing_is_added_once(v: Seq<SocketView>, more: Seq<SocketView>, n: int)
    requires
        0 <= n <= more.len(),
    ensures
        v.len() <= macos::with_new(v, more, n).len() <= v.len() + n,
        macos::with_new(v, more, n).subrange(0, v.len() as int) == v,
        forall|i: int|
            0 <= i < n ==> exists|j: int|
                0 <= j < macos::with_new(v, more, n).len() && one_socket(
                    #[trigger] macos::with_new(v, more, n)[j],
                    #[trigger] more[i],
                ),
        forall|j: int|
            v.len() <= j < macos::with_new(v, more, n).len() ==> more.contains(
                #[trigger] macos::with_new(v, more, n)[j],
            ),
        forall|i: int, j: int|
            0 <= i < j < macos::with_new(v, more, n).len() && v.len() <= j ==> !one_socket(
                #[trigger] macos::with_new(v, more, n)[i],
                #[trigger] macos::with_new(v, more, n)[j],
            ),
    decreases n,
{
    if n > 0 {
        listing_is_added_once(v, more, n - 1);
        let before = macos::with_new(v, more, n - 1);
        let now = macos::with_new(v, more, n);
        assert(now.subrange(0, v.len() as int) =~= before.subrange(0, v.len() as int));
        assert forall|i: int| 0 <= i < n implies exists|j: int|
            0 <= j < now.len() && one_socket(#[trigger] now[j], #[trigger] more[i]) by {
            if i < n - 1 {
                let j = choose|j: int|
                    0 <= j < before.len() && one_socket(
                        #[trigger] before[j],
                        more[i],
                    );
                assert(now[j] == before[j]);
            } else if macos::has_socket(before, more[n - 1]) {
                let j = choose|j: int|
                    0 <= j < before.len() && macos::same_socket(#[trigger] before[j], more[n - 1]);
                assert(one_socket(now[j], more[i]));
            } else {
                assert(one_socket(now[before.len() as int], more[i]));
            }
        }
        assert forall|j: int| v.len() <= j < now.len() implies more.contains(#[trigger] now[j]) by {
            if j < before.len() {
                assert(now[j] == before[j]);
            } else {
                assert(now[j] == more[n - 1]);
            }
        }
        assert forall|i: int, j: int|
            0 <= i < j < now.len() && v.len() <= j implies !one_socket(
            #[trigger] now[i],
            #[trigger] now[j],
        ) by {
            if j < before.len() {
                assert(now[i] == before[i] && now[j] == before[j]);
            } else {
                assert(now[i] == before[i]);
                if one_socket(now[i], now[j]) {
                    assert(macos::same_socket(before[i], more[n - 1]));
                }
            }
        }
    } else {
        assert(v.subrange(0, v.len() as int) =~= v);
    }
}

/// The holders of a file are the pids in the second column of the rows behind
/// the header.
pub proof fn holders_are_in_the_second_column(ls: Seq<Seq<char>>, n: int, pid: Pid)
    requires
        0 <= n <= ls.len(),
    ensures
        macos::pids_among(ls, n).contains(pid) <==> exists|i: int|
            1 <= i < n && (#[trigger] text::words(ls[i])).len() >= 2 && num::parse_signed(
                text::words(ls[i])[1],
                i32::MIN as int,
                i32::MAX as int,
            ) == Some(pid as int),
    decreases n,
{
    if n > 1 {
        holders_are_in_the_second_column(ls, n - 1, pid);
        let before = macos::pids_among(ls, n - 1);
        let now = macos::pids_among(ls, n);
        let w = text::words(ls[n - 1]);
        let p = num::parse_signed(w[1], i32::MIN as int, i32::MAX as int);
        signed_is_in_range(w[1], i32::MIN as int, i32::MAX as int);
        if now.contains(pid) && !before.contains(pid) {
            let k = choose|k: int| 0 <= k < now.len() && now[k] == pid;
            if k < before.len() {
                assert(before[k] == pid);
            }
            assert(text::words(ls[n - 1]).len() >= 2 && p == Some(pid as int));
        }
        if before.contains(pid) {
            let k = choose|k: int| 0 <= k < before.len() && before[k] == pid;
            assert(now[k] == pid);
        }
        if w.len() >= 2 && p == Some(pid as int) {
            assert(now[now.len() - 1] == pid);
        }
    }
}

proof fn signed_is_in_range(s: Seq<char>, min: int, max: int)
    requires
        min <= 0 <= max,
    ensures
        num::parse_signed(s, min, max) matches Some(v) ==> min <= v <= max,
{
    if s.len() > 0 && s[0] == '-' {
        let d = s.subrange(1, s.len() as int);
        if num::all_digits(d, 10) {
            num::digits_value_is_natural(d, 10);
        }
    } else {
        num::parsed_is_in_range(s, 10, max);
    }
}

} // verus!
