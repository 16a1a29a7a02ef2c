//! What holds of the listings of `netstat` and `tasklist`.

use vstd::prelude::*;
use vstd::string::*;

use crate::model::{Pid, ProcessView, SocketView};
use crate::platform::windows;
use crate::platform::windows::Want;
use crate::text::Class;
use crate::{num, text, util};

verus! {

// ---------- netstat ----------

/// A row of five columns has the protocol, the two ends, the state and the pid;
/// one of four has no state. A bracket before the local address marks the sixth
/// version. A remote port of 0 is no peer.
pub proof fn netstat_row_is_read(cols: Seq<Seq<char>>, pid: Pid)
    requires
        cols.len() == 4 || cols.len() == 5,
        text::same_ignoring_case(cols[0], "tcp"@) || text::same_ignoring_case(cols[0], "udp"@),
        util::host_port(cols[1]) is Some,
        cols[cols.len() - 1] == num::dec(pid as int),
    ensures
        windows::netstat_row(cols) matches Some(s) && s.pid == Some(pid) && s.local_addr == (
        util::host_port(cols[1])->0).0 && s.local_port == (util::host_port(cols[1])->0).1 as u16
            && (cols.len() == 5 ==> s.state == cols[3]) && (cols.len() == 4 ==> s.state
            == "UNCONNECTED"@) && (cols[1].len() > 0 && cols[1][0] == '[' ==> s.proto
            == text::lower(cols[0]) + seq!['6']) && (cols[1].len() == 0 || cols[1][0] != '['
            ==> s.proto == text::lower(cols[0])) && (match util::host_port(cols[2]) {
            Some(e) => if e.1 == 0 {
                s.peer_port is None && s.peer_addr is None
            } else {
                s.peer_port == Some(e.1 as u16) && s.peer_addr == (if e.0.len() > 0 {
                    Some(e.0)
                } else {
                    None
                })
            },
            None => s.peer_port is None && s.peer_addr is None,
        }),
{
    num::printed_number_reads_back(pid as int, i32::MIN as int, i32::MAX as int);
    reveal_strlit("[");
    assert("["@ =~= seq!['[']);
    let c = cols[1];
    text::holding_is_standing_between(c, "["@);
    if c.len() > 0 && c[0] == '[' {
        assert(c =~= "["@ + c.subrange(1, c.len() as int));
    } else if text::starts_with(c, "["@) {
        let b = choose|b: Seq<char>| c == #[trigger] ("["@ + b);
        assert(c[0] == '[');
    }
    assert(text::lower(cols[0]).push('6') =~= text::lower(cols[0]) + seq!['6']);
    assert(cols.last() == cols[cols.len() - 1]);
}

/// A row of another protocol, or of fewer columns, is no socket.
pub proof fn other_rows_are_no_sockets(cols: Seq<Seq<char>>)
    ensures
        cols.len() < 4 ==> windows::netstat_row(cols) is None,
        windows::netstat_row(cols) is Some ==> text::same_ignoring_case(cols[0], "tcp"@)
            || text::same_ignoring_case(cols[0], "udp"@),
        windows::netstat_row(cols) is Some ==> util::host_port(cols[1]) is Some,
{
}

/// The sockets of a listing are those of its lines, in their order.
pub proof fn lines_tell_the_sockets(ls: Seq<Seq<char>>, line: Seq<char>)
    ensures
        windows::netstat_rows(ls, 0) == Seq::<SocketView>::empty(),
        windows::netstat_row(text::words(line)) is Some ==> windows::netstat_rows(
            ls.push(line),
            ls.len() as int + 1,
        ) == windows::netstat_rows(ls, ls.len() as int).push(
            windows::netstat_row(text::words(line))->0,
        ),
        windows::netstat_row(text::words(line)) is None ==> windows::netstat_rows(
            ls.push(line),
            ls.len() as int + 1,
        ) == windows::netstat_rows(ls, ls.len() as int),
{
    netstat_prefix(ls, line, ls.len() as int);
}

proof fn netstat_prefix(ls: Seq<Seq<char>>, line: Seq<char>, n: int)
    requires
        n <= ls.len(),
    ensures
        windows::netstat_rows(ls.push(line), n) == windows::netstat_rows(ls, n),
    decreases n,
{
    if n > 0 {
        netstat_prefix(ls, line, n - 1);
    }
}

/// Which sockets are asked for: those on the port, those that listen in
/// whatever case, or all. The others are left out, and the order stays.
pub proof fn wanted_sockets_are_added(
    v: Seq<SocketView>,
    more: Seq<SocketView>,
    port: u16,
    n: int,
)
    requires
        0 <= n <= more.len(),
    ensures
        windows::with_wanted(v, more, Want::Port(port), n) == v + more.subrange(0, n).filter(
            |s: SocketView| s.local_port == port,
        ),
        windows::with_wanted(v, more, Want::Listening, n) == v + more.subrange(0, n).filter(
            |s: SocketView| text::same_ignoring_case(s.state, "LISTENING"@),
        ),
        windows::with_wanted(v, more, Want::All, n) == v + more.subrange(0, n),
    decreases n,
{
    reveal(Seq::filter);
    let on = |s: SocketView| s.local_port == port;
    let listens = |s: SocketView| text::same_ignoring_case(s.state, "LISTENING"@);
    if n > 0 {
        wanted_sockets_are_added(v, more, port, n - 1);
        let now = more.subrange(0, n);
        let before = more.subrange(0, n - 1);
        assert(now.drop_last() =~= before);
        assert(now.last() == more[n - 1]);
        assert(windows::with_wanted(v, more, Want::Port(port), n) =~= v + now.filter(on));
        assert(windows::with_wanted(v, more, Want::Listening, n) =~= v + now.filter(listens));
        assert(windows::with_wanted(v, more, Want::All, n) =~= v + now);
    } else {
        assert(more.subrange(0, 0).filter(on) =~= seq![]);
        assert(more.subrange(0, 0).filter(listens) =~= seq![]);
        assert(v + more.subrange(0, 0) =~= v);
    }
}

// ---------- tasklist ----------

proof fn quotes_cut(f: Seq<char>, rest: Seq<char>)
    requires
        !f.contains('"'),
    ensures
        text::split(seq!['"'] + f + seq!['"'] + rest, Class::Is('"')) == seq![
            Seq::<char>::empty(),
            f,
        ] + text::split(rest, Class::Is('"')),
{
    let k = Class::Is('"');
    assert forall|j: int| 0 <= j < f.len() implies !k.holds(#[trigger] f[j]) by {
    }
    let line = seq!['"'] + f + seq!['"'] + rest;
    let none = Seq::<char>::empty();
    assert(line =~= none + seq!['"'] + (f + seq!['"'] + rest));
    text::first_piece_ends_at_the_cut(f, '"', rest, k);
    text::first_piece_ends_at_the_cut(none, '"', f + seq!['"'] + rest, k);
    assert(seq![none] + (seq![f] + text::split(rest, k)) =~= seq![none, f] + text::split(rest, k));
}

/// The fields of a line are what stands between its quotes, one behind the
/// other.
pub proof fn fields_stand_between_quotes(f: Seq<char>, rest: Seq<char>)
    requires
        !f.contains('"'),
    ensures
        windows::quoted(seq!['"'] + f + seq!['"']) == seq![f],
        windows::quoted(seq!['"'] + f + seq!['"', ','] + (seq!['"'] + rest)) == seq![f]
            + windows::quoted(seq!['"'] + rest),
{
    let k = Class::Is('"');
    let none = Seq::<char>::empty();
    quotes_cut(f, none);
    text::uncut_is_one_piece(none, k);
    assert(seq!['"'] + f + seq!['"'] =~= seq!['"'] + f + seq!['"'] + none);
    assert(windows::quoted(seq!['"'] + f + seq!['"']) =~= seq![f]);
    let tail = seq![','] + seq!['"'] + rest;
    let line = seq!['"'] + f + seq!['"', ','] + (seq!['"'] + rest);
    assert(line =~= seq!['"'] + f + seq!['"'] + tail);
    quotes_cut(f, tail);
    text::first_piece_ends_at_the_cut(seq![','], '"', rest, k);
    text::first_piece_ends_at_the_cut(none, '"', rest, k);
    assert(none + seq!['"'] + rest =~= seq!['"'] + rest);
    let p = text::split(line, k);
    let q = text::split(seq!['"'] + rest, k);
    assert(p.len() == q.len() + 2);
    assert forall|i: int| 1 <= i < q.len() implies p[i + 2] == #[trigger] q[i] by {
    }
    let l = windows::quoted(line);
    let r = seq![f] + windows::quoted(seq!['"'] + rest);
    assert(l.len() == r.len());
    assert forall|i: int| 0 <= i < l.len() implies l[i] == r[i] by {
        if i > 0 {
            assert(l[i] == p[2 * i + 1]);
            assert(r[i] == q[2 * (i - 1) + 1]);
            assert(p[(2 * i - 1) + 2] == q[2 * i - 1]);
        }
    }
    assert(l =~= r);
}

proof fn three_fields(a: Seq<char>, b: Seq<char>, c: Seq<char>)
    requires
        !a.contains('"'),
        !b.contains('"'),
        !c.contains('"'),
    ensures
        windows::quoted(
            seq!['"'] + a + seq!['"', ','] + (seq!['"'] + (b + seq!['"', ','] + (seq!['"'] + (c
                + seq!['"'])))),
        ) == seq![a, b, c],
{
    let last = c + seq!['"'];
    let mid = b + seq!['"', ','] + (seq!['"'] + last);
    fields_stand_between_quotes(c, seq![]);
    assert(seq!['"'] + c + seq!['"'] =~= seq!['"'] + last);
    fields_stand_between_quotes(b, last);
    assert(seq!['"'] + b + seq!['"', ','] + (seq!['"'] + last) =~= seq!['"'] + mid);
    fields_stand_between_quotes(a, mid);
    assert(seq![a] + (seq![b] + seq![c]) =~= seq![a, b, c]);
}

/// A line names a process, its pid and the services in it, with commas between
/// them.
pub proof fn service_line_is_read(name: Seq<char>, pid: Pid, svcs: Seq<char>)
    requires
        !name.contains('"'),
        !svcs.contains('"'),
    ensures
        ({
            let line = seq!['"'] + name + seq!['"', ','] + (seq!['"'] + (num::dec(pid as int)
                + seq!['"', ','] + (seq!['"'] + (svcs + seq!['"']))));
            let parts = text::split(svcs, Class::Is(','));
            windows::service_row(line) == Some(
                (name, pid as int, windows::services_among(parts, parts.len() as int)),
            )
        }),
{
    let p = num::dec(pid as int);
    num::printed_number_has_no_space(pid as int);
    num::printed_number_reads_back(pid as int, i32::MIN as int, i32::MAX as int);
    three_fields(name, p, svcs);
    text::trimming_takes_the_ends(seq![], p, seq![], Class::White);
    assert(seq![] + p + seq![] =~= p);
}

/// A service is a part without the white space around it; nothing and `N/A`
/// are none.
pub proof fn services_are_the_named_parts(
    parts: Seq<Seq<char>>,
    a: Seq<char>,
    s: Seq<char>,
    b: Seq<char>,
)
    requires
        forall|j: int| 0 <= j < a.len() ==> text::is_white(#[trigger] a[j]),
        forall|j: int| 0 <= j < b.len() ==> text::is_white(#[trigger] b[j]),
        s.len() > 0,
        !text::is_white(s[0]),
        !text::is_white(s.last()),
    ensures
        windows::services_among(parts, 0) == Seq::<Seq<char>>::empty(),
        windows::services_among(parts.push(a + s + b), parts.len() as int + 1)
            == if text::same_ignoring_case(s, "n/a"@) {
            windows::services_among(parts, parts.len() as int)
        } else {
            windows::services_among(parts, parts.len() as int).push(s)
        },
        windows::services_among(parts.push(a), parts.len() as int + 1) == windows::services_among(
            parts,
            parts.len() as int,
        ),
{
    text::trimming_takes_the_ends(a, s, b, Class::White);
    services_prefix(parts, a + s + b, parts.len() as int);
    services_prefix(parts, a, parts.len() as int);
    text::next_out_is_first(a, Class::White, 0);
    text::end_out_is_last(a, Class::White, a.len() as int);
    assert(text::trim(a, Class::White).len() == 0);
}

proof fn services_prefix(parts: Seq<Seq<char>>, part: Seq<char>, n: int)
    requires
        n <= parts.len(),
    ensures
        windows::services_among(parts.push(part), n) == windows::services_among(parts, n),
    decreases n,
{
    if n > 0 {
        services_prefix(parts, part, n - 1);
    }
}

proof fn service_rows_prefix(ls: Seq<Seq<char>>, line: Seq<char>, n: int)
    requires
        n <= ls.len(),
    ensures
        windows::service_rows(ls.push(line), n) == windows::service_rows(ls, n),
    decreases n,
{
    if n > 0 {
        service_rows_prefix(ls, line, n - 1);
    }
}

proof fn all_services_prefix(
    rows: Seq<(Seq<char>, int, Seq<Seq<char>>)>,
    row: (Seq<char>, int, Seq<Seq<char>>),
    n: int,
)
    requires
        n <= rows.len(),
    ensures
        windows::all_services(rows.push(row), n) == windows::all_services(rows, n),
    decreases n,
{
    if n > 0 {
        all_services_prefix(rows, row, n - 1);
    }
}

/// The services of a process are those of every line that is read, in their
/// order; other lines add nothing.
pub proof fn services_of_every_line_count(ls: Seq<Seq<char>>, line: Seq<char>)
    ensures
        ({
            let rows = windows::service_rows(ls, ls.len() as int);
            let more = windows::service_rows(ls.push(line), ls.len() as int + 1);
            let before = windows::all_services(rows, rows.len() as int);
            let after = windows::all_services(more, more.len() as int);
            &&& windows::service_row(line) matches Some(r) ==> after == before + r.2
            &&& windows::service_row(line) is None ==> after == before
        }),
{
    service_rows_prefix(ls, line, ls.len() as int);
    let rows = windows::service_rows(ls, ls.len() as int);
    if windows::service_row(line) is Some {
        all_services_prefix(rows, windows::service_row(line)->0, rows.len() as int);
    }
}

proof fn digits_of_both(a: Seq<char>, b: Seq<char>, n: int)
    requires
        0 <= n <= b.len(),
    ensures
        windows::digits_among(a + b, a.len() + n) == windows::digits_among(a, a.len() as int)
            + windows::digits_among(b, n),
    decreases n,
{
    if n > 0 {
        digits_of_both(a, b, n - 1);
        assert((a + b)[a.len() + n - 1] == b[n - 1]);
    } else {
        digits_of_prefix(a, b, a.len() as int);
        assert(windows::digits_among(b, 0) =~= seq![]);
    }
}

proof fn digits_of_prefix(a: Seq<char>, b: Seq<char>, n: int)
    requires
        n <= a.len(),
    ensures
        windows::digits_among(a + b, n) == windows::digits_among(a, n),
    decreases n,
{
    if n > 0 {
        digits_of_prefix(a, b, n - 1);
    }
}

proof fn digits_are_kept(a: Seq<char>, n: int)
    requires
        0 <= n <= a.len(),
        forall|j: int| 0 <= j < a.len() ==> '0' <= #[trigger] a[j] <= '9',
    ensures
        windows::digits_among(a, n) == a.subrange(0, n),
    decreases n,
{
    if n > 0 {
        digits_are_kept(a, n - 1);
        assert(a.subrange(0, n) =~= a.subrange(0, n - 1).push(a[n - 1]));
    } else {
        assert(a.subrange(0, 0) =~= seq![]);
    }
}

/// A number of KiB is read by its digits, without the mark between thousands
/// and the unit behind it.
pub proof fn memory_is_its_digits(a: Seq<char>, mark: char, b: Seq<char>)
    requires
        a.len() > 0 && b.len() > 0,
        forall|j: int| 0 <= j < a.len() ==> '0' <= #[trigger] a[j] <= '9',
        forall|j: int| 0 <= j < b.len() ==> '0' <= #[trigger] b[j] <= '9',
        !('0' <= mark <= '9'),
    ensures
        windows::memory(a + seq![mark] + b + seq![' ', 'K']) == num::parse_unsigned(
            a + b,
            10,
            u64::MAX as int,
        ),
        windows::memory(b + seq![' ', 'K']) == num::parse_unsigned(b, 10, u64::MAX as int),
{
    let t = a + seq![mark] + b;
    assert(t[0] == a[0] && t.last() == b.last());
    unit_is_cut(t);
    unit_is_cut(b);
    let m = seq![mark];
    digits_of_both(a + m, b, b.len() as int);
    digits_of_both(a, m, 1);
    digits_are_kept(a, a.len() as int);
    digits_are_kept(b, b.len() as int);
    assert(a.subrange(0, a.len() as int) =~= a);
    assert(b.subrange(0, b.len() as int) =~= b);
    reveal_with_fuel(windows::digits_among, 2);
    assert(windows::digits_among(m, 1) =~= seq![]);
    assert(windows::digits_among(t, t.len() as int) =~= a + b);
}

proof fn unit_is_cut(t: Seq<char>)
    requires
        t.len() > 0,
        '0' <= t[0] <= '9',
        '0' <= t.last() <= '9',
    ensures
        text::trim(
            text::trim_end(
                text::trim(t + seq![' ', 'K'], Class::White),
                Class::Either('K', 'k'),
            ),
            Class::White,
        ) == t,
{
    let none = Seq::<char>::empty();
    let f = t + seq![' ', 'K'];
    assert(none + f + none =~= f);
    text::trimming_takes_the_ends(none, f, none, Class::White);
    let g = t + seq![' '];
    assert(f =~= g + seq!['K']);
    text::trimming_takes_the_ends(none, g, seq!['K'], Class::Either('K', 'k'));
    assert(none + t + seq![' '] =~= g);
    text::trimming_takes_the_ends(none, t, seq![' '], Class::White);
}

proof fn five_fields(
    a: Seq<char>,
    b: Seq<char>,
    c: Seq<char>,
    d: Seq<char>,
    e: Seq<char>,
)
    requires
        !a.contains('"'),
        !b.contains('"'),
        !c.contains('"'),
        !d.contains('"'),
        !e.contains('"'),
    ensures
        windows::quoted(
            seq!['"'] + a + seq!['"', ','] + (seq!['"'] + (b + seq!['"', ','] + (seq!['"'] + (c
                + seq!['"', ','] + (seq!['"'] + (d + seq!['"', ','] + (seq!['"'] + (e + seq![
                '"',
            ])))))))),
        ) == seq![a, b, c, d, e],
{
    let last = e + seq!['"'];
    let mid = d + seq!['"', ','] + (seq!['"'] + last);
    let tail = c + seq!['"', ','] + (seq!['"'] + mid);
    three_fields(c, d, e);
    assert(seq!['"'] + c + seq!['"', ','] + (seq!['"'] + mid) =~= seq!['"'] + tail);
    fields_stand_between_quotes(b, tail);
    let more = b + seq!['"', ','] + (seq!['"'] + tail);
    assert(seq!['"'] + b + seq!['"', ','] + (seq!['"'] + tail) =~= seq!['"'] + more);
    fields_stand_between_quotes(a, more);
    assert(seq![a] + (seq![b] + seq![c, d, e]) =~= seq![a, b, c, d, e]);
}

proof fn mem_table_prefix(ls: Seq<Seq<char>>, line: Seq<char>, n: int)
    requires
        n <= ls.len(),
    ensures
        windows::mem_table(ls.push(line), n) == windows::mem_table(ls, n),
    decreases n,
{
    if n > 0 {
        mem_table_prefix(ls, line, n - 1);
    }
}

/// A line gives the memory of its pid, from its last field; a later line for
/// the same pid counts more. Lines with fewer fields say nothing.
pub proof fn memory_line_is_read(
    ls: Seq<Seq<char>>,
    name: Seq<char>,
    pid: Pid,
    session: Seq<char>,
    number: Seq<char>,
    kb: u64,
)
    requires
        !name.contains('"'),
        !session.contains('"'),
        !number.contains('"'),
    ensures
        ({
            let line = seq!['"'] + name + seq!['"', ','] + (seq!['"'] + (num::dec(pid as int)
                + seq!['"', ','] + (seq!['"'] + (session + seq!['"', ','] + (seq!['"'] + (number
                + seq!['"', ','] + (seq!['"'] + ((num::dec(kb as int) + seq![' ', 'K']) + seq![
                '"',
            ]))))))));
            windows::mem_table(ls.push(line), ls.len() as int + 1) == windows::mem_table(
                ls,
                ls.len() as int,
            ).insert(pid, kb)
        }),
        windows::mem_table(ls.push(name), ls.len() as int + 1) == windows::mem_table(
            ls,
            ls.len() as int,
        ),
        windows::mem_table(ls, 0) == Map::<Pid, u64>::empty(),
{
    let p = num::dec(pid as int);
    let m = num::dec(kb as int);
    num::printed_number_has_no_space(pid as int);
    num::printed_number_reads_back(pid as int, i32::MIN as int, i32::MAX as int);
    num::printed_natural_is_digits(kb as int);
    num::printed_natural_reads_back(kb as int, u64::MAX as int);
    let f = m + seq![' ', 'K'];
    assert(!f.contains('"')) by {
        if f.contains('"') {
            let i = choose|i: int| 0 <= i < f.len() && f[i] == '"';
            if i < m.len() {
                assert(m[i] == '"');
            }
        }
    }
    five_fields(name, p, session, number, f);
    memory_is_its_digits(m, ',', m);
    text::trimming_takes_the_ends(seq![], p, seq![], Class::White);
    assert(seq![] + p + seq![] =~= p);
    let line = seq!['"'] + name + seq!['"', ','] + (seq!['"'] + (p + seq!['"', ','] + (seq!['"'] + (
    session + seq!['"', ','] + (seq!['"'] + (number + seq!['"', ','] + (seq!['"'] + (f + seq![
        '"',
    ]))))))));
    mem_table_prefix(ls, line, ls.len() as int);
    mem_table_prefix(ls, name, ls.len() as int);
    assert forall|j: int| 0 <= j < name.len() implies !Class::Is('"').holds(#[trigger] name[j]) by {
    }
    text::uncut_is_one_piece(name, Class::Is('"'));
}

// ---------- services ----------

/// Whatever runs under `services.exe` comes from the Service Control Manager,
/// labelled with the services it is; nothing else does.
pub proof fn service_manager_is_the_source(chain: Seq<ProcessView>, svcs: Seq<Seq<char>>)
    ensures
        windows::service(chain, svcs) is Some <==> exists|i: int|
            0 <= i < chain.len() && text::same_ignoring_case(
                (#[trigger] chain[i]).name,
                "services.exe"@,
            ),
        windows::service(chain, svcs) matches Some(s) ==> s.kind == "windows-service"@ && s.detail is Some && (
        svcs.len() == 0 ==> s.label is None && text::contains(
            s.detail->0,
            num::dec(chain.last().pid as int),
        )) && (svcs.len() == 1 ==> s.label == Some(svcs[0])) && (svcs.len() == 2 ==> s.label == Some(
            svcs[0] + ", "@ + svcs[1],
        )) && (svcs.len() > 0 ==> s.label is Some),
{
    if svcs.len() == 0 && windows::under_scm(chain) {
        let a = "descendant of the Service Control Manager (services.exe), but pid "@;
        let n = num::dec(chain.last().pid as int);
        let b = " is itself not a registered service"@;
        text::holding_is_standing_between(a + n + b, n);
    }
    if svcs.len() == 2 {
        assert(svcs.drop_last() =~= seq![svcs[0]]);
        reveal_with_fuel(text::join, 2);
        assert(text::join(svcs, ", "@) == svcs[0] + ", "@ + svcs[1]);
    }
}

} // verus!
