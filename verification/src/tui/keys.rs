//! What holds of the keys and of what comes back from outside: which key does
//! what, and to what.

use vstd::prelude::*;
use vstd::string::*;

use crate::model::{ContainerView, Pid, ProcessView, SocketView, TargetReportView};
use crate::platform::Os;
use crate::render::Clock;
use crate::tui::app;
use crate::tui::app::{ActionView, AppView, Focus, Key, Page, Tab};
use crate::tui::filter;
use crate::tui::filter::SortKey;
use crate::{num, order, text};

verus! {

/// Whether keys go to the tables: no page is open, nothing is typed, and
/// nothing is to be confirmed.
pub open spec fn is_browsing(a: AppView) -> bool {
    a.confirm_kill is None && a.page == Page::Browse && !a.search_mode
}

/// The number before the title of a tab.
pub open spec fn tab_digit(t: Tab) -> char {
    t.name()[0]
}

// ---------- moving ----------

/// In the table, keys move the selection: by one row, by twenty, to the first
/// or to the last row, and never out of the table.
pub proof fn row_keys_move_the_selection(a: AppView, key: Key, r: usize, now: u64, c: Clock)
    requires
        is_browsing(a),
        a.focus == Focus::Table,
        a.selected == Some(r),
        r < a.rows(),
    ensures
        ({
            let (b, act) = a.keyed(key, now, c);
            let last = a.rows() - 1;
            let to = |n: int| b.selected == Some(n as usize) && act == ActionView::Nothing;
            &&& key == Key::Down || key == Key::Char('j') ==> to(
                if r < last {
                    r + 1
                } else {
                    last
                },
            )
            &&& key == Key::Up || key == Key::Char('k') ==> to(
                if r > 0 {
                    r - 1
                } else {
                    0
                },
            )
            &&& key == Key::PageDown || key == Key::Char('f') || key == Key::Char(' ') ==> to(
                if r + 20 < last {
                    r + 20
                } else {
                    last
                },
            )
            &&& key == Key::PageUp || key == Key::Char('b') ==> to(
                if r > 20 {
                    r - 20
                } else {
                    0
                },
            )
            &&& key == Key::Char('g') ==> to(0)
            &&& key == Key::Char('G') ==> to(last)
        }),
{
}

/// The digits lead to the tabs that have them in their titles, and the arrows
/// to the tab with the next or the last number, around the end.
pub proof fn tab_keys_lead_to_their_tabs(a: AppView, key: Key, now: u64, c: Clock)
    requires
        is_browsing(a),
    ensures
        ({
            let (b, act) = a.keyed(key, now, c);
            let old = tab_digit(a.tab) as u32 - '1' as u32;
            let new = tab_digit(b.tab) as u32 - '1' as u32;
            &&& key matches Key::Char(d) ==> ('1' <= d <= '4' ==> tab_digit(b.tab) == d)
            &&& a.focus == Focus::Table && (key == Key::Right || key == Key::Char('l')) ==> new == (
            old + 1) % 4
            &&& a.focus == Focus::Table && (key == Key::Left || key == Key::Char('h')) ==> old == (
            new + 1) % 4
            &&& b.tab != a.tab ==> act == (match b.tab {
                Tab::Processes => ActionView::Nothing,
                Tab::Ports => ActionView::Load(Tab::Ports),
                Tab::Containers => ActionView::Load(Tab::Containers),
                Tab::Locks => if a.os == Os::Linux {
                    ActionView::Load(Tab::Locks)
                } else {
                    ActionView::Nothing
                },
            }) && b.status.len() == 0
        }),
{
    titles_begin_with_digits();
}

proof fn titles_begin_with_digits()
    ensures
        tab_digit(Tab::Processes) == '1',
        tab_digit(Tab::Ports) == '2',
        tab_digit(Tab::Containers) == '3',
        tab_digit(Tab::Locks) == '4',
{
    reveal_strlit("1. Processes");
    reveal_strlit("2. Ports");
    reveal_strlit("3. Containers");
    reveal_strlit("4. Locks");
}

/// In the details panel, keys scroll it: by one line, by its height or half of
/// it, to its top or far down.
pub proof fn panel_keys_scroll_the_details(a: AppView, key: Key, now: u64, c: Clock)
    requires
        is_browsing(a),
        a.focus == Focus::Details,
    ensures
        ({
            let (b, act) = a.keyed(key, now, c);
            let h = a.detail_height as int;
            let goes = |n: int|
                act == ActionView::Nothing && b.detail_scroll == if a.detail_scroll + n < 0 {
                    0
                } else if a.detail_scroll + n > 65535 {
                    65535
                } else {
                    a.detail_scroll + n
                };
            &&& key == Key::Down || key == Key::Char('j') ==> goes(1)
            &&& key == Key::Up || key == Key::Char('k') ==> goes(-1)
            &&& key == Key::Char('d') ==> goes(h / 2)
            &&& key == Key::Char('u') ==> goes(-(h / 2))
            &&& key == Key::PageDown || key == Key::Char('f') ==> goes(h)
            &&& key == Key::PageUp || key == Key::Char('b') ==> goes(-h)
            &&& key == Key::Char('g') ==> b.detail_scroll == 0
            &&& key == Key::Char('G') ==> b.detail_scroll == 32767
            &&& b.selected == a.selected || !(key == Key::Down || key == Key::Up || key
                == Key::PageDown || key == Key::PageUp)
        }),
{
}

/// How far the six panes of the pages are scrolled.
pub open spec fn scrolls(a: AppView) -> Seq<int> {
    seq![
        a.detail_scroll as int,
        a.env_scroll as int,
        a.port_scroll as int,
        a.port_owner_scroll as int,
        a.cd_scroll as int,
        a.cdp_scroll as int,
    ]
}

/// Which of the six panes has the focus.
pub open spec fn focused_pane(a: AppView) -> int {
    match a.page {
        Page::Detail => if a.detail_pane {
            0
        } else {
            1
        },
        Page::PortDetail => if a.port_pane_conn {
            2
        } else {
            3
        },
        Page::ContainerDetail => if a.cd_pane_info {
            4
        } else {
            5
        },
        Page::Browse => -1,
    }
}

/// On a page, keys scroll the focused pane and no other: by one line, by the
/// height of the larger pane or half of it, to the top or the bottom.
pub proof fn page_keys_scroll_the_focused_pane(a: AppView, key: Key, now: u64, c: Clock)
    requires
        a.confirm_kill is None,
        a.page != Page::Browse,
    ensures
        ({
            let (b, act) = a.keyed(key, now, c);
            let f = focused_pane(a);
            let h = if a.detail_height > a.port_pane_height {
                a.detail_height as int
            } else {
                a.port_pane_height as int
            };
            let half = if h >= 2 {
                h / 2
            } else {
                1
            };
            let goes = |n: int|
                act == ActionView::Nothing && b.page == a.page && scrolls(b)[f] == if scrolls(a)[f]
                    + n < 0 {
                    0
                } else if scrolls(a)[f] + n > 65535 {
                    65535
                } else {
                    scrolls(a)[f] + n
                };
            &&& key == Key::Down || key == Key::Char('j') ==> goes(1)
            &&& key == Key::Up || key == Key::Char('k') ==> goes(-1)
            &&& key == Key::Char('d') ==> goes(half)
            &&& key == Key::Char('u') ==> goes(-half)
            &&& key == Key::PageDown || key == Key::Char('f') || key == Key::Char(' ') ==> goes(h)
            &&& key == Key::PageUp || key == Key::Char('b') ==> goes(-h)
            &&& key == Key::Char('g') ==> scrolls(b)[f] == 0
            &&& key == Key::Char('G') ==> scrolls(b)[f] == 65535
            &&& forall|i: int| 0 <= i < 6 && i != f ==> #[trigger] scrolls(b)[i] == scrolls(a)[i]
        }),
{
}

// ---------- opening, killing, sorting, typing ----------

/// Enter opens what is selected: the process, the port of the socket, or the
/// container.
pub proof fn enter_opens_what_is_selected(a: AppView, i: usize, now: u64, c: Clock)
    requires
        is_browsing(a),
        a.selected == Some(i),
    ensures
        ({
            let (b, act) = a.keyed(Key::Enter, now, c);
            &&& a.tab == Tab::Processes && i < a.view.len() && a.view[i as int] < a.procs.len()
                ==> act == ActionView::OpenDetail(a.procs[a.view[i as int] as int].pid)
            &&& a.tab == Tab::Ports && i < a.socket_view.len() && a.socket_view[i as int]
                < a.sockets.len() ==> ({
                let port = a.sockets[a.socket_view[i as int] as int].local_port;
                act == ActionView::OpenPort(port) && b.port_detail_port == port
            })
            &&& a.tab == Tab::Containers && i < a.container_view.len() && a.container_view[i as int]
                < a.containers.len() ==> ({
                let x = a.containers[a.container_view[i as int] as int];
                act == ActionView::ListMembers(x.id) && b.container_detail == Some(x) && b.page
                    == Page::ContainerDetail && b.cd_scroll == 0 && b.cdp_scroll == 0
                    && b.cd_pane_info
            })
            &&& a.tab == Tab::Locks ==> b.focus == Focus::Details && act == ActionView::Nothing
        }),
{
}

/// Asking to kill is asking about the selected process, and confirming kills
/// the selected process.
pub proof fn kill_is_about_the_selected_process(a: AppView, i: usize, now: u64, c: Clock)
    requires
        a.selected == Some(i),
        i < a.view.len(),
        a.view[i as int] < a.procs.len(),
    ensures
        ({
            let pid = a.procs[a.view[i as int] as int].pid;
            &&& is_browsing(a) ==> ({
                let (b, act) = a.keyed(Key::Char('x'), now, c);
                b.confirm_kill == Some(pid) && act == ActionView::Nothing
            })
            &&& a.confirm_kill is Some ==> ({
                let (b, act) = a.keyed(Key::Char('y'), now, c);
                b.confirm_kill is None && act == ActionView::Kill(pid)
            })
        }),
{
}

/// The column that a letter sorts by: the first letter of its name, or the t in
/// the start time.
pub open spec fn column_of(c: char) -> Option<SortKey> {
    match c {
        'p' => Some(SortKey::Pid),
        'n' => Some(SortKey::Name),
        'u' => Some(SortKey::User),
        'c' => Some(SortKey::Cpu),
        'm' => Some(SortKey::Mem),
        't' => Some(SortKey::Started),
        _ => None,
    }
}

/// A letter sorts the table by its column, the largest first; the same letter
/// again turns the order around. The rows are those of the new order.
pub proof fn sort_keys_sort_by_their_column(a: AppView, ch: char, now: u64, c: Clock)
    requires
        is_browsing(a),
        a.focus == Focus::Table,
        column_of(ch) is Some,
    ensures
        ({
            let (b, act) = a.keyed(Key::Char(ch), now, c);
            &&& b.sort_key == column_of(ch)->0
            &&& b.sort_desc == (a.sort_key != b.sort_key || !a.sort_desc)
            &&& b.view == filter::process_view(
                a.procs,
                a.ranks,
                text::unicode_lower(a.search),
                b.sort_key,
                b.sort_desc,
            )
            &&& act == ActionView::Nothing
        }),
{
}

/// Typing adds to the filter of the tab, and the rows are those that match it
/// in lower case.
pub proof fn typing_filters_the_tab(a: AppView, ch: char, now: u64, c: Clock)
    requires
        a.confirm_kill is None,
        a.page == Page::Browse,
        a.search_mode,
    ensures
        ({
            let (b, act) = a.keyed(Key::Char(ch), now, c);
            &&& act == ActionView::Nothing && b.search_mode
            &&& a.tab == Tab::Processes ==> b.search == a.search.push(ch) && b.view
                == filter::process_view(
                a.procs,
                a.ranks,
                text::unicode_lower(a.search.push(ch)),
                a.sort_key,
                a.sort_desc,
            )
            &&& a.tab == Tab::Ports ==> b.port_search == a.port_search.push(ch) && b.socket_view
                == filter::matching_sockets(
                a.sockets,
                text::unicode_lower(a.port_search.push(ch)),
                filter::lower_names(a.procs, a.procs.len() as int),
            )
            &&& a.tab == Tab::Containers ==> b.container_search == a.container_search.push(ch)
                && b.container_view == filter::matching_containers(
                a.containers,
                text::unicode_lower(a.container_search.push(ch)),
            )
        }),
{
}

/// A slash begins to type, r refreshes, q quits and Tab changes the focus.
pub proof fn other_keys_do_their_work(a: AppView, now: u64, c: Clock)
    requires
        is_browsing(a),
    ensures
        a.keyed(Key::Char('/'), now, c).0.search_mode,
        a.keyed(Key::Char('/'), now, c).1 == ActionView::Nothing,
        a.keyed(Key::Char('r'), now, c) == (a, ActionView::Refresh),
        a.keyed(Key::Char('q'), now, c) == (a, ActionView::Quit),
        a.keyed(Key::Tab, now, c).0.focus != a.focus,
        a.keyed(Key::Other, now, c) == (a, ActionView::Nothing),
{
}

// ---------- what comes back ----------

/// New processes replace the old ones and are sampled; where they could not be
/// listed, the old ones stay. A refresh shows them sorted.
pub proof fn listed_processes_are_shown(
    a: AppView,
    listed: Seq<ProcessView>,
    ranks: Seq<i64>,
    now: u64,
)
    ensures
        a.with_processes(None, now) == a,
        a.with_processes(Some(listed), now).procs == listed,
        a.with_processes(Some(listed), now).hist == a.hist.updated(listed, now),
        a.with_processes(Some(listed), now).refreshed(ranks, now).view == filter::process_view(
            listed,
            ranks,
            text::unicode_lower(a.search),
            a.sort_key,
            a.sort_desc,
        ),
        a.refreshed(ranks, now).last_refresh == Some(now),
        a.refreshed(ranks, now).ranks == ranks,
{
}

/// The tables are refreshed when three seconds have passed, and the details
/// follow when the cursor has rested for half a second.
pub proof fn time_passes(a: AppView, now: u64)
    ensures
        a.refresh_due(now) <==> (a.last_refresh matches Some(at) ==> now - at >= 3_000_000_000),
        a.details_due(now) <==> (a.detail_pending_since matches Some(at) && now - at
            >= 500_000_000),
{
}

/// Containers that come in are shown while they are waited for, and else not.
pub proof fn awaited_containers_are_shown(a: AppView, found: Seq<ContainerView>)
    ensures
        a.containers_loading ==> ({
            let b = a.with_containers(found);
            &&& b.containers == found && !b.containers_loading && b.containers_loaded
            &&& b.container_view == filter::matching_containers(
                found,
                text::unicode_lower(a.container_search),
            )
        }),
        !a.containers_loading ==> a.with_containers(found) == a,
{
}

/// The details are asked for of the selected process, unless they show it; they
/// are then shown from the top.
pub proof fn details_are_of_the_selected_process(a: AppView, i: usize)
    requires
        a.selected == Some(i),
        i < a.view.len(),
        a.view[i as int] < a.procs.len(),
    ensures
        ({
            let pid = a.procs[a.view[i as int] as int].pid;
            let (b, asked) = a.details_asked();
            &&& a.detail_pid == Some(pid) ==> b == a && asked is None
            &&& a.detail_pid != Some(pid) ==> asked == Some(pid) && b.detail_pid == Some(pid)
                && b.detail_scroll == 0
        }),
{
}

/// A report opens the page of its process, at the top and with the first pane
/// focused; without one the page stays closed, and the status tells the pid.
pub proof fn report_opens_the_page(
    a: AppView,
    pid: Pid,
    r: TargetReportView,
    files: Seq<Seq<char>>,
    c: Clock,
)
    ensures
        r.found ==> ({
            let b = a.with_detail_page(pid, Some(r), files, c);
            &&& b.page == Page::Detail && b.detail_pane && b.detail_scroll == 0 && b.env_scroll == 0
            &&& b.detail_report == Some(r) && b.detail_pid == Some(pid) && b.open_files == Some(
                files,
            )
        }),
        !r.found ==> a.with_detail_page(pid, Some(r), files, c).page == a.page,
        a.with_detail_page(pid, None, files, c).page == a.page,
        exists|x: Seq<char>, y: Seq<char>|
            a.with_detail_page(pid, None, files, c).status == #[trigger] (x + num::dec(
                pid as int,
            ) + y),
        a.with_port_page(Some(r)).page == Page::PortDetail,
        a.with_port_page(Some(r)).port_detail_report == if r.found {
            Some(r)
        } else {
            None
        },
        a.with_port_page(None).port_detail_report is None,
{
    let n = num::dec(pid as int);
    assert(a.with_detail_page(pid, None, files, c).status == "pid "@ + n
        + " is gone — details unavailable"@);
}

proof fn sockets_at_a_port(v: Seq<SocketView>, port: u16, n: int)
    requires
        0 <= n <= v.len(),
    ensures
        app::at_port(v, port, n) == v.subrange(0, n).filter(|s: SocketView| s.local_port == port),
    decreases n,
{
    reveal(Seq::filter);
    let f = |s: SocketView| s.local_port == port;
    if n > 0 {
        sockets_at_a_port(v, port, n - 1);
        assert(v.subrange(0, n).drop_last() =~= v.subrange(0, n - 1));
        assert(v.subrange(0, n).last() == v[n - 1]);
    } else {
        assert(v.subrange(0, 0).filter(f) =~= seq![]);
    }
}

/// A port page shows the sockets that were found, or else the listed ones on
/// its port; those that live come first.
pub proof fn port_page_shows_its_sockets(a: AppView, found: Seq<SocketView>)
    ensures
        a.with_port_sockets(Some(found)).port_detail_sockets == app::live_first(found),
        a.with_port_sockets(None).port_detail_sockets == app::live_first(
            a.sockets.filter(|s: SocketView| s.local_port == a.port_detail_port),
        ),
{
    sockets_at_a_port(a.sockets, a.port_detail_port, a.sockets.len() as int);
    assert(a.sockets.subrange(0, a.sockets.len() as int) =~= a.sockets);
}

/// Whether a state is that of a socket that waits for others.
pub open spec fn waits(state: Seq<char>) -> bool {
    state == "LISTEN"@ || state == "LISTENING"@
}

proof fn listening_is_where(v: Seq<SocketView>, at: int, i: int)
    requires
        0 <= i <= at <= v.len(),
        forall|j: int| 0 <= j < at ==> !waits((#[trigger] v[j]).state),
        at < v.len() ==> waits(v[at].state),
    ensures
        app::first_listening(v, i) == if at < v.len() {
            Some(v[at])
        } else {
            None
        },
    decreases at - i,
{
    if i < at {
        assert(!waits(v[i].state));
        listening_is_where(v, at, i + 1);
    }
}

proof fn owner_is_where(v: Seq<SocketView>, at: int, i: int)
    requires
        0 <= i <= at <= v.len(),
        forall|j: int| 0 <= j < at ==> (#[trigger] v[j]).pid is None,
        at < v.len() ==> v[at].pid is Some,
    ensures
        app::first_owner(v, i) == if at < v.len() {
            v[at].pid
        } else {
            None
        },
    decreases at - i,
{
    if i < at {
        assert(v[i].pid is None);
        owner_is_where(v, at, i + 1);
    }
}

/// A port belongs to the process whose socket listens on it; where none does,
/// to the first process that has a socket there.
pub proof fn port_belongs_to_who_listens(v: Seq<SocketView>, at: int)
    requires
        0 <= at < v.len(),
    ensures
        waits(v[at].state) && (forall|j: int| 0 <= j < at ==> !waits((#[trigger] v[j]).state))
            ==> app::port_owner(v) == v[at].pid,
        (forall|j: int| 0 <= j < v.len() ==> !waits((#[trigger] v[j]).state)) && v[at].pid is Some
            && (forall|j: int| 0 <= j < at ==> (#[trigger] v[j]).pid is None) ==> app::port_owner(v)
            == v[at].pid,
        (forall|j: int| 0 <= j < v.len() ==> !waits((#[trigger] v[j]).state)) && (forall|j: int|
            0 <= j < v.len() ==> (#[trigger] v[j]).pid is None) ==> app::port_owner(v) is None,
{
    if waits(v[at].state) && (forall|j: int| 0 <= j < at ==> !waits((#[trigger] v[j]).state)) {
        listening_is_where(v, at, 0);
    }
    if forall|j: int| 0 <= j < v.len() ==> !waits((#[trigger] v[j]).state) {
        listening_is_where(v, v.len() as int, 0);
        if v[at].pid is Some && (forall|j: int| 0 <= j < at ==> (#[trigger] v[j]).pid is None) {
            owner_is_where(v, at, 0);
        }
        if forall|j: int| 0 <= j < v.len() ==> (#[trigger] v[j]).pid is None {
            owner_is_where(v, v.len() as int, 0);
        }
    }
}

/// On a port page the sockets that wait for others come first, then the
/// established ones, then the rest; none is lost.
pub proof fn waiting_sockets_come_first(v: Seq<SocketView>, i: int, j: int)
    requires
        v.len() <= usize::MAX,
        0 <= i < j < v.len(),
    ensures
        ({
            let s = app::live_first(v);
            &&& s.len() == v.len()
            &&& waits(s[j].state) ==> waits(s[i].state)
            &&& s[j].state == "ESTABLISHED"@ ==> waits(s[i].state) || s[i].state == "ESTABLISHED"@
            &&& s.contains(v[i]) && s.contains(v[j])
        }),
{
    let keys = app::state_keys(v);
    let idx = order::sorted(order::all_positions(v.len()), keys, false);
    let s = app::live_first(v);
    order::sorted_keys_go_one_way(v.len(), keys, false, i, j);
    order::sorting_loses_nothing(v.len(), keys, false, i as usize);
    order::sorting_loses_nothing(v.len(), keys, false, j as usize);
    let (x, y) = (idx[i] as int, idx[j] as int);
    let (a, b) = (app::state_rank(v[x].state), app::state_rank(v[y].state));
    let none = Seq::<Seq<i64>>::empty();
    let e = Seq::<i64>::empty();
    assert(e + (seq![a] + e) =~= seq![a]);
    assert(e + (seq![b] + e) =~= seq![b]);
    assert(keys[x] =~= none + (seq![seq![a]] + none));
    assert(keys[y] =~= none + (seq![seq![b]] + none));
    order::first_field_decides(none, seq![a], none, seq![b], none);
    order::first_difference_decides(e, a, e, b, e);
    assert(a <= b);
    reveal_strlit("ESTABLISHED");
    reveal_strlit("LISTEN");
    reveal_strlit("LISTENING");
    assert("ESTABLISHED"@[0] == 'E' && "LISTEN"@[0] == 'L' && "LISTENING"@[0] == 'L');
    let k = choose|k: int| 0 <= k < idx.len() && idx[k] == i as usize;
    assert(s[k] == v[i]);
    let l = choose|l: int| 0 <= l < idx.len() && idx[l] == j as usize;
    assert(s[l] == v[j]);
}

} // verus!
