use std::collections::HashMap;

use witr_rs::model::{Container, Pid, Process, Socket, TargetReport, TargetSpec};
use witr_rs::pipeline::report;
use witr_rs::platform::{parse_container_line, Os};
use witr_rs::render::Clock;
use witr_rs::tui::app::{Action, Focus, Key, Page, Tab, TuiApp, DEBOUNCE, REFRESH};
use witr_rs::tui::filter::{
    arrange_processes, filter_containers, filter_sockets, parse_locks, SortKey,
};
use witr_rs::tui::line::{
    line_to_string, lines_to_string, pane_inner_width, scroll_indicator, wrapped_count, Color, Line,
};
use witr_rs::tui::screen::{
    heading_style, mode_line, search_line, selected_style, tab_bar, ui, Item, Rect,
};

const CLOCK: Clock = Clock { now: 1_700_000_000, offset: 0 };

fn process(pid: Pid, name: &str, mem: u64) -> Process {
    Process {
        pid,
        ppid: Some(1),
        name: name.into(),
        user: Some("me".into()),
        started: Some(CLOCK.now - 100),
        mem_kb: Some(mem),
        ..Default::default()
    }
}

/// Thirty processes, the one with the largest memory first in the table.
fn table() -> Vec<Process> {
    let mut v = vec![Process { pid: 1, name: "init".into(), mem_kb: Some(1), ..Default::default() }];
    for i in 0..30 {
        v.push(process(100 + i, &format!("worker{i}"), 5000 - i as u64));
    }
    v
}

fn trace(app: &TuiApp, pid: Pid) -> Option<TargetReport> {
    let map: HashMap<Pid, Process> = app.procs.iter().map(|p| (p.pid, p.clone())).collect();
    let p = map.get(&pid)?.clone();
    Some(report(&map, &TargetSpec::Pid { pid }, pid, &vec![], &vec![], p, None, None))
}

fn settle(app: &mut TuiApp) {
    if let Some(pid) = app.update_details() {
        let r = trace(app, pid);
        app.details_fetched(pid, &r, CLOCK);
    }
}

fn start() -> TuiApp {
    let mut app = TuiApp::new(Os::Linux);
    assert!(app.refresh_due(0));
    app.processes_listed(Some(table()), 0);
    let ranks = vec![-1; app.procs.len()];
    app.refreshed(ranks, 0);
    settle(&mut app);
    app
}

fn press(app: &mut TuiApp, key: Key) -> Action {
    app.on_key(key, 7, CLOCK)
}

fn socket(proto: &str, addr: &str, port: u16, state: &str, pid: Option<Pid>) -> Socket {
    Socket {
        proto: proto.into(),
        local_addr: addr.into(),
        local_port: port,
        peer_addr: None,
        peer_port: None,
        state: state.into(),
        pid,
    }
}

#[test]
fn wrapped_count_ceil() {
    let mk = |s: &str| Line::raw(s);
    let lines = vec![mk("short"), mk(""), mk(&"a".repeat(25))];
    // 25-char line at width 10 → 3 rows; others 1 each
    assert_eq!(wrapped_count(&lines, 10), 5);
    // exact multiples don't spill an extra row
    let exact = vec![mk(&"x".repeat(10))];
    assert_eq!(wrapped_count(&exact, 10), 1);
    // zero width degrades to 1 char per row
    assert_eq!(wrapped_count(&lines, 0), 31);
}

#[test]
fn wide_characters_take_two_columns() {
    let lines = vec![Line::raw("日本語")];
    assert_eq!(wrapped_count(&lines, 3), 2);
}

#[test]
fn vim_navigation() {
    let mut app = start();
    if app.view.len() < 3 {
        panic!("need a few processes for the test");
    }
    let n = app.view.len();
    assert_eq!(app.selected, Some(0));

    press(&mut app, Key::Char('j'));
    assert_eq!(app.selected, Some(1));
    press(&mut app, Key::Char('k'));
    assert_eq!(app.selected, Some(0));
    press(&mut app, Key::Char('G'));
    assert_eq!(app.selected, Some(n - 1));
    press(&mut app, Key::Char('g'));
    assert_eq!(app.selected, Some(0));
    press(&mut app, Key::Char('k')); // clamp at top
    assert_eq!(app.selected, Some(0));
    press(&mut app, Key::Char('f'));
    assert_eq!(app.selected, Some(20.min(n - 1)));
    press(&mut app, Key::Char('b'));
    assert_eq!(app.selected, Some(0));
}

#[test]
fn h_l_switch_tabs() {
    let mut app = start();
    press(&mut app, Key::Char('h'));
    assert_eq!(app.tab, Tab::Locks);
    press(&mut app, Key::Char('l'));
    assert_eq!(app.tab, Tab::Processes);
    press(&mut app, Key::Char('l'));
    assert_eq!(app.tab, Tab::Ports);
}

#[test]
fn selection_debounce_refreshes_details() {
    let mut app = start();
    let first_pid = app.detail_pid;
    press(&mut app, Key::Char('j'));
    // pending refresh is armed and the "computed for" marker is cleared
    assert!(app.detail_pending_since.is_some());
    assert_eq!(app.detail_pid, None);
    assert!(!app.details_due(7 + DEBOUNCE - 1));
    assert!(app.details_due(7 + DEBOUNCE + 80_000_000));
    settle(&mut app);
    assert_eq!(app.detail_pid, app.selected_pid());
    assert_ne!(app.detail_pid, first_pid);
    // the panel body actually names the new pid
    let body = app.detail_lines.iter().map(|l| line_to_string(l)).collect::<String>();
    assert!(body.contains(&app.selected_pid().unwrap().to_string()));
}

#[test]
fn socket_filter_matches_port_pid_name() {
    let sockets = vec![
        socket("tcp", "127.0.0.1", 8080, "LISTEN", Some(100)),
        socket("tcp6", "*", 443, "LISTEN", Some(200)),
        socket("udp", "0.0.0.0", 5353, "UNCONNECTED", None),
    ];
    let names: HashMap<Pid, String> =
        HashMap::from([(100, "nginx".to_string()), (200, "envoy".to_string())]);
    // by port
    assert_eq!(filter_sockets(&sockets, "8080", &names).len(), 1);
    assert_eq!(filter_sockets(&sockets, "8080", &names)[0], 0);
    // by pid
    assert_eq!(filter_sockets(&sockets, "200", &names)[0], 1);
    // by process name
    assert_eq!(filter_sockets(&sockets, "nginx", &names)[0], 0);
    // by proto / state
    assert_eq!(filter_sockets(&sockets, "udp", &names).len(), 1);
    assert_eq!(filter_sockets(&sockets, "listen", &names).len(), 2);
    // no filter → everything
    assert_eq!(filter_sockets(&sockets, "", &names).len(), 3);
    // no match
    assert!(filter_sockets(&sockets, "99999", &names).is_empty());
}

#[test]
fn kill_moves_to_x_and_confirm_cancels() {
    let mut app = start();
    let pid = app.selected_pid().unwrap();
    press(&mut app, Key::Char('x'));
    assert_eq!(app.confirm_kill, Some(pid));
    press(&mut app, Key::Char('n'));
    assert_eq!(app.confirm_kill, None);
}

#[test]
fn confirmed_kill_names_the_selected_process() {
    let mut app = start();
    let pid = app.selected_pid().unwrap();
    press(&mut app, Key::Char('x'));
    assert!(line_to_string(&mode_line(&app)).contains("kill pid"));
    assert!(matches!(press(&mut app, Key::Char('y')), Action::Kill(p) if p == pid));
    assert_eq!(app.confirm_kill, None);
    app.killed(pid, Ok(()));
    assert_eq!(app.status, format!("SIGTERM sent to pid {pid}"));
    app.killed(pid, Err("denied".into()));
    assert_eq!(app.status, format!("kill {pid}: denied"));
}

#[test]
fn port_detail_page_opens_and_closes() {
    let mut app = start();
    app.tab = Tab::Ports;
    app.sockets = vec![
        socket("tcp", "*", 22, "LISTEN", None),
        socket("tcp", "*", 8080, "LISTEN", Some(100)),
    ];
    app.socket_view = (0..app.sockets.len()).collect();
    // pick a socket with a known owning process if any, else the first
    let sel = app.sockets.iter().position(|s| s.pid.is_some()).unwrap_or(0);
    app.selected = Some(sel);
    let want_port = app.sockets[sel].local_port;

    let port = match press(&mut app, Key::Enter) {
        Action::OpenPort(p) => p,
        _ => panic!("a port was expected"),
    };
    let found = vec![
        socket("tcp", "127.0.0.1", port, "TIME_WAIT", None),
        socket("tcp", "127.0.0.1", port, "ESTABLISHED", Some(101)),
        socket("tcp", "*", port, "LISTEN", Some(100)),
    ];
    let owner = app.port_sockets_found(Some(found));
    assert_eq!(owner, Some(100));
    let r = trace(&app, owner.unwrap());
    app.port_opened(r);
    assert_eq!(app.page, Page::PortDetail);
    assert_eq!(app.port_detail_port, want_port);
    assert!(app.port_detail_sockets.iter().all(|s| s.local_port == want_port));
    let states: Vec<&str> = app.port_detail_sockets.iter().map(|s| s.state.as_str()).collect();
    assert_eq!(states, ["LISTEN", "ESTABLISHED", "TIME_WAIT"]);

    // connections pane: header row + one line per socket
    let lines = app.port_connection_lines();
    assert!(lines.len() >= 1);
    assert_eq!(lines.len(), 4);

    // Tab toggles focus between connections and owner
    assert!(app.port_pane_conn);
    press(&mut app, Key::Tab);
    assert!(!app.port_pane_conn);

    press(&mut app, Key::Esc);
    assert_eq!(app.page, Page::Browse);
    assert_eq!(app.tab, Tab::Ports);
}

#[test]
fn failed_port_lookup_shows_the_sockets_of_the_table() {
    let mut app = start();
    app.switch_tab(Tab::Ports);
    app.sockets_listed(vec![
        socket("tcp", "*", 22, "ESTABLISHED", Some(7)),
        socket("tcp", "*", 80, "LISTEN", Some(8)),
        socket("udp", "*", 22, "UNCONNECTED", None),
    ]);
    assert!(matches!(press(&mut app, Key::Enter), Action::OpenPort(22)));
    assert_eq!(app.port_sockets_found(None), Some(7));
    assert_eq!(app.port_detail_sockets.len(), 2);
    assert!(app.port_detail_sockets.iter().all(|s| s.local_port == 22));
    app.port_opened(None);
    assert!(app.port_detail_report.is_none());
    assert!(app.focused_pane_text(CLOCK).contains("ESTABLISHED"));
}

#[test]
fn container_parse_and_filter() {
    let line = r#"{"Command":"\"pwsh\"","ID":"98974e0e63d6","Image":"mcr.microsoft.com/dotnet/sdk:9.0","Names":"powershell","State":"running","Status":"Up 2 weeks"}"#;
    let c = parse_container_line(line, "docker").unwrap();
    assert_eq!(c.id, "98974e0e63d6");
    assert_eq!(c.name, "powershell");
    assert_eq!(c.state, "running");
    assert_eq!(c.runtime, "docker");

    // Names as array (older docker versions)
    let arr = r#"{"ID":"abc","Names":["web1","web1Alias"],"Image":"nginx","State":"exited","Status":"Exited (0)"}"#;
    let c2 = parse_container_line(arr, "docker").unwrap();
    assert_eq!(c2.name, "web1");
    assert_eq!(c2.state, "exited");

    // garbage line is skipped
    assert!(parse_container_line("not json", "docker").is_none());

    let containers = vec![c, c2];
    assert_eq!(filter_containers(&containers, "powershell"), vec![0]);
    assert_eq!(filter_containers(&containers, "nginx"), vec![1]);
    assert_eq!(filter_containers(&containers, "run"), vec![0]);
    assert_eq!(filter_containers(&containers, ""), vec![0, 1]);
    assert!(filter_containers(&containers, "k8s").is_empty());
}

fn two_containers() -> Vec<Container> {
    vec![
        Container {
            runtime: "docker".into(),
            id: "98974e0e63d6".into(),
            name: "powershell".into(),
            image: "dotnet/sdk:9.0".into(),
            state: "running".into(),
            status: "Up 2 weeks".into(),
            ports: "".into(),
        },
        Container {
            runtime: "docker".into(),
            id: "1daeb5281349".into(),
            name: "stack-akhq-1".into(),
            image: "tchiotludo/akhq".into(),
            state: "running".into(),
            status: "Up 2 weeks".into(),
            ports: "".into(),
        },
    ]
}

#[test]
fn container_search_filters_view() {
    let mut app = start();
    app.tab = Tab::Containers;
    app.containers = two_containers();
    app.rebuild_container_view();
    assert_eq!(app.container_view.len(), 2);
    app.container_search = "akhq".into();
    app.rebuild_container_view();
    assert_eq!(app.container_view.len(), 1);
    assert_eq!(app.container_view[0], 1);
    app.container_search.clear();
    app.rebuild_container_view();
    assert_eq!(app.container_view.len(), 2);
}

#[test]
fn container_page_opens_and_closes() {
    let mut app = start();
    assert!(matches!(press(&mut app, Key::Char('3')), Action::Load(Tab::Containers)));
    assert!(app.containers_requested());
    // not twice at once
    assert!(!app.containers_requested());
    app.containers_arrived(two_containers());
    assert!(app.containers_loaded);
    app.selected = Some(1);
    let id = match press(&mut app, Key::Enter) {
        Action::ListMembers(id) => id,
        _ => panic!("a container was expected"),
    };
    assert_eq!(id, "1daeb5281349");
    app.members_listed(vec![process(9, "java", 1), process(4, "sh", 1)]);
    assert_eq!(app.page, Page::ContainerDetail);
    let text = app.focused_pane_text(CLOCK);
    assert!(text.starts_with("Name     stack-akhq-1\n"));
    assert!(text.ends_with("Ports    -"));
    press(&mut app, Key::Tab);
    let rows = app.container_proc_lines();
    assert_eq!(rows.len(), 3);
    assert!(line_to_string(&rows[1]).starts_with("4 "));
    press(&mut app, Key::Char('q'));
    assert_eq!(app.page, Page::Browse);
}

#[test]
fn detail_page_opens_and_closes() {
    let mut app = start();
    let pid = app.selected_pid().unwrap();
    let wanted = match press(&mut app, Key::Enter) {
        Action::OpenDetail(p) => p,
        _ => panic!("a process was expected"),
    };
    assert_eq!(wanted, pid);
    let r = trace(&app, pid);
    app.detail_opened(pid, r, vec!["/var/log/x".into()], CLOCK);
    assert_eq!(app.page, Page::Detail);
    let r = app.detail_report.as_ref().expect("report fetched");
    assert_eq!(r.matches[0].pid, pid);
    assert!(app.detail_line_count > 1);
    // env pane has either variables or a platform note — never empty
    assert!(app.env_lines().len() >= 1);

    // scroll the detail pane, switch to env, scroll it independently
    press(&mut app, Key::Char('j'));
    press(&mut app, Key::Char('j'));
    assert_eq!(app.detail_scroll, 2);
    press(&mut app, Key::Tab);
    assert!(!app.detail_pane);
    press(&mut app, Key::Char('j'));
    assert_eq!(app.env_scroll, 1);
    assert_eq!(app.detail_scroll, 2);

    // back to browse
    press(&mut app, Key::Esc);
    assert_eq!(app.page, Page::Browse);
    assert_eq!(app.selected, Some(0));
}

#[test]
fn detail_page_of_a_vanished_process_stays_closed() {
    let mut app = start();
    app.detail_opened(77, None, vec![], CLOCK);
    assert_eq!(app.page, Page::Browse);
    assert_eq!(app.status, "pid 77 is gone — details unavailable");
}

#[test]
fn detail_page_scroll_indicator() {
    assert_eq!(scroll_indicator(0, 5, 12), "");
    assert_eq!(scroll_indicator(0, 30, 12), " ↓");
    assert_eq!(scroll_indicator(10, 30, 12), " ↕");
    assert_eq!(scroll_indicator(25, 30, 12), " ↑");
}

#[test]
fn pane_shares_leave_the_border_out() {
    assert_eq!(pane_inner_width(101, 70), 68);
    assert_eq!(pane_inner_width(0, 70), 0);
}

#[test]
fn searching_filters_and_clears() {
    let mut app = start();
    press(&mut app, Key::Char('/'));
    assert!(app.search_mode);
    for c in "INI".chars() {
        press(&mut app, Key::Char(c));
    }
    assert_eq!(app.view.len(), 1);
    assert_eq!(app.selected_pid(), Some(1));
    press(&mut app, Key::Backspace);
    assert_eq!(app.search, "IN");
    assert!(line_to_string(&search_line(&app)).contains("IN▏"));
    press(&mut app, Key::Enter);
    assert!(!app.search_mode);
    press(&mut app, Key::Esc);
    assert_eq!(app.search, "");
    assert_eq!(app.view.len(), app.procs.len());
    assert!(matches!(press(&mut app, Key::Esc), Action::Quit));
}

#[test]
fn no_match_selects_nothing() {
    let mut app = start();
    press(&mut app, Key::Char('/'));
    for c in "zzz".chars() {
        press(&mut app, Key::Char(c));
    }
    assert!(app.view.is_empty());
    assert_eq!(app.selected, None);
    assert_eq!(app.offset, 0);
    assert_eq!(app.update_details(), None);
    assert_eq!(lines_to_string(&app.detail_lines), "no selection");
}

#[test]
fn sort_keys_turn_the_order() {
    let mut app = start();
    // by memory, the largest first
    assert_eq!(app.selected_pid(), Some(100));
    let was = app.view.clone();
    press(&mut app, Key::Char('m'));
    assert!(!app.sort_desc);
    assert_eq!(app.procs[app.view[0]].pid, 1);
    press(&mut app, Key::Char('m'));
    assert_eq!(app.view, was);
    press(&mut app, Key::Char('p'));
    assert_eq!(app.procs[app.view[0]].pid, 129);
}

#[test]
fn rows_sort_by_each_key() {
    let mut a = process(1, "b", 10);
    a.user = None;
    a.started = Some(5);
    let mut b = process(2, "A", 20);
    b.started = None;
    let v = vec![a, b];
    let by = |k: SortKey| arrange_processes(&v, &vec![7, 3], "", k, false);
    assert_eq!(by(SortKey::Pid), [0, 1]);
    assert_eq!(by(SortKey::Name), [1, 0]);
    assert_eq!(by(SortKey::User), [1, 0]);
    assert_eq!(by(SortKey::Cpu), [1, 0]);
    assert_eq!(by(SortKey::Mem), [0, 1]);
    assert_eq!(by(SortKey::Started), [0, 1]);
    assert_eq!(arrange_processes(&v, &vec![7, 3], "2", SortKey::Pid, false), [1]);
}

#[test]
fn details_focus_scrolls() {
    let mut app = start();
    press(&mut app, Key::Tab);
    assert_eq!(app.focus, Focus::Details);
    press(&mut app, Key::Char('d'));
    assert_eq!(app.detail_scroll, 6);
    press(&mut app, Key::PageDown);
    assert_eq!(app.detail_scroll, 18);
    press(&mut app, Key::Char('u'));
    assert_eq!(app.detail_scroll, 12);
    press(&mut app, Key::Char('G'));
    assert_eq!(app.detail_scroll, u16::MAX / 2);
    press(&mut app, Key::Char('g'));
    assert_eq!(app.detail_scroll, 0);
    press(&mut app, Key::Up);
    assert_eq!(app.detail_scroll, 0);
    press(&mut app, Key::Esc);
    assert_eq!(app.focus, Focus::Table);
}

#[test]
fn copying_reports_back() {
    let mut app = start();
    let pid = app.selected_pid().unwrap();
    let r = trace(&app, pid);
    app.detail_opened(pid, r, vec![], CLOCK);
    let text = match press(&mut app, Key::Char('c')) {
        Action::Copy(t) => t,
        _ => panic!("a text was expected"),
    };
    assert!(text.contains(&format!("PID     {pid}")));
    assert!(text.contains("open files: none readable"));
    app.copied(Ok(text.len()));
    assert_eq!(app.status, format!("copied {} chars to clipboard", text.len()));
    app.copied(Err("no tool".into()));
    assert_eq!(app.status, "clipboard: no tool");
}

#[test]
fn refresh_comes_every_three_seconds() {
    let mut app = start();
    assert!(!app.refresh_due(REFRESH - 1));
    assert!(app.refresh_due(REFRESH));
    assert!(matches!(press(&mut app, Key::Char('r')), Action::Refresh));
    assert!(matches!(app.needed(), Action::Nothing));
    app.processes_listed(None, 9);
    assert_eq!(app.procs.len(), 31);
}

#[test]
fn locks_are_read_on_linux_only() {
    let mut app = start();
    assert!(matches!(press(&mut app, Key::Char('4')), Action::Load(Tab::Locks)));
    app.locks_read(Some("1: FLOCK  ADVISORY  WRITE 1234 00:1a:5 0 EOF\nshort\n".into()));
    assert_eq!(app.locks.len(), 1);
    assert_eq!(app.locks[0].id, "1");
    assert_eq!(app.locks[0].pid, Some(1234));
    app.locks_read(None);
    assert!(app.locks.is_empty());
    assert!(parse_locks("").is_empty());
    let mut mac = TuiApp::new(Os::MacOs);
    assert!(matches!(press(&mut mac, Key::Char('4')), Action::Nothing));
    assert!(matches!(press(&mut mac, Key::Enter), Action::Nothing));
    assert_eq!(mac.focus, Focus::Details);
}

const SCREEN: Rect = Rect { x: 0, y: 0, width: 120, height: 40 };

fn columns(app: &TuiApp, s: &str) -> Vec<String> {
    vec![s.to_string(); app.procs.len()]
}

#[test]
fn browse_frame_shows_the_table() {
    let mut app = start();
    let (cpu, mem) = (columns(&app, "1.0"), columns(&app, "5M"));
    let items = ui(&mut app, SCREEN, &cpu, &mem, CLOCK);
    assert_eq!(items.len(), 10);
    match &items[0] {
        Item::Frame { area, style, .. } => {
            assert_eq!(*area, SCREEN);
            assert_eq!(style.fg, Some(Color::Gray));
        }
        _ => panic!("a border was expected"),
    }
    match &items[1] {
        Item::Text { area, lines, .. } => {
            // the layout hands the first row of the inner area to the tabs
            assert_eq!(*area, Rect { x: 1, y: 1, width: 118, height: 1 });
            assert_eq!(line_to_string(&lines[0]), line_to_string(&tab_bar(&app)));
        }
        _ => panic!("the tab bar was expected"),
    }
    match &items[4] {
        Item::Table { header, rows, selectable, .. } => {
            assert_eq!(header[5], "Mem ↓");
            assert_eq!(header[0], "PID");
            assert_eq!(rows.len(), 31);
            assert_eq!(rows[0], ["100", "me", "worker0", "1.0", "", "5M", "", "1m 40s"]);
            assert!(*selectable);
        }
        _ => panic!("the table was expected"),
    }
    match &items[9] {
        Item::Text { lines, .. } => {
            assert!(line_to_string(&lines[0]).starts_with("Total: 31 | Enter: Detail"))
        }
        _ => panic!("the footer was expected"),
    }
    // forty rows, less the border, the rows around the content and its border
    assert_eq!(app.detail_height, 28);
}

#[test]
fn other_tabs_show_their_tables() {
    let mut app = start();
    let none: Vec<String> = Vec::new();
    app.switch_tab(Tab::Ports);
    app.sockets_listed(vec![socket("tcp", "*", 22, "LISTEN", Some(100))]);
    let items = ui(&mut app, SCREEN, &none, &none, CLOCK);
    match &items[4] {
        Item::Table { rows, .. } => assert_eq!(rows[0], ["tcp", "*:22", "LISTEN", "100", "worker0"]),
        _ => panic!("the table was expected"),
    }
    app.switch_tab(Tab::Containers);
    app.containers_requested();
    let items = ui(&mut app, SCREEN, &none, &none, CLOCK);
    match &items[4] {
        Item::Text { lines, .. } => assert!(line_to_string(&lines[1]).contains("loading")),
        _ => panic!("a note was expected"),
    }
    app.containers_arrived(vec![]);
    let items = ui(&mut app, SCREEN, &none, &none, CLOCK);
    match &items[4] {
        Item::Text { lines, .. } => assert!(line_to_string(&lines[1]).contains("no containers")),
        _ => panic!("a note was expected"),
    }
    app.containers_requested();
    app.containers_arrived(two_containers());
    let items = ui(&mut app, SCREEN, &none, &none, CLOCK);
    match &items[4] {
        Item::Table { rows, .. } => assert_eq!(rows[1][1], "1daeb5281349"),
        _ => panic!("the table was expected"),
    }
    app.switch_tab(Tab::Locks);
    let items = ui(&mut app, SCREEN, &none, &none, CLOCK);
    assert!(matches!(&items[4], Item::Table { selectable: false, .. }));
}

#[test]
fn full_pages_show_their_panes() {
    let mut app = start();
    let none: Vec<String> = Vec::new();
    let pid = app.selected_pid().unwrap();
    let r = trace(&app, pid);
    app.detail_opened(pid, r, vec![], CLOCK);
    app.status = "hello".into();
    let items = ui(&mut app, SCREEN, &none, &none, CLOCK);
    assert_eq!(items.len(), 7);
    match &items[1] {
        Item::Text { lines, .. } => {
            assert_eq!(
                line_to_string(&lines[0]),
                format!(" witr-rs   PID {pid}  Process Detail")
            )
        }
        _ => panic!("the heading was expected"),
    }
    match &items[2] {
        Item::Frame { title, style, .. } => {
            assert_eq!(line_to_string(title), "Process Detail");
            assert_eq!(style.fg, Some(Color::Accent));
        }
        _ => panic!("a pane was expected"),
    }
    match &items[6] {
        Item::Text { lines, .. } => assert!(line_to_string(&lines[0]).ends_with("  ·  hello")),
        _ => panic!("the footer was expected"),
    }
    // forty rows, less the border, heading, gap, footer and the pane's border
    assert_eq!(app.detail_height, 33);

    app.page = Page::PortDetail;
    app.port_detail_port = 22;
    app.port_sockets_found(Some(vec![socket("tcp", "*", 22, "ESTABLISHED", None)]));
    let items = ui(&mut app, SCREEN, &none, &none, CLOCK);
    match &items[1] {
        Item::Text { lines, .. } => assert_eq!(
            line_to_string(&lines[0]),
            " witr-rs   Port 22  1 socket(s), 1 established request(s)"
        ),
        _ => panic!("the heading was expected"),
    }

    app.page = Page::ContainerDetail;
    app.container_detail = two_containers().pop();
    let items = ui(&mut app, SCREEN, &none, &none, CLOCK);
    match &items[1] {
        Item::Text { lines, .. } => assert_eq!(
            line_to_string(&lines[0]),
            " witr-rs   Container stack-akhq-1  running"
        ),
        _ => panic!("the heading was expected"),
    }
}

#[test]
fn a_screen_without_room_is_no_trouble() {
    let mut app = start();
    let none: Vec<String> = Vec::new();
    let tiny = Rect { x: 0, y: 0, width: 1, height: 1 };
    let items = ui(&mut app, tiny, &none, &none, CLOCK);
    assert_eq!(items.len(), 10);
    assert_eq!(app.detail_height, 0);
}

#[test]
fn colors_and_styles() {
    assert_eq!(Color::Purple.rgb(), Some((125, 86, 243)));
    assert_eq!(Color::White.rgb(), None);
    assert_eq!(heading_style().fg, Some(Color::Accent));
    assert_eq!(selected_style().bg, Some(Color::Purple));
    assert_eq!(Tab::from_digit('2'), Some(Tab::Ports));
    assert_eq!(Tab::from_digit('9'), None);
    assert_eq!(Tab::Locks.next(), Tab::Processes);
    assert_eq!(Tab::Processes.prev(), Tab::Locks);
}

#[test]
fn filters_belong_to_their_tab() {
    let mut app = start();
    app.switch_tab(Tab::Ports);
    app.sockets_listed(vec![
        socket("tcp", "*", 22, "LISTEN", Some(100)),
        socket("tcp", "*", 80, "LISTEN", Some(101)),
    ]);
    press(&mut app, Key::Char('/'));
    press(&mut app, Key::Char('8'));
    assert_eq!(app.port_search, "8");
    assert_eq!(app.socket_view, [1]);
    assert_eq!(app.search, "");
    assert_eq!(app.container_search, "");
    assert_eq!(app.view.len(), 31);
    press(&mut app, Key::Enter);
    assert!(matches!(press(&mut app, Key::Esc), Action::Nothing));
    assert_eq!(app.port_search, "");
    assert_eq!(app.socket_view, [0, 1]);
}

#[test]
fn a_new_search_for_containers_keeps_the_table() {
    let mut app = start();
    let none: Vec<String> = Vec::new();
    app.switch_tab(Tab::Containers);
    app.containers_requested();
    app.containers_arrived(two_containers());
    app.containers_requested();
    assert!(app.containers_loading);
    let items = ui(&mut app, SCREEN, &none, &none, CLOCK);
    assert!(matches!(&items[4], Item::Table { .. }));
    press(&mut app, Key::Char('j'));
    assert_eq!(app.containers.len(), 2);
}

#[test]
fn restarts_raise_a_warning() {
    let mut app = TuiApp::new(Os::Linux);
    for (i, pid) in [10, 20, 30].into_iter().enumerate() {
        app.processes_listed(Some(vec![process(pid, "crashy", 9)]), i as u64);
        app.refreshed(vec![-1], i as u64);
    }
    settle(&mut app);
    let body = lines_to_string(&app.detail_lines);
    assert!(body.contains("⚠ restarted 2× in the last 5 min"));
    assert!(body.contains("total 2 restarts"));
}

#[test]
fn unavailable_details_say_so() {
    let mut app = start();
    app.details_fetched(100, &None, CLOCK);
    assert_eq!(lines_to_string(&app.detail_lines), "unavailable");
    let gone = TargetReport::not_found(TargetSpec::Pid { pid: 100 }, "gone".into());
    app.details_fetched(100, &Some(gone), CLOCK);
    assert_eq!(lines_to_string(&app.detail_lines), "gone");
}

#[test]
fn esc_while_searching_clears_the_text() {
    let mut app = start();
    press(&mut app, Key::Char('/'));
    press(&mut app, Key::Char('z'));
    assert!(app.view.is_empty());
    assert!(matches!(press(&mut app, Key::Esc), Action::Nothing));
    assert!(!app.search_mode);
    assert_eq!(app.search, "");
    assert_eq!(app.view.len(), 31);
}

#[test]
fn the_copy_is_the_pane_on_display() {
    let mut app = start();
    let none: Vec<String> = Vec::new();
    let pid = app.selected_pid().unwrap();
    let r = trace(&app, pid);
    app.detail_opened(pid, r, vec![], CLOCK);
    let copied = app.focused_pane_text(CLOCK);
    let items = ui(&mut app, SCREEN, &none, &none, CLOCK);
    match &items[3] {
        Item::Text { lines, .. } => assert_eq!(lines_to_string(lines), copied),
        _ => panic!("the pane was expected"),
    }
}

#[test]
fn keys_move_in_the_table_on_display() {
    let mut app = start();
    app.switch_tab(Tab::Ports);
    let rows: Vec<Socket> =
        (0..40).map(|i| socket("tcp", "*", 1000 + i, "LISTEN", Some(7))).collect();
    app.sockets_listed(rows);
    assert!(app.socket_view.len() > app.view.len());
    press(&mut app, Key::Char('G'));
    assert_eq!(app.selected, Some(39));
    press(&mut app, Key::Char('j'));
    assert_eq!(app.selected, Some(39));
    press(&mut app, Key::Char('k'));
    assert_eq!(app.selected, Some(38));
    press(&mut app, Key::Char('g'));
    assert_eq!(app.selected, Some(0));
    press(&mut app, Key::Char('f'));
    press(&mut app, Key::Char('f'));
    assert_eq!(app.selected, Some(39));

    app.switch_tab(Tab::Containers);
    app.containers_requested();
    app.containers_arrived(two_containers());
    press(&mut app, Key::Char('g'));
    press(&mut app, Key::Char('G'));
    assert_eq!(app.selected, Some(1));
}

#[test]
fn a_kill_takes_the_selected_process() {
    let mut app = start();
    press(&mut app, Key::Char('x'));
    // the table changes below the question
    let mut procs = table();
    procs.push(process(900, "hog", 9_999_999));
    app.processes_listed(Some(procs), 8);
    let ranks = vec![-1; app.procs.len()];
    app.refreshed(ranks, 8);
    assert!(matches!(press(&mut app, Key::Char('y')), Action::Kill(900)));
    assert_eq!(app.confirm_kill, None);
    // with none selected the question stays
    press(&mut app, Key::Char('x'));
    app.processes_listed(Some(vec![]), 9);
    app.refreshed(vec![], 9);
    assert!(matches!(press(&mut app, Key::Char('y')), Action::Nothing));
    assert_eq!(app.confirm_kill, Some(900));
}

#[test]
fn a_refresh_keeps_the_row_of_the_table_on_display() {
    let mut app = start();
    app.switch_tab(Tab::Ports);
    let rows = || (0..40).map(|i| socket("tcp", "*", 1000 + i, "LISTEN", None)).collect();
    app.sockets_listed(rows());
    press(&mut app, Key::Char('G'));
    assert_eq!(app.selected, Some(39));
    app.processes_listed(Some(table()), 9);
    app.sockets_listed(rows());
    let ranks = vec![-1; app.procs.len()];
    app.refreshed(ranks, 9);
    assert!(app.view.len() < 39);
    assert_eq!(app.selected, Some(39));
    // the process table comes back within its own rows
    app.switch_tab(Tab::Processes);
    assert_eq!(app.selected, Some(app.view.len() - 1));
    // containers that arrive late leave it alone
    app.containers_requested();
    app.containers_arrived(two_containers());
    assert_eq!(app.selected, Some(app.view.len() - 1));
}

#[test]
fn panes_lie_in_the_screen() {
    let none: Vec<String> = Vec::new();
    let mut app = start();
    for (width, height) in [(120, 40), (30, 7), (9, 3), (2, 2), (0, 0)] {
        let screen = Rect { x: 3, y: 5, width, height };
        for page in [Page::Browse, Page::Detail, Page::PortDetail, Page::ContainerDetail] {
            app.page = page;
            for item in ui(&mut app, screen, &none, &none, CLOCK) {
                let area = match item {
                    Item::Frame { area, .. } => area,
                    Item::Text { area, .. } => area,
                    Item::Divider { area } => area,
                    Item::Table { area, .. } => area,
                };
                if width > 1 && height > 1 {
                    assert!(area.x >= 3 && area.y >= 5);
                    assert!(area.x + area.width <= 3 + width);
                    assert!(area.y + area.height <= 5 + height);
                }
            }
        }
    }
}
