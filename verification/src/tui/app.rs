//! The state of the interface and what keys and answers do to it.
//!
//! Whatever takes the platform is an [`Action`] that the caller performs; its
//! outcome comes back through the methods below [`TuiApp::on_key`]. Points in
//! time are nanoseconds on a clock that never goes back.

use vstd::prelude::*;
use vstd::string::*;

use crate::history::{time_passed, History, HistoryView};
use crate::model::{Container, Pid, Process, Socket, TargetReport};
use crate::model::{ContainerView, ProcessView, SocketView, TargetReportView};
use crate::num::{dec_i32, dec_usize};
use crate::order::{field_of_number, key_of_one, positions, sort};
use crate::platform::Os;
use crate::render::Clock;
use crate::text::{chars_of, lowercase, same_str, string_of, text};
use crate::tui::filter::{
    arrange_processes, filter_containers, filter_sockets, lower_names_of, parse_locks, LockEntry,
    LockView, SortKey,
};
use crate::tui::line::{copy_lines, lines_to_string, only, Line, SpanView};
use crate::tui::panes::{
    container_info_lines, container_proc_lines, detail_lines, env_lines, listens_of, note_of,
    port_connection_lines, push_history_lines, push_open_files,
};
use crate::tui::{filter, line, panes};
use crate::{history, num, order, platform, text};

verus! {

/// How long the tables stay as they are: 3 seconds.
pub const REFRESH: u64 = 3_000_000_000;

/// How long the cursor rests before the details follow: 500 milliseconds.
pub const DEBOUNCE: u64 = 500_000_000;

/// How many rows a page key moves.
pub const PAGE_ROWS: i64 = 20;

// ---------- keys, tabs and pages ----------

/// A key press.
#[derive(Debug, Clone, Copy, PartialEq, Eq, Structural)]
pub enum Key {
    Char(char),
    Enter,
    Esc,
    Tab,
    Backspace,
    Up,
    Down,
    Left,
    Right,
    PageUp,
    PageDown,
    Other,
}

#[derive(Debug, Clone, Copy, PartialEq, Eq, Structural)]
pub enum Tab {
    Processes,
    Ports,
    Containers,
    Locks,
}

#[derive(Debug, Clone, Copy, PartialEq, Eq, Structural)]
pub enum Focus {
    Table,
    Details,
}

#[derive(Debug, Clone, Copy, PartialEq, Eq, Structural)]
pub enum Page {
    Browse,
    Detail,
    PortDetail,
    ContainerDetail,
}

impl Tab {
    /// The title of a tab.
    pub open spec fn name(self) -> Seq<char> {
        match self {
            Tab::Processes => "1. Processes"@,
            Tab::Ports => "2. Ports"@,
            Tab::Containers => "3. Containers"@,
            Tab::Locks => "4. Locks"@,
        }
    }

    /// The title of a tab.
    pub fn title(self) -> (r: &'static str)
        ensures
            r@ == self.name(),
    {
        match self {
            Tab::Processes => "1. Processes",
            Tab::Ports => "2. Ports",
            Tab::Containers => "3. Containers",
            Tab::Locks => "4. Locks",
        }
    }

    /// The tab with a number.
    pub open spec fn numbered(c: char) -> Option<Tab> {
        if c == '1' {
            Some(Tab::Processes)
        } else if c == '2' {
            Some(Tab::Ports)
        } else if c == '3' {
            Some(Tab::Containers)
        } else if c == '4' {
            Some(Tab::Locks)
        } else {
            None
        }
    }

    /// The tab with a number.
    pub fn from_digit(c: char) -> (r: Option<Tab>)
        ensures
            r == Tab::numbered(c),
    {
        if c == '1' {
            Some(Tab::Processes)
        } else if c == '2' {
            Some(Tab::Ports)
        } else if c == '3' {
            Some(Tab::Containers)
        } else if c == '4' {
            Some(Tab::Locks)
        } else {
            None
        }
    }

    /// The tab to the right, around the end.
    pub open spec fn following(self) -> Tab {
        match self {
            Tab::Processes => Tab::Ports,
            Tab::Ports => Tab::Containers,
            Tab::Containers => Tab::Locks,
            Tab::Locks => Tab::Processes,
        }
    }

    /// The tab to the left, around the end.
    pub open spec fn preceding(self) -> Tab {
        match self {
            Tab::Processes => Tab::Locks,
            Tab::Ports => Tab::Processes,
            Tab::Containers => Tab::Ports,
            Tab::Locks => Tab::Containers,
        }
    }

    /// The tab to the right, around the end.
    pub fn next(self) -> (r: Tab)
        ensures
            r == self.following(),
    {
        match self {
            Tab::Processes => Tab::Ports,
            Tab::Ports => Tab::Containers,
            Tab::Containers => Tab::Locks,
            Tab::Locks => Tab::Processes,
        }
    }

    /// The tab to the left, around the end.
    pub fn prev(self) -> (r: Tab)
        ensures
            r == self.preceding(),
    {
        match self {
            Tab::Processes => Tab::Locks,
            Tab::Ports => Tab::Processes,
            Tab::Containers => Tab::Ports,
            Tab::Locks => Tab::Containers,
        }
    }
}

/// Going to the next tab and back leads to the same tab, and four steps lead
/// around.
pub proof fn tabs_go_around(t: Tab)
    ensures
        t.following().preceding() == t,
        t.preceding().following() == t,
        t.following().following().following().following() == t,
{
}

// ---------- actions ----------

/// What a key asks of the caller.
#[derive(Debug)]
pub enum Action {
    Nothing,
    Quit,
    /// Terminate a process, then report to `killed`.
    Kill(Pid),
    /// Copy a text to the clipboard, then report to `copied`.
    Copy(String),
    /// Get the data of a tab: `sockets_listed`, `containers_requested` or
    /// `locks_read`.
    Load(Tab),
    /// Get everything anew: `processes_listed`, the data of the tab,
    /// then `refreshed`.
    Refresh,
    /// Trace a process with its environment, then `detail_opened`.
    OpenDetail(Pid),
    /// Find the sockets on a port, then `port_sockets_found`.
    OpenPort(u16),
    /// Find the processes in a container, then `members_listed`.
    ListMembers(String),
}

/// What an [`Action`] shows.
#[verifier::ext_equal]
pub enum ActionView {
    Nothing,
    Quit,
    Kill(Pid),
    Copy(Seq<char>),
    Load(Tab),
    Refresh,
    OpenDetail(Pid),
    OpenPort(u16),
    ListMembers(Seq<char>),
}

impl View for Action {
    type V = ActionView;

    open spec fn view(&self) -> ActionView {
        match self {
            Action::Nothing => ActionView::Nothing,
            Action::Quit => ActionView::Quit,
            Action::Kill(p) => ActionView::Kill(*p),
            Action::Copy(s) => ActionView::Copy(s@),
            Action::Load(t) => ActionView::Load(*t),
            Action::Refresh => ActionView::Refresh,
            Action::OpenDetail(p) => ActionView::OpenDetail(*p),
            Action::OpenPort(p) => ActionView::OpenPort(*p),
            Action::ListMembers(s) => ActionView::ListMembers(s@),
        }
    }
}

// ---------- the state ----------

pub struct TuiApp {
    pub os: Os,
    pub tab: Tab,
    pub focus: Focus,
    pub procs: Vec<Process>,
    /// the processes ordered by cpu: higher for more, -1 without a reading
    pub ranks: Vec<i64>,
    pub sockets: Vec<Socket>,
    pub locks: Vec<LockEntry>,
    /// indices into `procs` after filter + sort
    pub view: Vec<usize>,
    pub sort_key: SortKey,
    pub sort_desc: bool,
    pub search: String,
    pub search_mode: bool,
    /// the selected row of the table
    pub selected: Option<usize>,
    /// the first row of the table that is drawn
    pub offset: usize,
    pub detail_scroll: u16,
    /// height of the details viewport, for half-page scrolls
    pub detail_height: u16,
    pub detail_lines: Vec<Line>,
    pub detail_pid: Option<Pid>,
    /// full-page detail view (Enter from the table)
    pub page: Page,
    /// true = Process Detail focused, false = Environment
    pub detail_pane: bool,
    pub detail_report: Option<TargetReport>,
    pub detail_line_count: u16,
    pub env_scroll: u16,
    pub env_line_count: u16,
    /// Ports-tab detail page (Enter on a port): every socket touching that
    /// port (LISTEN + ESTABLISHED requests) plus the owning process report
    pub port_detail_port: u16,
    pub port_detail_sockets: Vec<Socket>,
    pub port_detail_report: Option<TargetReport>,
    pub port_scroll: u16,
    pub port_owner_scroll: u16,
    /// true = connections pane focused
    pub port_pane_conn: bool,
    pub port_pane_height: u16,
    /// Containers-tab detail page (Enter on a container)
    pub container_detail: Option<Container>,
    pub container_procs: Vec<Process>,
    pub cd_scroll: u16,
    pub cdp_scroll: u16,
    /// true = container info pane focused
    pub cd_pane_info: bool,
    /// set when the selection moved; details recompute after `DEBOUNCE` so a
    /// held-down j/k doesn't spawn a fetch per row
    pub detail_pending_since: Option<u64>,
    /// Ports-tab filter (independent of the process search): matches port,
    /// pid, process name, address, proto and state substrings
    pub port_search: String,
    /// indices into `sockets` after the port filter
    pub socket_view: Vec<usize>,
    pub containers: Vec<Container>,
    pub container_search: String,
    /// indices into `containers` after the filter
    pub container_view: Vec<usize>,
    /// container enumeration runs in the background (a hung runtime CLI must
    /// not freeze the interface)
    pub containers_loading: bool,
    /// first enumeration finished: afterwards refreshes keep the stale table
    /// visible instead of flashing the loading placeholder
    pub containers_loaded: bool,
    /// sampling history: instantaneous cpu, sparklines, restart detection
    pub hist: History,
    /// open files fetched when the full detail page opens
    pub open_files: Option<Vec<String>>,
    /// none before the first refresh
    pub last_refresh: Option<u64>,
    pub status: String,
    pub confirm_kill: Option<Pid>,
}

/// What a [`TuiApp`] shows.
pub struct AppView {
    pub os: Os,
    pub tab: Tab,
    pub focus: Focus,
    pub procs: Seq<ProcessView>,
    pub ranks: Seq<i64>,
    pub sockets: Seq<SocketView>,
    pub locks: Seq<LockView>,
    pub view: Seq<usize>,
    pub sort_key: SortKey,
    pub sort_desc: bool,
    pub search: Seq<char>,
    pub search_mode: bool,
    pub selected: Option<usize>,
    pub offset: usize,
    pub detail_scroll: u16,
    pub detail_height: u16,
    pub detail_lines: Seq<Seq<SpanView>>,
    pub detail_pid: Option<Pid>,
    pub page: Page,
    pub detail_pane: bool,
    pub detail_report: Option<TargetReportView>,
    pub detail_line_count: u16,
    pub env_scroll: u16,
    pub env_line_count: u16,
    pub port_detail_port: u16,
    pub port_detail_sockets: Seq<SocketView>,
    pub port_detail_report: Option<TargetReportView>,
    pub port_scroll: u16,
    pub port_owner_scroll: u16,
    pub port_pane_conn: bool,
    pub port_pane_height: u16,
    pub container_detail: Option<ContainerView>,
    pub container_procs: Seq<ProcessView>,
    pub cd_scroll: u16,
    pub cdp_scroll: u16,
    pub cd_pane_info: bool,
    pub detail_pending_since: Option<u64>,
    pub port_search: Seq<char>,
    pub socket_view: Seq<usize>,
    pub containers: Seq<ContainerView>,
    pub container_search: Seq<char>,
    pub container_view: Seq<usize>,
    pub containers_loading: bool,
    pub containers_loaded: bool,
    pub hist: HistoryView,
    pub open_files: Option<Seq<Seq<char>>>,
    pub last_refresh: Option<u64>,
    pub status: Seq<char>,
    pub confirm_kill: Option<Pid>,
}

/// What an optional list of texts shows.
pub open spec fn opt_texts(o: Option<Vec<String>>) -> Option<Seq<Seq<char>>> {
    match o {
        Some(v) => Some(text::texts(v@)),
        None => None,
    }
}

impl View for TuiApp {
    type V = AppView;

    open spec fn view(&self) -> AppView {
        AppView {
            os: self.os,
            tab: self.tab,
            focus: self.focus,
            procs: text::views(self.procs@),
            ranks: self.ranks@,
            sockets: text::views(self.sockets@),
            locks: text::views(self.locks@),
            view: self.view@,
            sort_key: self.sort_key,
            sort_desc: self.sort_desc,
            search: self.search@,
            search_mode: self.search_mode,
            selected: self.selected,
            offset: self.offset,
            detail_scroll: self.detail_scroll,
            detail_height: self.detail_height,
            detail_lines: text::views(self.detail_lines@),
            detail_pid: self.detail_pid,
            page: self.page,
            detail_pane: self.detail_pane,
            detail_report: panes::opt_report(self.detail_report),
            detail_line_count: self.detail_line_count,
            env_scroll: self.env_scroll,
            env_line_count: self.env_line_count,
            port_detail_port: self.port_detail_port,
            port_detail_sockets: text::views(self.port_detail_sockets@),
            port_detail_report: panes::opt_report(self.port_detail_report),
            port_scroll: self.port_scroll,
            port_owner_scroll: self.port_owner_scroll,
            port_pane_conn: self.port_pane_conn,
            port_pane_height: self.port_pane_height,
            container_detail: platform::opt_container(self.container_detail),
            container_procs: text::views(self.container_procs@),
            cd_scroll: self.cd_scroll,
            cdp_scroll: self.cdp_scroll,
            cd_pane_info: self.cd_pane_info,
            detail_pending_since: self.detail_pending_since,
            port_search: self.port_search@,
            socket_view: self.socket_view@,
            containers: text::views(self.containers@),
            container_search: self.container_search@,
            container_view: self.container_view@,
            containers_loading: self.containers_loading,
            containers_loaded: self.containers_loaded,
            hist: self.hist@,
            open_files: opt_texts(self.open_files),
            last_refresh: self.last_refresh,
            status: self.status@,
            confirm_kill: self.confirm_kill,
        }
    }
}

/// A scroll position moved by `by`, kept in range.
pub open spec fn scrolled(v: u16, by: int) -> u16 {
    let n = v + by;
    if n < 0 {
        0
    } else if n > u16::MAX {
        u16::MAX
    } else {
        n as u16
    }
}

fn scroll_by(v: u16, by: i32) -> (r: u16)
    requires
        -65535 <= by <= 65535,
    ensures
        r == scrolled(v, by as int),
{
    let n: i32 = v as i32 + by;
    if n < 0 {
        0
    } else if n > 65535 {
        u16::MAX
    } else {
        n as u16
    }
}

/// The selected row, kept among `len` rows; none without rows.
pub open spec fn in_rows(selected: Option<usize>, len: nat) -> Option<usize> {
    if len == 0 {
        None
    } else {
        let cur: int = match selected {
            Some(i) => i as int,
            None => 0,
        };
        if cur < len {
            Some(cur as usize)
        } else {
            Some((len - 1) as usize)
        }
    }
}

fn keep_in_rows(selected: Option<usize>, len: usize) -> (r: Option<usize>)
    ensures
        r == in_rows(selected, len as nat),
{
    if len == 0 {
        return None;
    }
    let cur: usize = match selected {
        Some(i) => i,
        None => 0,
    };
    if cur < len {
        Some(cur)
    } else {
        Some(len - 1)
    }
}

/// The row `by` rows from another, among `len` rows.
pub open spec fn row_after(row: int, by: int, len: nat) -> int {
    if row + by < 0 {
        0
    } else if row + by >= len {
        len - 1
    } else {
        row + by
    }
}

fn row_after_by(row: usize, by: i64, len: usize) -> (r: usize)
    requires
        len > 0,
        -20 <= by <= 20,
    ensures
        r == row_after(row as int, by as int, len as nat),
{
    let want: i128 = row as i128 + by as i128;
    if want < 0 {
        0
    } else if want >= len as i128 {
        len - 1
    } else {
        want as usize
    }
}

/// A text without its last character.
pub open spec fn shortened(s: Seq<char>) -> Seq<char> {
    if s.len() == 0 {
        s
    } else {
        s.drop_last()
    }
}

fn shorten(s: &String) -> (r: String)
    ensures
        r@ == shortened(s@),
{
    let c = chars_of(s.as_str());
    let n: usize = c.len();
    if n == 0 {
        s.clone()
    } else {
        let t = vstd::slice::slice_subrange(c.as_slice(), 0, n - 1);
        assert(t@ =~= s@.drop_last());
        string_of(t)
    }
}

// ---------- what keys mean ----------

/// How many rows a key moves the selection.
pub open spec fn row_step(key: Key) -> Option<int> {
    match key {
        Key::Down => Some(1),
        Key::Up => Some(-1),
        Key::PageDown => Some(20),
        Key::PageUp => Some(-20),
        Key::Char(c) => if c == 'j' {
            Some(1)
        } else if c == 'k' {
            Some(-1)
        } else if c == 'f' || c == ' ' {
            Some(20)
        } else if c == 'b' {
            Some(-20)
        } else {
            None
        },
        _ => None,
    }
}

fn row_step_of(key: Key) -> (r: Option<i64>)
    ensures
        (match r {
            Some(v) => Some(v as int),
            None => None,
        }) == row_step(key),
        r matches Some(v) ==> -20 <= v <= 20,
{
    match key {
        Key::Down => Some(1),
        Key::Up => Some(-1),
        Key::PageDown => Some(PAGE_ROWS),
        Key::PageUp => Some(-PAGE_ROWS),
        Key::Char(c) => if c == 'j' {
            Some(1)
        } else if c == 'k' {
            Some(-1)
        } else if c == 'f' || c == ' ' {
            Some(PAGE_ROWS)
        } else if c == 'b' {
            Some(-PAGE_ROWS)
        } else {
            None
        },
        _ => None,
    }
}

/// Which tab a key leads to.
pub open spec fn tab_step(key: Key, t: Tab) -> Option<Tab> {
    match key {
        Key::Left => Some(t.preceding()),
        Key::Right => Some(t.following()),
        Key::Char(c) => if c == 'h' {
            Some(t.preceding())
        } else if c == 'l' {
            Some(t.following())
        } else {
            None
        },
        _ => None,
    }
}

fn tab_step_of(key: Key, t: Tab) -> (r: Option<Tab>)
    ensures
        r == tab_step(key, t),
{
    match key {
        Key::Left => Some(t.prev()),
        Key::Right => Some(t.next()),
        Key::Char(c) => if c == 'h' {
            Some(t.prev())
        } else if c == 'l' {
            Some(t.next())
        } else {
            None
        },
        _ => None,
    }
}

/// How far a key scrolls the details panel of this height.
pub open spec fn panel_step(key: Key, height: u16) -> Option<int> {
    match key {
        Key::Up => Some(-1),
        Key::Down => Some(1),
        Key::PageDown => Some(height as int),
        Key::PageUp => Some(-(height as int)),
        Key::Char(c) => if c == 'j' {
            Some(1)
        } else if c == 'k' {
            Some(-1)
        } else if c == 'd' {
            Some(height as int / 2)
        } else if c == 'u' {
            Some(-(height as int / 2))
        } else if c == 'f' {
            Some(height as int)
        } else if c == 'b' {
            Some(-(height as int))
        } else {
            None
        },
        _ => None,
    }
}

fn panel_step_of(key: Key, height: u16) -> (r: Option<i32>)
    ensures
        (match r {
            Some(v) => Some(v as int),
            None => None,
        }) == panel_step(key, height),
        r matches Some(v) ==> -65535 <= v <= 65535,
{
    let h: i32 = height as i32;
    match key {
        Key::Up => Some(-1),
        Key::Down => Some(1),
        Key::PageDown => Some(h),
        Key::PageUp => Some(-h),
        Key::Char(c) => if c == 'j' {
            Some(1)
        } else if c == 'k' {
            Some(-1)
        } else if c == 'd' {
            Some(h / 2)
        } else if c == 'u' {
            Some(-(h / 2))
        } else if c == 'f' {
            Some(h)
        } else if c == 'b' {
            Some(-h)
        } else {
            None
        },
        _ => None,
    }
}

/// How far a key scrolls the focused pane of a full page of this height; 0
/// for a key that does not.
pub open spec fn pane_step(key: Key, height: u16) -> int {
    let half = if height / 2 < 1 {
        1
    } else {
        height as int / 2
    };
    match key {
        Key::Down => 1,
        Key::Up => -1,
        Key::PageDown => height as int,
        Key::PageUp => -(height as int),
        Key::Char(c) => if c == 'j' {
            1
        } else if c == 'k' {
            -1
        } else if c == 'd' {
            half
        } else if c == 'u' {
            -half
        } else if c == 'g' {
            -65535
        } else if c == 'G' {
            65535
        } else if c == 'f' || c == ' ' {
            height as int
        } else if c == 'b' {
            -(height as int)
        } else {
            0
        },
        _ => 0,
    }
}

fn pane_step_of(key: Key, height: u16) -> (r: i32)
    ensures
        r == pane_step(key, height),
        -65535 <= r <= 65535,
{
    let h: i32 = height as i32;
    let half: i32 = if h / 2 < 1 {
        1
    } else {
        h / 2
    };
    match key {
        Key::Down => 1,
        Key::Up => -1,
        Key::PageDown => h,
        Key::PageUp => -h,
        Key::Char(c) => if c == 'j' {
            1
        } else if c == 'k' {
            -1
        } else if c == 'd' {
            half
        } else if c == 'u' {
            -half
        } else if c == 'g' {
            -65535
        } else if c == 'G' {
            65535
        } else if c == 'f' || c == ' ' {
            h
        } else if c == 'b' {
            -h
        } else {
            0
        },
        _ => 0,
    }
}

/// What a key sorts the process table by.
pub open spec fn sort_of(c: char) -> Option<SortKey> {
    if c == 'p' {
        Some(SortKey::Pid)
    } else if c == 'n' {
        Some(SortKey::Name)
    } else if c == 'u' {
        Some(SortKey::User)
    } else if c == 'c' {
        Some(SortKey::Cpu)
    } else if c == 'm' {
        Some(SortKey::Mem)
    } else if c == 't' {
        Some(SortKey::Started)
    } else {
        None
    }
}

fn sort_for(c: char) -> (r: Option<SortKey>)
    ensures
        r == sort_of(c),
{
    if c == 'p' {
        Some(SortKey::Pid)
    } else if c == 'n' {
        Some(SortKey::Name)
    } else if c == 'u' {
        Some(SortKey::User)
    } else if c == 'c' {
        Some(SortKey::Cpu)
    } else if c == 'm' {
        Some(SortKey::Mem)
    } else if c == 't' {
        Some(SortKey::Started)
    } else {
        None
    }
}

// ---------- what happens to the state ----------

impl AppView {
    /// At the start: nothing listed, sorted by memory, the largest first.
    pub open spec fn fresh(os: Os) -> AppView {
        AppView {
            os,
            tab: Tab::Processes,
            focus: Focus::Table,
            procs: seq![],
            ranks: seq![],
            sockets: seq![],
            locks: seq![],
            view: seq![],
            sort_key: SortKey::Mem,
            sort_desc: true,
            search: seq![],
            search_mode: false,
            selected: None,
            offset: 0,
            detail_scroll: 0,
            detail_height: 12,
            detail_lines: seq![panes::note("loading..."@)],
            detail_pid: None,
            page: Page::Browse,
            detail_pane: true,
            detail_report: None,
            detail_line_count: 1,
            env_scroll: 0,
            env_line_count: 1,
            port_detail_port: 0,
            port_detail_sockets: seq![],
            port_detail_report: None,
            port_scroll: 0,
            port_owner_scroll: 0,
            port_pane_conn: true,
            port_pane_height: 10,
            container_detail: None,
            container_procs: seq![],
            cd_scroll: 0,
            cdp_scroll: 0,
            cd_pane_info: true,
            detail_pending_since: None,
            port_search: seq![],
            socket_view: seq![],
            containers: seq![],
            container_search: seq![],
            container_view: seq![],
            containers_loading: false,
            containers_loaded: false,
            hist: HistoryView::empty(),
            open_files: None,
            last_refresh: None,
            status: seq![],
            confirm_kill: None,
        }
    }

    /// Whether the reports on display say what they found.
    pub open spec fn wf(self) -> bool {
        &&& self.detail_report matches Some(r) ==> r.matches.len() > 0
        &&& self.port_detail_report matches Some(r) ==> r.matches.len() > 0
    }

    /// With another selection; without one the table starts at its top.
    pub open spec fn selecting(self, selected: Option<usize>) -> AppView {
        AppView {
            selected,
            offset: if selected is None {
                0
            } else {
                self.offset
            },
            ..self
        }
    }

    /// The number of rows of the table on display.
    pub open spec fn rows(self) -> nat {
        match self.tab {
            Tab::Processes => self.view.len(),
            Tab::Ports => self.socket_view.len(),
            Tab::Containers => self.container_view.len(),
            Tab::Locks => self.locks.len(),
        }
    }

    /// With the selection kept in the table on display.
    pub open spec fn in_table(self) -> AppView {
        self.selecting(in_rows(self.selected, self.rows()))
    }

    /// After filter and sort of the process table.
    pub open spec fn with_view(self) -> AppView {
        let view = filter::process_view(
            self.procs,
            self.ranks,
            text::unicode_lower(self.search),
            self.sort_key,
            self.sort_desc,
        );
        AppView { view, ..self }.in_table()
    }

    /// After the filter of the Ports tab.
    pub open spec fn with_socket_view(self) -> AppView {
        let socket_view = filter::matching_sockets(
            self.sockets,
            text::unicode_lower(self.port_search),
            filter::lower_names(self.procs, self.procs.len() as int),
        );
        AppView { socket_view, ..self }.in_table()
    }

    /// After the filter of the Containers tab.
    pub open spec fn with_container_view(self) -> AppView {
        let container_view = filter::matching_containers(
            self.containers,
            text::unicode_lower(self.container_search),
        );
        AppView { container_view, ..self }.in_table()
    }

    /// The pid of the selected process.
    pub open spec fn selected_pid(self) -> Option<Pid> {
        match self.selected {
            Some(i) => if i < self.view.len() && self.view[i as int] < self.procs.len() {
                Some(self.procs[self.view[i as int] as int].pid)
            } else {
                None
            },
            None => None,
        }
    }

    /// With the selection on another row: the details follow after a while.
    pub open spec fn at_row(self, row: usize, now: u64) -> AppView {
        AppView {
            selected: Some(row),
            detail_pid: None,
            detail_scroll: 0,
            detail_pending_since: Some(now),
            ..self
        }
    }

    /// The selected row, the first without one.
    pub open spec fn row(self) -> int {
        match self.selected {
            Some(i) => i as int,
            None => 0,
        }
    }

    /// After the selection moved by some rows, within the table on display.
    pub open spec fn moved(self, by: int, now: u64) -> AppView {
        let next = row_after(self.row(), by, self.rows());
        if self.rows() == 0 || next == self.row() {
            self
        } else {
            self.at_row(next as usize, now)
        }
    }

    /// After the selection went to the first or the last row.
    pub open spec fn at_edge(self, first: bool, now: u64) -> AppView {
        if self.rows() == 0 {
            self
        } else if first {
            self.at_row(0, now)
        } else {
            self.at_row((self.rows() - 1) as usize, now)
        }
    }

    /// On another tab.
    pub open spec fn on_tab(self, tab: Tab) -> AppView {
        let a = AppView { tab, status: seq![], ..self };
        if tab == Tab::Processes {
            a.with_view()
        } else {
            a
        }
    }

    /// What another tab needs.
    pub open spec fn tab_needs(self, tab: Tab) -> ActionView {
        match tab {
            Tab::Processes => ActionView::Nothing,
            Tab::Locks => if self.os == Os::Linux {
                ActionView::Load(tab)
            } else {
                ActionView::Nothing
            },
            _ => ActionView::Load(tab),
        }
    }

    /// The text of the focused pane.
    pub open spec fn focused_text(self, c: Clock) -> Seq<char> {
        line::lines_text(
            match self.page {
                Page::Detail => if self.detail_pane {
                    self.detail_lines
                } else {
                    panes::env_pane(self.detail_report, self.os)
                },
                Page::PortDetail => if self.port_pane_conn {
                    panes::connections(
                        self.port_detail_sockets,
                        panes::names_by_pid(self.procs, self.procs.len() as int),
                    )
                } else {
                    match self.port_detail_report {
                        Some(r) => panes::details(r, c),
                        None => seq![line::raw_line("no owning process visible"@)],
                    }
                },
                Page::ContainerDetail => if self.cd_pane_info {
                    panes::container_pane(self.container_detail)
                } else {
                    panes::members_pane(self.container_procs, self.os)
                },
                Page::Browse => seq![],
            },
        )
    }

    /// With the focus on the other pane of the page.
    pub open spec fn other_pane(self) -> AppView {
        match self.page {
            Page::Detail => AppView { detail_pane: !self.detail_pane, ..self },
            Page::PortDetail => AppView { port_pane_conn: !self.port_pane_conn, ..self },
            Page::ContainerDetail => AppView { cd_pane_info: !self.cd_pane_info, ..self },
            Page::Browse => self,
        }
    }

    /// With the focused pane of the page scrolled.
    pub open spec fn pane_scrolled(self, by: int) -> AppView {
        match self.page {
            Page::Detail => if self.detail_pane {
                AppView { detail_scroll: scrolled(self.detail_scroll, by), ..self }
            } else {
                AppView { env_scroll: scrolled(self.env_scroll, by), ..self }
            },
            Page::PortDetail => if self.port_pane_conn {
                AppView { port_scroll: scrolled(self.port_scroll, by), ..self }
            } else {
                AppView { port_owner_scroll: scrolled(self.port_owner_scroll, by), ..self }
            },
            Page::ContainerDetail => if self.cd_pane_info {
                AppView { cd_scroll: scrolled(self.cd_scroll, by), ..self }
            } else {
                AppView { cdp_scroll: scrolled(self.cdp_scroll, by), ..self }
            },
            Page::Browse => self,
        }
    }

    /// A key while a kill is to be confirmed: `y` kills the selected process.
    pub open spec fn confirm_key(self, key: Key) -> (AppView, ActionView) {
        if key == Key::Char('y') || key == Key::Char('Y') {
            match self.selected_pid() {
                Some(pid) => (AppView { confirm_kill: None, ..self }, ActionView::Kill(pid)),
                None => (self, ActionView::Nothing),
            }
        } else {
            (AppView { confirm_kill: None, ..self }, ActionView::Nothing)
        }
    }

    /// A key on a full page: Esc/q/Backspace back, Tab focus, vim scroll on the
    /// focused pane, c copy.
    pub open spec fn page_key(self, key: Key, c: Clock) -> (AppView, ActionView) {
        if key == Key::Esc || key == Key::Char('q') || key == Key::Backspace {
            (AppView { page: Page::Browse, ..self }, ActionView::Nothing)
        } else if key == Key::Char('c') {
            (self, ActionView::Copy(self.focused_text(c)))
        } else if key == Key::Tab {
            (self.other_pane(), ActionView::Nothing)
        } else {
            let height = if self.detail_height < self.port_pane_height {
                self.port_pane_height
            } else {
                self.detail_height
            };
            (self.pane_scrolled(pane_step(key, height)), ActionView::Nothing)
        }
    }

    /// With another search text on the tab.
    pub open spec fn searching(self, s: Seq<char>) -> AppView {
        match self.tab {
            Tab::Ports => AppView { port_search: s, ..self }.with_socket_view(),
            Tab::Containers => AppView { container_search: s, ..self }.with_container_view(),
            _ => AppView { search: s, ..self }.with_view(),
        }
    }

    /// The search text of the tab.
    pub open spec fn search_text(self) -> Seq<char> {
        match self.tab {
            Tab::Ports => self.port_search,
            Tab::Containers => self.container_search,
            _ => self.search,
        }
    }

    /// A key while a search text is typed: Enter applies it, Esc clears it.
    pub open spec fn search_key(self, key: Key) -> AppView {
        match key {
            Key::Char(c) => self.searching(self.search_text().push(c)),
            Key::Backspace => self.searching(shortened(self.search_text())),
            Key::Enter => AppView { search_mode: false, focus: Focus::Table, ..self },
            Key::Esc => AppView {
                search_mode: false,
                focus: Focus::Table,
                ..self.searching(seq![])
            },
            _ => self,
        }
    }

    /// Esc while browsing: back to the table, or else clear the filter, or else
    /// quit.
    pub open spec fn escaped(self) -> (AppView, ActionView) {
        if self.focus == Focus::Details {
            (AppView { focus: Focus::Table, ..self }, ActionView::Nothing)
        } else if self.tab == Tab::Ports && self.port_search.len() > 0 {
            (AppView { port_search: seq![], ..self }.with_socket_view(), ActionView::Nothing)
        } else if self.tab == Tab::Containers && self.container_search.len() > 0 {
            (
                AppView { container_search: seq![], ..self }.with_container_view(),
                ActionView::Nothing,
            )
        } else if self.search.len() > 0 {
            (AppView { search: seq![], ..self }.with_view(), ActionView::Nothing)
        } else {
            (self, ActionView::Quit)
        }
    }

    /// The selected socket.
    pub open spec fn selected_socket(self) -> Option<SocketView> {
        match self.selected {
            Some(i) => if i < self.socket_view.len() && self.socket_view[i as int]
                < self.sockets.len() {
                Some(self.sockets[self.socket_view[i as int] as int])
            } else {
                None
            },
            None => None,
        }
    }

    /// The selected container.
    pub open spec fn selected_container(self) -> Option<ContainerView> {
        match self.selected {
            Some(i) => if i < self.container_view.len() && self.container_view[i as int]
                < self.containers.len() {
                Some(self.containers[self.container_view[i as int] as int])
            } else {
                None
            },
            None => None,
        }
    }

    /// Enter while browsing: the full page of what is selected.
    pub open spec fn entered(self) -> (AppView, ActionView) {
        match self.tab {
            Tab::Processes => match self.selected_pid() {
                Some(pid) => (self, ActionView::OpenDetail(pid)),
                None => (self, ActionView::Nothing),
            },
            Tab::Ports => match self.selected_socket() {
                Some(s) => (
                    AppView { port_detail_port: s.local_port, ..self },
                    ActionView::OpenPort(s.local_port),
                ),
                None => (self, ActionView::Nothing),
            },
            Tab::Containers => match self.selected_container() {
                Some(c) => (
                    AppView {
                        container_detail: Some(c),
                        cd_scroll: 0,
                        cdp_scroll: 0,
                        cd_pane_info: true,
                        page: Page::ContainerDetail,
                        ..self
                    },
                    ActionView::ListMembers(c.id),
                ),
                None => (self, ActionView::Nothing),
            },
            Tab::Locks => (AppView { focus: Focus::Details, ..self }, ActionView::Nothing),
        }
    }

    /// Sorted by a key; the same key again turns the order around.
    pub open spec fn sorted_by(self, k: SortKey) -> AppView {
        AppView {
            sort_key: k,
            sort_desc: if self.sort_key == k {
                !self.sort_desc
            } else {
                true
            },
            ..self
        }.with_view()
    }

    /// A key while browsing.
    pub open spec fn browse_key(self, key: Key, now: u64) -> (AppView, ActionView) {
        if key == Key::Char('q') {
            (self, ActionView::Quit)
        } else if key == Key::Esc {
            self.escaped()
        } else if key == Key::Tab {
            (
                AppView {
                    focus: if self.focus == Focus::Table {
                        Focus::Details
                    } else {
                        Focus::Table
                    },
                    ..self
                },
                ActionView::Nothing,
            )
        } else if key == Key::Char('/') {
            (AppView { search_mode: true, ..self }, ActionView::Nothing)
        } else if self.focus == Focus::Table && row_step(key) is Some {
            (self.moved(row_step(key)->0, now), ActionView::Nothing)
        } else if self.focus == Focus::Table && (key == Key::Char('g') || key == Key::Char('G')) {
            (self.at_edge(key == Key::Char('g'), now), ActionView::Nothing)
        } else if self.focus == Focus::Table && tab_step(key, self.tab) is Some {
            let t = tab_step(key, self.tab)->0;
            (self.on_tab(t), self.tab_needs(t))
        } else if self.focus == Focus::Details && panel_step(key, self.detail_height) is Some {
            (
                AppView {
                    detail_scroll: scrolled(
                        self.detail_scroll,
                        panel_step(key, self.detail_height)->0,
                    ),
                    ..self
                },
                ActionView::Nothing,
            )
        } else if self.focus == Focus::Details && key == Key::Char('g') {
            (AppView { detail_scroll: 0, ..self }, ActionView::Nothing)
        } else if self.focus == Focus::Details && key == Key::Char('G') {
            (AppView { detail_scroll: u16::MAX / 2, ..self }, ActionView::Nothing)
        } else if key == Key::Enter {
            self.entered()
        } else {
            match key {
                Key::Char(c) => if c == 'r' {
                    (self, ActionView::Refresh)
                } else if c == 'x' {
                    (
                        AppView {
                            confirm_kill: match self.selected_pid() {
                                Some(pid) => Some(pid),
                                None => self.confirm_kill,
                            },
                            ..self
                        },
                        ActionView::Nothing,
                    )
                } else if Tab::numbered(c) is Some {
                    (
                        self.on_tab(Tab::numbered(c)->0),
                        self.tab_needs(Tab::numbered(c)->0),
                    )
                } else if sort_of(c) is Some {
                    (self.sorted_by(sort_of(c)->0), ActionView::Nothing)
                } else {
                    (self, ActionView::Nothing)
                },
                _ => (self, ActionView::Nothing),
            }
        }
    }

    /// A key.
    pub open spec fn keyed(self, key: Key, now: u64, c: Clock) -> (AppView, ActionView) {
        if self.confirm_kill is Some {
            self.confirm_key(key)
        } else if self.page != Page::Browse {
            self.page_key(key, c)
        } else if self.search_mode {
            (self.search_key(key), ActionView::Nothing)
        } else {
            self.browse_key(key, now)
        }
    }

    /// With the processes listed anew, where they could be.
    pub open spec fn with_processes(self, listed: Option<Seq<ProcessView>>, now: u64) -> AppView {
        match listed {
            Some(p) => AppView { procs: p, hist: self.hist.updated(p, now), ..self },
            None => self,
        }
    }

    /// At the end of a refresh.
    pub open spec fn refreshed(self, ranks: Seq<i64>, now: u64) -> AppView {
        AppView { last_refresh: Some(now), ..AppView { ranks, ..self }.with_view() }
    }

    /// Whether the tables are old enough to be refreshed.
    pub open spec fn refresh_due(self, now: u64) -> bool {
        match self.last_refresh {
            Some(at) => history::time_since(at, now) >= REFRESH,
            None => true,
        }
    }

    /// With the containers that a request found, while there is one.
    pub open spec fn with_containers(self, found: Seq<ContainerView>) -> AppView {
        if self.containers_loading {
            AppView {
                containers: found,
                containers_loading: false,
                containers_loaded: true,
                ..self
            }.with_container_view()
        } else {
            self
        }
    }

    /// Whether the cursor has rested long enough for the details to follow.
    pub open spec fn details_due(self, now: u64) -> bool {
        match self.detail_pending_since {
            Some(at) => history::time_since(at, now) >= DEBOUNCE,
            None => false,
        }
    }

    /// The details panel of the selected process: nothing to do when it shows
    /// it, a note when nothing is selected, and else a report to fetch.
    pub open spec fn details_asked(self) -> (AppView, Option<Pid>) {
        match self.selected_pid() {
            None => (
                AppView {
                    detail_lines: seq![panes::note("no selection"@)],
                    detail_pid: None,
                    ..self
                },
                None,
            ),
            Some(pid) => if self.detail_pid == Some(pid) {
                (self, None)
            } else {
                (AppView { detail_pid: Some(pid), detail_scroll: 0, ..self }, Some(pid))
            },
        }
    }

    /// What the details panel says of a report.
    pub open spec fn panel_lines(
        self,
        pid: Pid,
        r: Option<TargetReportView>,
        c: Clock,
    ) -> Seq<Seq<SpanView>> {
        match r {
            Some(x) => if x.found {
                panes::details(x, c) + panes::history_lines(self.hist, pid)
            } else {
                seq![
                    panes::note(
                        match x.error {
                            Some(e) => e,
                            None => "unavailable"@,
                        },
                    ),
                ]
            },
            None => seq![panes::note("unavailable"@)],
        }
    }

    /// The full page of a process.
    pub open spec fn with_detail_page(
        self,
        pid: Pid,
        r: Option<TargetReportView>,
        files: Seq<Seq<char>>,
        c: Clock,
    ) -> AppView {
        match r {
            Some(x) => if x.found {
                let lines = panes::details(x, c) + panes::history_lines(self.hist, pid)
                    + panes::open_file_lines(files);
                AppView {
                    open_files: Some(files),
                    detail_line_count: lines.len() as u16,
                    detail_lines: lines,
                    detail_report: Some(x),
                    detail_pid: Some(pid),
                    detail_scroll: 0,
                    env_scroll: 0,
                    detail_pane: true,
                    page: Page::Detail,
                    ..self
                }
            } else {
                self.without_detail_page(pid)
            },
            None => self.without_detail_page(pid),
        }
    }

    /// No full page of a process that is gone.
    pub open spec fn without_detail_page(self, pid: Pid) -> AppView {
        AppView {
            status: "pid "@ + num::dec(pid as int) + " is gone — details unavailable"@,
            ..self
        }
    }

    /// The sockets on the port of a port page.
    pub open spec fn with_port_sockets(self, found: Option<Seq<SocketView>>) -> AppView {
        AppView {
            port_detail_sockets: live_first(
                match found {
                    Some(s) => s,
                    None => at_port(
                        self.sockets,
                        self.port_detail_port,
                        self.sockets.len() as int,
                    ),
                },
            ),
            ..self
        }
    }

    /// The full page of a port.
    pub open spec fn with_port_page(self, r: Option<TargetReportView>) -> AppView {
        AppView {
            port_detail_report: match r {
                Some(x) => if x.found {
                    Some(x)
                } else {
                    None
                },
                None => None,
            },
            port_scroll: 0,
            port_owner_scroll: 0,
            port_pane_conn: true,
            page: Page::PortDetail,
            ..self
        }
    }
}

/// Those of the first `n` sockets that are on a port.
pub open spec fn at_port(v: Seq<SocketView>, port: u16, n: int) -> Seq<SocketView>
    decreases n,
{
    if n <= 0 {
        seq![]
    } else if v[n - 1].local_port == port {
        at_port(v, port, n - 1).push(v[n - 1])
    } else {
        at_port(v, port, n - 1)
    }
}

fn sockets_at(v: &Vec<Socket>, port: u16) -> (r: Vec<Socket>)
    ensures
        text::views(r@) == at_port(text::views(v@), port, v@.len() as int),
{
    broadcast use crate::text::group_views;

    let ghost all = text::views(v@);
    let mut out: Vec<Socket> = Vec::new();
    let mut i: usize = 0;
    while i < v.len()
        invariant
            all == text::views(v@),
            i <= v@.len(),
            text::views(out@) == at_port(all, port, i as int),
        decreases v@.len() - i,
    {
        assert(all[i as int] == v@[i as int]@);
        if v[i].local_port == port {
            out.push(v[i].clone());
        }
        i += 1;
    }
    out
}

/// Where a state stands: listening first, then established, then the rest.
pub open spec fn state_rank(state: Seq<char>) -> i64 {
    if panes::listens(state) {
        0
    } else if state == "ESTABLISHED"@ {
        1
    } else {
        2
    }
}

/// The sort keys of the sockets on a port page.
pub open spec fn state_keys(v: Seq<SocketView>) -> Seq<order::Key> {
    Seq::new(v.len(), |i: int| seq![seq![state_rank(v[i].state)]])
}

/// LISTEN first, then ESTABLISHED (the live requests), then the rest.
pub open spec fn live_first(v: Seq<SocketView>) -> Seq<SocketView> {
    order::arranged(v, order::sorted(order::all_positions(v.len()), state_keys(v), false))
}

fn sort_by_state(v: &Vec<Socket>) -> (r: Vec<Socket>)
    ensures
        text::views(r@) == live_first(text::views(v@)),
{
    broadcast use crate::order::keys_view_push;

    let ghost all = text::views(v@);
    let mut keys: Vec<Vec<Vec<i64>>> = Vec::new();
    let mut i: usize = 0;
    assert(order::keys_view(keys@) =~= state_keys(all).take(0));
    while i < v.len()
        invariant
            all == text::views(v@),
            i <= v@.len(),
            keys@.len() == i,
            order::keys_view(keys@) == state_keys(all).take(i as int),
        decreases v@.len() - i,
    {
        assert(all[i as int] == v@[i as int]@);
        let rank: i64 = if listens_of(v[i].state.as_str()) {
            0
        } else if same_str(v[i].state.as_str(), "ESTABLISHED") {
            1
        } else {
            2
        };
        keys.push(key_of_one(field_of_number(rank)));
        assert(state_keys(all).take(i + 1) =~= state_keys(all).take(i as int).push(
            state_keys(all)[i as int],
        ));
        i += 1;
    }
    assert(state_keys(all).take(i as int) =~= state_keys(all));
    let idx = positions(v.len());
    let o = sort(&idx, &keys, false);
    let mut out: Vec<Socket> = Vec::new();
    let mut j: usize = 0;
    while j < o.len()
        invariant
            all == text::views(v@),
            forall|x: int| 0 <= x < o@.len() ==> #[trigger] o@[x] < v@.len(),
            j <= o@.len(),
            out@.len() == j,
            forall|x: int| 0 <= x < j ==> (#[trigger] out@[x])@ == all[o@[x] as int],
        decreases o@.len() - j,
    {
        assert(o@[j as int] < v@.len());
        out.push(v[o[j]].clone());
        j += 1;
    }
    assert(text::views(out@) =~= live_first(all));
    out
}

/// The first of the sockets from `i` on that listens.
pub open spec fn first_listening(v: Seq<SocketView>, i: int) -> Option<SocketView>
    decreases v.len() - i,
{
    if i >= v.len() {
        None
    } else if panes::listens(v[i].state) {
        Some(v[i])
    } else {
        first_listening(v, i + 1)
    }
}

/// The owner of the first of the sockets from `i` on that has one.
pub open spec fn first_owner(v: Seq<SocketView>, i: int) -> Option<Pid>
    decreases v.len() - i,
{
    if i >= v.len() {
        None
    } else if v[i].pid is Some {
        v[i].pid
    } else {
        first_owner(v, i + 1)
    }
}

/// The owner of a port: that of the listening socket, or else the first there
/// is.
pub open spec fn port_owner(v: Seq<SocketView>) -> Option<Pid> {
    match first_listening(v, 0) {
        Some(s) => s.pid,
        None => first_owner(v, 0),
    }
}

fn port_owner_of(v: &Vec<Socket>) -> (r: Option<Pid>)
    ensures
        r == port_owner(text::views(v@)),
{
    let ghost all = text::views(v@);
    let mut i: usize = 0;
    while i < v.len()
        invariant
            all == text::views(v@),
            i <= v@.len(),
            first_listening(all, 0) == first_listening(all, i as int),
        decreases v@.len() - i,
    {
        assert(all[i as int] == v@[i as int]@);
        if listens_of(v[i].state.as_str()) {
            return v[i].pid;
        }
        i += 1;
    }
    let mut j: usize = 0;
    while j < v.len()
        invariant
            all == text::views(v@),
            first_listening(all, 0) is None,
            j <= v@.len(),
            first_owner(all, 0) == first_owner(all, j as int),
        decreases v@.len() - j,
    {
        assert(all[j as int] == v@[j as int]@);
        if v[j].pid.is_some() {
            return v[j].pid;
        }
        j += 1;
    }
    None
}

/// A key changes nothing in the reports on display.
proof fn keys_keep_reports(a: AppView, key: Key, now: u64, c: Clock)
    ensures
        a.keyed(key, now, c).0.detail_report == a.detail_report,
        a.keyed(key, now, c).0.port_detail_report == a.port_detail_report,
{
}

// ---------- the methods ----------

impl TuiApp {
    /// The interface before anything was listed.
    pub fn new(os: Os) -> (r: TuiApp)
        ensures
            r@ == AppView::fresh(os),
            r@.wf(),
    {
        let r = TuiApp {
            os,
            tab: Tab::Processes,
            focus: Focus::Table,
            procs: Vec::new(),
            ranks: Vec::new(),
            sockets: Vec::new(),
            locks: Vec::new(),
            view: Vec::new(),
            sort_key: SortKey::Mem,
            sort_desc: true,
            search: String::new(),
            search_mode: false,
            selected: None,
            offset: 0,
            detail_scroll: 0,
            detail_height: 12,
            detail_lines: only(note_of("loading...")),
            detail_pid: None,
            page: Page::Browse,
            detail_pane: true,
            detail_report: None,
            detail_line_count: 1,
            env_scroll: 0,
            env_line_count: 1,
            port_detail_port: 0,
            port_detail_sockets: Vec::new(),
            port_detail_report: None,
            port_scroll: 0,
            port_owner_scroll: 0,
            port_pane_conn: true,
            port_pane_height: 10,
            container_detail: None,
            container_procs: Vec::new(),
            cd_scroll: 0,
            cdp_scroll: 0,
            cd_pane_info: true,
            detail_pending_since: None,
            port_search: String::new(),
            socket_view: Vec::new(),
            containers: Vec::new(),
            container_search: String::new(),
            container_view: Vec::new(),
            containers_loading: false,
            containers_loaded: false,
            hist: History::new(),
            open_files: None,
            last_refresh: None,
            status: String::new(),
            confirm_kill: None,
        };
        assert(text::views(r.procs@) =~= seq![]);
        assert(r.ranks@ =~= seq![]);
        assert(text::views(r.sockets@) =~= seq![]);
        assert(text::views(r.locks@) =~= seq![]);
        assert(r.view@ =~= seq![]);
        assert(r.search@ =~= seq![]);
        assert(text::views(r.detail_lines@) =~= seq![panes::note("loading..."@)]);
        assert(text::views(r.port_detail_sockets@) =~= seq![]);
        assert(text::views(r.container_procs@) =~= seq![]);
        assert(r.port_search@ =~= seq![]);
        assert(r.socket_view@ =~= seq![]);
        assert(text::views(r.containers@) =~= seq![]);
        assert(r.container_search@ =~= seq![]);
        assert(r.container_view@ =~= seq![]);
        assert(r.status@ =~= seq![]);
        r
    }

    /// Selects a row; without one the table starts at its top.
    fn select(&mut self, selected: Option<usize>)
        ensures
            final(self)@ == old(self)@.selecting(selected),
    {
        self.selected = selected;
        if selected.is_none() {
            self.offset = 0;
        }
    }

    fn row_count(&self) -> (r: usize)
        ensures
            r == self@.rows(),
    {
        match self.tab {
            Tab::Processes => self.view.len(),
            Tab::Ports => self.socket_view.len(),
            Tab::Containers => self.container_view.len(),
            Tab::Locks => self.locks.len(),
        }
    }

    fn keep_in_table(&mut self)
        ensures
            final(self)@ == old(self)@.in_table(),
    {
        let sel = keep_in_rows(self.selected, self.row_count());
        self.select(sel);
    }

    /// Apply search filter + sort, keeping the selection in range.
    pub fn rebuild_view(&mut self)
        ensures
            final(self)@ == old(self)@.with_view(),
    {
        let needle = lowercase(self.search.as_str());
        self.view = arrange_processes(
            &self.procs,
            &self.ranks,
            needle.as_str(),
            self.sort_key,
            self.sort_desc,
        );
        self.keep_in_table();
    }

    /// Apply the Ports-tab filter (port / pid / process / address / state),
    /// keeping the selection in range.
    pub fn rebuild_socket_view(&mut self)
        ensures
            final(self)@ == old(self)@.with_socket_view(),
    {
        let needle = lowercase(self.port_search.as_str());
        let names = lower_names_of(&self.procs);
        self.socket_view = filter_sockets(&self.sockets, needle.as_str(), &names);
        self.keep_in_table();
    }

    /// Apply the Containers-tab filter (name / image / id / runtime / state),
    /// keeping the selection in range.
    pub fn rebuild_container_view(&mut self)
        ensures
            final(self)@ == old(self)@.with_container_view(),
    {
        let needle = lowercase(self.container_search.as_str());
        self.container_view = filter_containers(&self.containers, needle.as_str());
        self.keep_in_table();
    }

    /// The pid of the selected process.
    pub fn selected_pid(&self) -> (r: Option<Pid>)
        ensures
            r == self@.selected_pid(),
    {
        match self.selected {
            Some(i) => if i < self.view.len() && self.view[i] < self.procs.len() {
                assert(self@.procs[self.view@[i as int] as int]
                    == self.procs@[self.view@[i as int] as int]@);
                Some(self.procs[self.view[i]].pid)
            } else {
                None
            },
            None => None,
        }
    }

    fn go_to_row(&mut self, row: usize, now: u64)
        ensures
            final(self)@ == old(self)@.at_row(row, now),
    {
        self.selected = Some(row);
        self.detail_pid = None;  // force detail refresh (debounced)
        self.detail_scroll = 0;
        self.detail_pending_since = Some(now);
    }

    fn move_selection(&mut self, by: i64, now: u64)
        requires
            -20 <= by <= 20,
        ensures
            final(self)@ == old(self)@.moved(by as int, now),
    {
        let len: usize = self.row_count();
        if len == 0 {
            return;
        }
        let cur: usize = match self.selected {
            Some(i) => i,
            None => 0,
        };
        let next: usize = row_after_by(cur, by, len);
        if next != cur {
            self.go_to_row(next, now);
        }
    }

    fn select_edge(&mut self, first: bool, now: u64)
        ensures
            final(self)@ == old(self)@.at_edge(first, now),
    {
        let len: usize = self.row_count();
        if len == 0 {
            return;
        }
        if first {
            self.go_to_row(0, now);
        } else {
            self.go_to_row(len - 1, now);
        }
    }

    /// Switch tab; the result says what data that tab needs.
    pub fn switch_tab(&mut self, tab: Tab) -> (r: Action)
        ensures
            final(self)@ == old(self)@.on_tab(tab),
            r@ == old(self)@.tab_needs(tab),
    {
        self.tab = tab;
        self.status = String::new();
        assert(self.status@ =~= seq![]);
        match tab {
            Tab::Processes => {
                self.rebuild_view();
                Action::Nothing
            },
            Tab::Locks => if self.os == Os::Linux {
                Action::Load(tab)
            } else {
                Action::Nothing
            },
            _ => Action::Load(tab),
        }
    }

    /// Plain text of the focused pane (for the clipboard).
    pub fn focused_pane_text(&self, c: Clock) -> (r: String)
        requires
            self@.wf(),
        ensures
            r@ == self@.focused_text(c),
    {
        let lines: Vec<Line> = match self.page {
            Page::Detail => if self.detail_pane {
                copy_lines(&self.detail_lines)
            } else {
                env_lines(&self.detail_report, self.os)
            },
            Page::PortDetail => if self.port_pane_conn {
                port_connection_lines(&self.port_detail_sockets, &self.procs)
            } else {
                match &self.port_detail_report {
                    Some(r) => detail_lines(r, c),
                    None => only(Line::raw("no owning process visible")),
                }
            },
            Page::ContainerDetail => if self.cd_pane_info {
                container_info_lines(&self.container_detail)
            } else {
                container_proc_lines(&self.container_procs, self.os)
            },
            Page::Browse => {
                let v: Vec<Line> = Vec::new();
                assert(text::views(v@) =~= seq![]);
                v
            },
        };
        lines_to_string(&lines)
    }

    fn toggle_pane(&mut self)
        ensures
            final(self)@ == old(self)@.other_pane(),
    {
        match self.page {
            Page::Detail => {
                self.detail_pane = !self.detail_pane;
            },
            Page::PortDetail => {
                self.port_pane_conn = !self.port_pane_conn;
            },
            Page::ContainerDetail => {
                self.cd_pane_info = !self.cd_pane_info;
            },
            Page::Browse => {},
        }
    }

    fn scroll_pane(&mut self, by: i32)
        requires
            -65535 <= by <= 65535,
        ensures
            final(self)@ == old(self)@.pane_scrolled(by as int),
    {
        match self.page {
            Page::Detail => {
                if self.detail_pane {
                    self.detail_scroll = scroll_by(self.detail_scroll, by);
                } else {
                    self.env_scroll = scroll_by(self.env_scroll, by);
                }
            },
            Page::PortDetail => {
                if self.port_pane_conn {
                    self.port_scroll = scroll_by(self.port_scroll, by);
                } else {
                    self.port_owner_scroll = scroll_by(self.port_owner_scroll, by);
                }
            },
            Page::ContainerDetail => {
                if self.cd_pane_info {
                    self.cd_scroll = scroll_by(self.cd_scroll, by);
                } else {
                    self.cdp_scroll = scroll_by(self.cdp_scroll, by);
                }
            },
            Page::Browse => {},
        }
    }

    fn on_confirm_key(&mut self, key: Key) -> (r: Action)
        ensures
            (final(self)@, r@) == old(self)@.confirm_key(key),
    {
        if key == Key::Char('y') || key == Key::Char('Y') {
            match self.selected_pid() {
                Some(pid) => {
                    self.confirm_kill = None;
                    Action::Kill(pid)
                },
                None => Action::Nothing,
            }
        } else {
            self.confirm_kill = None;
            Action::Nothing
        }
    }

    fn on_page_key(&mut self, key: Key, c: Clock) -> (r: Action)
        requires
            old(self)@.wf(),
        ensures
            (final(self)@, r@) == old(self)@.page_key(key, c),
    {
        if key == Key::Esc || key == Key::Char('q') || key == Key::Backspace {
            self.page = Page::Browse;
            return Action::Nothing;
        }
        if key == Key::Char('c') {
            return Action::Copy(self.focused_pane_text(c));
        }
        if key == Key::Tab {
            self.toggle_pane();
            return Action::Nothing;
        }
        let height: u16 = if self.detail_height < self.port_pane_height {
            self.port_pane_height
        } else {
            self.detail_height
        };
        self.scroll_pane(pane_step_of(key, height));
        Action::Nothing
    }

    fn set_search(&mut self, s: String)
        ensures
            final(self)@ == old(self)@.searching(s@),
    {
        match self.tab {
            Tab::Ports => {
                self.port_search = s;
                self.rebuild_socket_view();
            },
            Tab::Containers => {
                self.container_search = s;
                self.rebuild_container_view();
            },
            _ => {
                self.search = s;
                self.rebuild_view();
            },
        }
    }

    fn current_search(&self) -> (r: String)
        ensures
            r@ == self@.search_text(),
    {
        match self.tab {
            Tab::Ports => self.port_search.clone(),
            Tab::Containers => self.container_search.clone(),
            _ => self.search.clone(),
        }
    }

    fn on_search_key(&mut self, key: Key)
        ensures
            final(self)@ == old(self)@.search_key(key),
    {
        match key {
            Key::Char(c) => {
                let mut s = self.current_search();
                s.push(c);
                self.set_search(s);
            },
            Key::Backspace => {
                let s = shorten(&self.current_search());
                self.set_search(s);
            },
            Key::Enter => {
                self.search_mode = false;
                self.focus = Focus::Table;
            },
            Key::Esc => {
                let none = String::new();
                assert(none@ =~= seq![]);
                self.set_search(none);
                self.search_mode = false;
                self.focus = Focus::Table;
            },
            _ => {},
        }
    }

    fn on_escape(&mut self) -> (r: Action)
        ensures
            (final(self)@, r@) == old(self)@.escaped(),
    {
        if self.focus == Focus::Details {
            self.focus = Focus::Table;
        } else if self.tab == Tab::Ports && !self.port_search.as_str().is_empty() {
            self.port_search = String::new();
            assert(self.port_search@ =~= seq![]);
            self.rebuild_socket_view();
        } else if self.tab == Tab::Containers && !self.container_search.as_str().is_empty() {
            self.container_search = String::new();
            assert(self.container_search@ =~= seq![]);
            self.rebuild_container_view();
        } else if !self.search.as_str().is_empty() {
            self.search = String::new();
            assert(self.search@ =~= seq![]);
            self.rebuild_view();
        } else {
            return Action::Quit;
        }
        Action::Nothing
    }

    fn on_enter(&mut self) -> (r: Action)
        ensures
            (final(self)@, r@) == old(self)@.entered(),
    {
        match self.tab {
            Tab::Processes => match self.selected_pid() {
                Some(pid) => Action::OpenDetail(pid),
                None => Action::Nothing,
            },
            Tab::Ports => match self.selected {
                Some(i) => if i < self.socket_view.len() && self.socket_view[i]
                    < self.sockets.len() {
                    let port: u16 = self.sockets[self.socket_view[i]].local_port;
                    assert(self@.sockets[self.socket_view@[i as int] as int].local_port == port);
                    self.port_detail_port = port;
                    Action::OpenPort(port)
                } else {
                    Action::Nothing
                },
                None => Action::Nothing,
            },
            Tab::Containers => match self.selected {
                Some(i) => if i < self.container_view.len() && self.container_view[i]
                    < self.containers.len() {
                    let c = self.containers[self.container_view[i]].clone();
                    assert(self@.containers[self.container_view@[i as int] as int] == c@);
                    let id = c.id.clone();
                    self.container_detail = Some(c);
                    self.cd_scroll = 0;
                    self.cdp_scroll = 0;
                    self.cd_pane_info = true;
                    self.page = Page::ContainerDetail;
                    Action::ListMembers(id)
                } else {
                    Action::Nothing
                },
                None => Action::Nothing,
            },
            Tab::Locks => {
                self.focus = Focus::Details;
                Action::Nothing
            },
        }
    }

    fn sort_by(&mut self, k: SortKey)
        ensures
            final(self)@ == old(self)@.sorted_by(k),
    {
        if self.sort_key == k {
            self.sort_desc = !self.sort_desc;
        } else {
            self.sort_key = k;
            self.sort_desc = true;
        }
        self.rebuild_view();
    }

    fn on_letter(&mut self, c: char) -> (r: Action)
        ensures
            c == 'r' ==> final(self)@ == old(self)@ && r@ == ActionView::Refresh,
            c == 'x' ==> final(self)@ == (AppView {
                confirm_kill: match old(self)@.selected_pid() {
                    Some(pid) => Some(pid),
                    None => old(self)@.confirm_kill,
                },
                ..old(self)@
            }) && r@ == ActionView::Nothing,
            c != 'r' && c != 'x' && Tab::numbered(c) is Some ==> final(self)@
                == old(self)@.on_tab(Tab::numbered(c)->0) && r@ == old(self)@.tab_needs(
                Tab::numbered(c)->0,
            ),
            c != 'r' && c != 'x' && Tab::numbered(c) is None ==> r@ == ActionView::Nothing
                && final(self)@ == match sort_of(c) {
                Some(k) => old(self)@.sorted_by(k),
                None => old(self)@,
            },
    {
        if c == 'r' {
            return Action::Refresh;
        }
        if c == 'x' {
            if let Some(pid) = self.selected_pid() {
                self.confirm_kill = Some(pid);
            }
            return Action::Nothing;
        }
        if let Some(t) = Tab::from_digit(c) {
            return self.switch_tab(t);
        }
        if let Some(k) = sort_for(c) {
            self.sort_by(k);
        }
        Action::Nothing
    }

    #[verifier::rlimit(40)]
    fn on_browse_key(&mut self, key: Key, now: u64) -> (r: Action)
        ensures
            (final(self)@, r@) == old(self)@.browse_key(key, now),
    {
        if key == Key::Char('q') {
            return Action::Quit;
        }
        if key == Key::Esc {
            return self.on_escape();
        }
        if key == Key::Tab {
            self.focus = if self.focus == Focus::Table {
                Focus::Details
            } else {
                Focus::Table
            };
            return Action::Nothing;
        }
        if key == Key::Char('/') {
            self.search_mode = true;
            return Action::Nothing;
        }
        if self.focus == Focus::Table {
            if let Some(by) = row_step_of(key) {
                self.move_selection(by, now);
                return Action::Nothing;
            }
            if key == Key::Char('g') || key == Key::Char('G') {
                self.select_edge(key == Key::Char('g'), now);
                return Action::Nothing;
            }
            if let Some(t) = tab_step_of(key, self.tab) {
                return self.switch_tab(t);
            }
        } else {
            if let Some(by) = panel_step_of(key, self.detail_height) {
                self.detail_scroll = scroll_by(self.detail_scroll, by);
                return Action::Nothing;
            }
            if key == Key::Char('g') {
                self.detail_scroll = 0;
                return Action::Nothing;
            }
            if key == Key::Char('G') {
                self.detail_scroll = u16::MAX / 2;
                return Action::Nothing;
            }
        }
        if key == Key::Enter {
            return self.on_enter();
        }
        match key {
            Key::Char(c) => self.on_letter(c),
            _ => Action::Nothing,
        }
    }

    /// A key press: what it does to the state, and what it asks of the caller.
    pub fn on_key(&mut self, key: Key, now: u64, c: Clock) -> (r: Action)
        requires
            old(self)@.wf(),
        ensures
            (final(self)@, r@) == old(self)@.keyed(key, now, c),
            final(self)@.wf(),
    {
        proof {
            keys_keep_reports(self@, key, now, c);
        }
        if self.confirm_kill.is_some() {
            return self.on_confirm_key(key);
        }
        if self.page != Page::Browse {
            return self.on_page_key(key, c);
        }
        if self.search_mode {
            self.on_search_key(key);
            return Action::Nothing;
        }
        self.on_browse_key(key, now)
    }

    // ---------- what the caller reports back ----------

    /// The data that the tab needs on a refresh.
    pub fn needed(&self) -> (r: Action)
        ensures
            r@ == self@.tab_needs(self@.tab),
    {
        match self.tab {
            Tab::Processes => Action::Nothing,
            Tab::Locks => if self.os == Os::Linux {
                Action::Load(self.tab)
            } else {
                Action::Nothing
            },
            _ => Action::Load(self.tab),
        }
    }

    /// Whether a refresh is due.
    pub fn refresh_due(&self, now: u64) -> (r: bool)
        ensures
            r == self@.refresh_due(now),
    {
        match self.last_refresh {
            Some(at) => time_passed(at, now) >= REFRESH,
            None => true,
        }
    }

    /// The processes were listed; none when that failed.
    pub fn processes_listed(&mut self, listed: Option<Vec<Process>>, now: u64)
        ensures
            final(self)@ == old(self)@.with_processes(
                match listed {
                    Some(v) => Some(text::views(v@)),
                    None => None,
                },
                now,
            ),
    {
        if let Some(procs) = listed {
            self.hist.update(procs.as_slice(), now);
            self.procs = procs;
        }
    }

    /// The refresh is complete; `ranks` order the listed processes by cpu.
    pub fn refreshed(&mut self, ranks: Vec<i64>, now: u64)
        ensures
            final(self)@ == old(self)@.refreshed(ranks@, now),
    {
        self.ranks = ranks;
        self.rebuild_view();
        self.last_refresh = Some(now);
    }

    /// The sockets were listed.
    pub fn sockets_listed(&mut self, sockets: Vec<Socket>)
        ensures
            final(self)@ == (AppView {
                sockets: text::views(sockets@),
                ..old(self)@
            }).with_socket_view(),
    {
        self.sockets = sockets;
        self.rebuild_socket_view();
    }

    /// The lock table was read; none when it is not readable.
    pub fn locks_read(&mut self, table: Option<String>)
        ensures
            final(self)@ == (AppView {
                locks: match table {
                    Some(t) => filter::lock_rows(
                        text::lines(t@),
                        text::lines(t@).len() as int,
                    ),
                    None => seq![],
                },
                ..old(self)@
            }),
    {
        match table {
            Some(t) => {
                self.locks = parse_locks(t.as_str());
            },
            None => {
                self.locks = Vec::new();
                assert(text::views(self.locks@) =~= seq![]);
            },
        }
    }

    /// Whether to start looking for containers: not while a search is under
    /// way.
    pub fn containers_requested(&mut self) -> (r: bool)
        ensures
            r == !old(self)@.containers_loading,
            final(self)@ == (AppView { containers_loading: true, ..old(self)@ }),
    {
        let r = !self.containers_loading;
        self.containers_loading = true;
        r
    }

    /// The search for containers has ended.
    pub fn containers_arrived(&mut self, found: Vec<Container>)
        ensures
            final(self)@ == old(self)@.with_containers(text::views(found@)),
    {
        if self.containers_loading {
            self.containers = found;
            self.containers_loading = false;
            self.containers_loaded = true;
            self.rebuild_container_view();
        }
    }

    /// Whether the details are to follow the cursor now.
    pub fn details_due(&mut self, now: u64) -> (r: bool)
        ensures
            r == old(self)@.details_due(now),
            final(self)@ == if old(self)@.details_due(now) {
                AppView { detail_pending_since: None, ..old(self)@ }
            } else {
                old(self)@
            },
    {
        match self.detail_pending_since {
            Some(at) => if time_passed(at, now) >= DEBOUNCE {
                self.detail_pending_since = None;
                true
            } else {
                false
            },
            None => false,
        }
    }

    /// Selection changed (or never computed): the process whose report the
    /// details panel needs, if it needs one.
    pub fn update_details(&mut self) -> (r: Option<Pid>)
        ensures
            (final(self)@, r) == old(self)@.details_asked(),
    {
        match self.selected_pid() {
            None => {
                self.detail_lines = only(note_of("no selection"));
                self.detail_pid = None;
                None
            },
            Some(pid) => {
                if self.detail_pid.is_some() && self.detail_pid.unwrap() == pid {
                    return None;
                }
                self.detail_pid = Some(pid);
                self.detail_scroll = 0;
                Some(pid)
            },
        }
    }

    /// The report for the details panel has come.
    pub fn details_fetched(&mut self, pid: Pid, report: &Option<TargetReport>, c: Clock)
        requires
            report matches Some(r) ==> r@.found ==> r@.matches.len() > 0,
        ensures
            final(self)@ == (AppView {
                detail_lines: old(self)@.panel_lines(pid, panes::opt_report(*report), c),
                ..old(self)@
            }),
    {
        let lines: Vec<Line> = match report {
            Some(r) => if r.found {
                let mut lines = detail_lines(r, c);
                push_history_lines(&mut lines, &self.hist, pid);
                lines
            } else {
                match &r.error {
                    Some(e) => only(note_of(e.as_str())),
                    None => only(note_of("unavailable")),
                }
            },
            None => only(note_of("unavailable")),
        };
        self.detail_lines = lines;
    }

    /// The report and the open files for the full page of a process have come.
    pub fn detail_opened(
        &mut self,
        pid: Pid,
        report: Option<TargetReport>,
        files: Vec<String>,
        c: Clock,
    )
        requires
            old(self)@.wf(),
            report matches Some(r) ==> r@.found ==> r@.matches.len() > 0,
        ensures
            final(self)@ == old(self)@.with_detail_page(
                pid,
                panes::opt_report(report),
                text::texts(files@),
                c,
            ),
            final(self)@.wf(),
    {
        let found: bool = match &report {
            Some(r) => r.found,
            None => false,
        };
        if !found {
            let mut s = text("pid ");
            s.append(dec_i32(pid).as_str());
            s.append(" is gone — details unavailable");
            self.status = s;
            return;
        }
        if let Some(r) = report {
            let mut lines = detail_lines(&r, c);
            push_history_lines(&mut lines, &self.hist, pid);
            push_open_files(&mut lines, &files);
            self.open_files = Some(files);
            let n: usize = lines.len();
            self.detail_line_count = #[verifier::truncate] (n as u16);
            self.detail_lines = lines;
            self.detail_report = Some(r);
            self.detail_pid = Some(pid);
            self.detail_scroll = 0;
            self.env_scroll = 0;
            self.detail_pane = true;
            self.page = Page::Detail;
        }
    }

    /// The sockets on the port were found; none when the search failed, and
    /// then those of the table that are on it are shown. The result is the
    /// owner, whose report `port_opened` takes.
    pub fn port_sockets_found(&mut self, found: Option<Vec<Socket>>) -> (r: Option<Pid>)
        ensures
            final(self)@ == old(self)@.with_port_sockets(
                match found {
                    Some(v) => Some(text::views(v@)),
                    None => None,
                },
            ),
            r == port_owner(final(self)@.port_detail_sockets),
    {
        let sockets: Vec<Socket> = match found {
            Some(v) => v,
            None => sockets_at(&self.sockets, self.port_detail_port),
        };
        self.port_detail_sockets = sort_by_state(&sockets);
        port_owner_of(&self.port_detail_sockets)
    }

    /// The report on the owner of the port has come, where it has one.
    pub fn port_opened(&mut self, report: Option<TargetReport>)
        requires
            old(self)@.wf(),
            report matches Some(r) ==> r@.found ==> r@.matches.len() > 0,
        ensures
            final(self)@ == old(self)@.with_port_page(panes::opt_report(report)),
            final(self)@.wf(),
    {
        let found: bool = match &report {
            Some(r) => r.found,
            None => false,
        };
        self.port_detail_report = if found {
            report
        } else {
            None
        };
        self.port_scroll = 0;
        self.port_owner_scroll = 0;
        self.port_pane_conn = true;
        self.page = Page::PortDetail;
    }

    /// The processes in the container were found.
    pub fn members_listed(&mut self, procs: Vec<Process>)
        ensures
            final(self)@ == (AppView { container_procs: text::views(procs@), ..old(self)@ }),
    {
        self.container_procs = procs;
    }

    /// The process was sent the signal, or it could not be.
    pub fn killed(&mut self, pid: Pid, outcome: Result<(), String>)
        ensures
            final(self)@ == (AppView {
                status: match outcome {
                    Ok(_) => "SIGTERM sent to pid "@ + num::dec(pid as int),
                    Err(e) => "kill "@ + num::dec(pid as int) + ": "@ + e@,
                },
                ..old(self)@
            }),
    {
        match outcome {
            Ok(_) => {
                let mut s = text("SIGTERM sent to pid ");
                s.append(dec_i32(pid).as_str());
                self.status = s;
            },
            Err(e) => {
                let mut s = text("kill ");
                s.append(dec_i32(pid).as_str());
                s.append(": ");
                s.append(e.as_str());
                self.status = s;
            },
        }
    }

    /// The text was copied, this many characters, or it could not be.
    pub fn copied(&mut self, outcome: Result<usize, String>)
        ensures
            final(self)@ == (AppView {
                status: match outcome {
                    Ok(n) => "copied "@ + num::dec(n as int) + " chars to clipboard"@,
                    Err(e) => "clipboard: "@ + e@,
                },
                ..old(self)@
            }),
    {
        match outcome {
            Ok(n) => {
                let mut s = text("copied ");
                s.append(dec_usize(n).as_str());
                s.append(" chars to clipboard");
                self.status = s;
            },
            Err(e) => {
                let mut s = text("clipboard: ");
                s.append(e.as_str());
                self.status = s;
            },
        }
    }

    // ---------- the panes ----------

    /// Lines for the environment pane.
    pub fn env_lines(&self) -> (v: Vec<Line>)
        requires
            self@.wf(),
        ensures
            text::views(v@) == panes::env_pane(self@.detail_report, self@.os),
    {
        env_lines(&self.detail_report, self.os)
    }

    /// Lines for the connections pane of the port detail page.
    pub fn port_connection_lines(&self) -> (v: Vec<Line>)
        ensures
            text::views(v@) == panes::connections(
                self@.port_detail_sockets,
                panes::names_by_pid(self@.procs, self@.procs.len() as int),
            ),
    {
        port_connection_lines(&self.port_detail_sockets, &self.procs)
    }

    /// Lines for the container info pane.
    pub fn container_info_lines(&self) -> (v: Vec<Line>)
        ensures
            text::views(v@) == panes::container_pane(self@.container_detail),
    {
        container_info_lines(&self.container_detail)
    }

    /// Lines for the in-container process pane.
    pub fn container_proc_lines(&self) -> (v: Vec<Line>)
        ensures
            text::views(v@) == panes::members_pane(self@.container_procs, self@.os),
    {
        container_proc_lines(&self.container_procs, self.os)
    }
}

// ---------- laws ----------

/// Nothing is killed unasked: only `y`, where a kill waits for it, kills, and
/// only the selected process.
pub proof fn kill_needs_confirmation(a: AppView, key: Key, now: u64, c: Clock)
    requires
        a.keyed(key, now, c).1 is Kill,
    ensures
        a.confirm_kill is Some,
        key == Key::Char('y') || key == Key::Char('Y'),
        a.keyed(key, now, c).1 == ActionView::Kill(a.selected_pid()->0),
{
}

/// A key other than `y` takes the question back and does nothing else.
pub proof fn other_keys_cancel_kill(a: AppView, key: Key, now: u64, c: Clock)
    requires
        a.confirm_kill is Some,
        key != Key::Char('y'),
        key != Key::Char('Y'),
    ensures
        a.keyed(key, now, c) == (
            (AppView { confirm_kill: None, ..a }),
            ActionView::Nothing,
        ),
{
}

/// The interface ends only with `q` or Esc while browsing, and with Esc only
/// where nothing is left to close or to clear.
pub proof fn quits_only_when_asked(a: AppView, key: Key, now: u64, c: Clock)
    requires
        a.keyed(key, now, c).1 is Quit,
    ensures
        a.page == Page::Browse,
        a.confirm_kill is None,
        !a.search_mode,
        key == Key::Char('q') || (key == Key::Esc && a.focus == Focus::Table && a.search.len()
            == 0),
{
}

/// Every full page closes with Esc, `q` or Backspace, and the table is then
/// as it was.
pub proof fn pages_close(a: AppView, key: Key, now: u64, c: Clock)
    requires
        a.confirm_kill is None,
        a.page != Page::Browse,
        key == Key::Esc || key == Key::Char('q') || key == Key::Backspace,
    ensures
        a.keyed(key, now, c) == ((AppView { page: Page::Browse, ..a }), ActionView::Nothing),
{
}

/// After every rebuild a row of the table on display is selected, exactly if it
/// has rows.
pub proof fn selection_stays_in_rows(a: AppView)
    requires
        a.with_view().rows() <= usize::MAX,
        a.with_socket_view().rows() <= usize::MAX,
        a.with_container_view().rows() <= usize::MAX,
    ensures
        a.with_view().selected is Some <==> a.with_view().rows() > 0,
        a.with_view().selected matches Some(i) ==> i < a.with_view().rows(),
        a.with_socket_view().selected is Some <==> a.with_socket_view().rows() > 0,
        a.with_socket_view().selected matches Some(i) ==> i < a.with_socket_view().rows(),
        a.with_container_view().selected is Some <==> a.with_container_view().rows() > 0,
        a.with_container_view().selected matches Some(i) ==> i < a.with_container_view().rows(),
{
}

/// A refresh leaves the selected row where it is, on every tab, as long as the
/// table on display has it.
pub proof fn refresh_keeps_the_row(a: AppView, ranks: Seq<i64>, now: u64)
    requires
        a.selected matches Some(i) && i < a.refreshed(ranks, now).rows(),
    ensures
        a.refreshed(ranks, now).selected == a.selected,
{
}

/// A selected row of the process table always names a listed process.
pub proof fn selected_row_names_a_process(a: AppView)
    requires
        a.tab == Tab::Processes,
        a.procs.len() <= usize::MAX,
        a.with_view().view.len() > 0,
    ensures
        a.with_view().selected_pid() is Some,
{
    filter::rows_are_sorted_matches(
        a.procs,
        a.ranks,
        text::unicode_lower(a.search),
        a.sort_key,
        a.sort_desc,
    );
    let b = a.with_view();
    let i = b.selected->0 as int;
    assert(b.view.contains(b.view[i]));
}

/// Cursor keys never leave the table on display, and every table stays as it
/// is.
pub proof fn moves_stay_in_table(a: AppView, by: int, first: bool, now: u64)
    requires
        a.rows() <= usize::MAX,
        a.selected matches Some(i) ==> i < a.rows(),
    ensures
        ({
            let b = a.moved(by, now);
            &&& b.tab == a.tab
            &&& b.view == a.view
            &&& b.socket_view == a.socket_view
            &&& b.container_view == a.container_view
            &&& b.locks == a.locks
            &&& b.selected matches Some(i) ==> i < a.rows()
        }),
        ({
            let b = a.at_edge(first, now);
            &&& b.tab == a.tab
            &&& b.view == a.view
            &&& b.socket_view == a.socket_view
            &&& b.container_view == a.container_view
            &&& b.locks == a.locks
            &&& b.selected matches Some(i) ==> i < a.rows()
        }),
{
}

/// The keys for the ends of a table select its first and its last row, on
/// every tab.
pub proof fn edges_are_the_ends(a: AppView, now: u64)
    requires
        0 < a.rows() <= usize::MAX,
    ensures
        a.at_edge(true, now).selected == Some(0usize),
        a.at_edge(false, now).selected == Some((a.rows() - 1) as usize),
{
}

/// A step down and a step up lead back to the same row.
pub proof fn step_up_undoes_step_down(a: AppView, now: u64, later: u64)
    requires
        a.rows() <= usize::MAX,
        a.selected matches Some(i) && i + 1 < a.rows(),
    ensures
        a.moved(1, now).moved(-1, later).selected == a.selected,
{
}

/// Backspace takes back the last character typed into the search.
pub proof fn backspace_undoes_typing(a: AppView, ch: char)
    ensures
        a.search_key(Key::Char(ch)).search_key(Key::Backspace).search_text() == a.search_text(),
{
    assert(a.search_text().push(ch).drop_last() =~= a.search_text());
}

/// The sort key pressed twice gives the table as it was sorted.
pub proof fn sorting_twice_restores(a: AppView)
    ensures
        a.sorted_by(a.sort_key).sorted_by(a.sort_key).view == a.with_view().view,
        a.sorted_by(a.sort_key).sorted_by(a.sort_key).sort_desc == a.sort_desc,
{
}

/// On the page of a port, listening sockets stand first and established ones
/// before the rest.
pub proof fn live_sockets_come_first(v: Seq<SocketView>, i: int, j: int)
    requires
        0 <= i < j < v.len(),
        v.len() <= usize::MAX,
    ensures
        state_rank(live_first(v)[i].state) <= state_rank(live_first(v)[j].state),
{
    let idx = order::all_positions(v.len());
    let keys = state_keys(v);
    order::sorting_is_stable(idx, keys, false);
    let s = order::sorted(idx, keys, false);
    assert(order::in_order(s[i], s[j], keys, false));
    assert(s.contains(s[i]) && s.contains(s[j]));
    let ka = keys[s[i] as int];
    let kb = keys[s[j] as int];
    if state_rank(v[s[i] as int].state) > state_rank(v[s[j] as int].state) {
        assert(order::field_order(ka[0], kb[0], 0) == 1);
        assert(order::key_order(ka, kb, 0) == 1);
    }
}

/// The details follow the cursor: a process that is selected and not shown is
/// asked for once the cursor has rested.
pub proof fn details_follow_the_cursor(a: AppView, by: int, now: u64, later: u64)
    requires
        a.rows() <= usize::MAX,
        a.moved(by, now) != a,
        a.moved(by, now).selected_pid() is Some,
        later >= now + DEBOUNCE,
    ensures
        a.moved(by, now).details_due(later),
        a.moved(by, now).details_asked().1 == a.moved(by, now).selected_pid(),
        a.moved(by, now).details_asked().0.detail_pid == a.moved(by, now).selected_pid(),
{
}

/// The panes of a page scroll each for itself: only the position of the
/// focused one changes.
pub proof fn panes_scroll_independently(a: AppView, by: int)
    ensures
        ({
            let b = a.pane_scrolled(by);
            let focused = if a.page == Page::Detail {
                a.detail_pane
            } else if a.page == Page::PortDetail {
                a.port_pane_conn
            } else {
                a.cd_pane_info
            };
            &&& (a.page != Page::Detail || !focused) ==> b.detail_scroll == a.detail_scroll
            &&& (a.page != Page::Detail || focused) ==> b.env_scroll == a.env_scroll
            &&& (a.page != Page::PortDetail || !focused) ==> b.port_scroll == a.port_scroll
            &&& (a.page != Page::PortDetail || focused) ==> b.port_owner_scroll
                == a.port_owner_scroll
            &&& (a.page != Page::ContainerDetail || !focused) ==> b.cd_scroll == a.cd_scroll
            &&& (a.page != Page::ContainerDetail || focused) ==> b.cdp_scroll == a.cdp_scroll
        }),
{
}

/// The focus goes to the other pane and back.
pub proof fn focus_goes_and_comes(a: AppView)
    ensures
        a.other_pane().other_pane() == a,
        a.page != Page::Browse ==> a.other_pane() != a,
{
}

/// Filters are per tab: what is typed on one leaves those of the others alone.
pub proof fn filters_are_per_tab(a: AppView, s: Seq<char>)
    ensures
        ({
            let b = a.searching(s);
            &&& b.search_text() == s
            &&& a.tab != Tab::Ports ==> b.port_search == a.port_search && b.socket_view
                == a.socket_view
            &&& a.tab != Tab::Containers ==> b.container_search == a.container_search
                && b.container_view == a.container_view
            &&& a.tab == Tab::Ports || a.tab == Tab::Containers ==> b.search == a.search
                && b.view == a.view
        }),
{
}

/// Esc clears the filter of the tab and stays, be it while the text is typed
/// or in the table.
pub proof fn escape_clears_the_filter(a: AppView, now: u64, c: Clock)
    requires
        a.confirm_kill is None,
        a.page == Page::Browse,
        a.search_mode || (a.focus == Focus::Table && a.search_text().len() > 0),
    ensures
        a.keyed(Key::Esc, now, c).0.search_text() == Seq::<char>::empty(),
        !a.keyed(Key::Esc, now, c).0.search_mode,
        a.keyed(Key::Esc, now, c).1 == ActionView::Nothing,
{
}

/// Enter applies what was typed: the filter stays as it is.
pub proof fn enter_applies_the_filter(a: AppView, now: u64, c: Clock)
    requires
        a.confirm_kill is None,
        a.page == Page::Browse,
        a.search_mode,
    ensures
        a.keyed(Key::Enter, now, c) == (
            (AppView { search_mode: false, focus: Focus::Table, ..a }),
            ActionView::Nothing,
        ),
{
}

/// A key never forgets containers that were found: the table stays until
/// newer ones arrive.
pub proof fn containers_stay_listed(a: AppView, key: Key, now: u64, c: Clock)
    ensures
        a.keyed(key, now, c).0.containers == a.containers,
        a.keyed(key, now, c).0.containers_loaded == a.containers_loaded,
{
}

/// After a refresh none is due for three seconds, and one is due from then on.
pub proof fn refresh_has_a_period(a: AppView, ranks: Seq<i64>, now: u64, later: u64)
    requires
        now <= later,
    ensures
        a.refreshed(ranks, now).refresh_due(later) <==> later - now >= 3_000_000_000,
{
}

} // verus!
