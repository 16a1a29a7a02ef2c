//! What a frame of the interface shows: bordered panes, paragraphs and tables
//! and where they stand. Painting them is left to the caller.

use vstd::prelude::*;
use vstd::string::*;

use crate::history::{History, HistoryView};
use crate::model::{Container, Pid, Process, Socket};
use crate::model::{ContainerView, ProcessView, SocketView};
use crate::num::{dec_i32, dec_u64, dec_usize, repeated};
use crate::platform::Os;
use crate::render::Clock;
use crate::text::{chars_of, same_str, string_of, text};
use crate::tui::app::{AppView, Focus, Page, Tab, TuiApp};
use crate::tui::filter::{LockEntry, LockView, SortKey};
use crate::tui::line::{
    copy_lines, only, pane_inner_width, scroll_indicator, wrapped_count, Color, Line, SpanView,
    Style,
};
use crate::tui::panes::{local_text_of, names_of, owner_lines, owner_name_of, pid_text_of};
use crate::tui::{line, panes};
use crate::util::{fmt_age, since};
use crate::{num, platform, render, text};
use std::collections::HashMap;

verus! {

// ---------- areas ----------

/// An area of the terminal, in cells.
#[derive(Debug, Clone, Copy, PartialEq, Eq, Structural)]
pub struct Rect {
    pub x: u16,
    pub y: u16,
    pub width: u16,
    pub height: u16,
}

/// Which way an area is split.
#[derive(Debug, Clone, Copy, PartialEq, Eq, Structural)]
pub enum Direction {
    Horizontal,
    Vertical,
}

/// How large a part of an area is to be.
#[derive(Debug, Clone, Copy, PartialEq, Eq, Structural)]
pub enum Limit {
    Length(u16),
    Min(u16),
    Percentage(u16),
}

/// Whether `ratatui::layout::Layout::split` can part an area this way. Where
/// the limits conflict, its solver leaves open which of several parts come
/// out, so this is a relation and not a function.
pub uninterp spec fn is_split(
    area: Rect,
    direction: Direction,
    limits: Seq<Limit>,
    parts: Seq<Rect>,
) -> bool;

/// Whether a part goes all across an area that is split this way, and lies in
/// it.
pub open spec fn is_slice(area: Rect, direction: Direction, part: Rect) -> bool {
    match direction {
        Direction::Vertical => {
            &&& part.x == area.x
            &&& part.width == area.width
            &&& area.y <= part.y
            &&& part.y + part.height <= area.y + area.height
        },
        Direction::Horizontal => {
            &&& part.y == area.y
            &&& part.height == area.height
            &&& area.x <= part.x
            &&& part.x + part.width <= area.x + area.width
        },
    }
}

/// Whether there is one part for each limit, and each is a slice of the area.
pub open spec fn are_slices(
    area: Rect,
    direction: Direction,
    limits: Seq<Limit>,
    parts: Seq<Rect>,
) -> bool {
    &&& parts.len() == limits.len()
    &&& forall|i: int| 0 <= i < parts.len() ==> is_slice(area, direction, #[trigger] parts[i])
}

/// Whether the layout can part an area this way, with one slice for each limit.
pub open spec fn parted(
    area: Rect,
    direction: Direction,
    limits: Seq<Limit>,
    parts: Seq<Rect>,
) -> bool {
    is_split(area, direction, limits, parts) && are_slices(area, direction, limits, parts)
}

/// `ratatui::layout::Layout::split` of a layout without margin or spacing: one
/// part for each limit, each as wide (down the area) or as high (across it) as
/// the area and in line with it, and none reaching out of it. How the room is
/// shared out between them is left unsaid.
#[verifier::external_body]
fn split(area: Rect, direction: Direction, limits: &Vec<Limit>) -> (r: Vec<Rect>)
    ensures
        is_split(area, direction, limits@, r@),
        are_slices(area, direction, limits@, r@),
{
    let limits = limits.iter().map(|l| match *l {
        Limit::Length(n) => ratatui::layout::Constraint::Length(n),
        Limit::Min(n) => ratatui::layout::Constraint::Min(n),
        Limit::Percentage(n) => ratatui::layout::Constraint::Percentage(n),
    });
    let direction = match direction {
        Direction::Horizontal => ratatui::layout::Direction::Horizontal,
        Direction::Vertical => ratatui::layout::Direction::Vertical,
    };
    let Rect { x, y, width, height } = area;
    let parts = ratatui::layout::Layout::new(direction, limits)
        .split(ratatui::layout::Rect { x, y, width, height });
    parts.iter().map(|r| Rect { x: r.x, y: r.y, width: r.width, height: r.height }).collect()
}

/// The smaller of a coordinate one further and the end of its range.
pub open spec fn one_in(at: u16, len: u16) -> u16 {
    if len == 0 || at == u16::MAX {
        at
    } else {
        (at + 1) as u16
    }
}

/// A length without both borders.
pub open spec fn without_borders(len: u16) -> u16 {
    if len < 2 {
        0
    } else {
        (len - 2) as u16
    }
}

fn between_borders(width: u16) -> (r: u16)
    ensures
        r == without_borders(width),
{
    if width < 2 {
        0
    } else {
        width - 2
    }
}

/// The area inside the border of a pane.
pub open spec fn inside(area: Rect) -> Rect {
    Rect {
        x: one_in(area.x, area.width),
        y: one_in(area.y, area.height),
        width: without_borders(area.width),
        height: without_borders(area.height),
    }
}

/// `ratatui::widgets::Block::inner` of a block with a border all around: the
/// area without its outermost cells, empty where there is no more. A title
/// stands on the border and takes no room.
#[verifier::external_body]
fn inner(area: Rect) -> (r: Rect)
    ensures
        r == inside(area),
{
    let Rect { x, y, width, height } = area;
    let r = ratatui::widgets::Block::bordered()
        .inner(ratatui::layout::Rect { x, y, width, height });
    Rect { x: r.x, y: r.y, width: r.width, height: r.height }
}

// ---------- what a frame holds ----------

/// Something to paint.
#[derive(Debug)]
pub enum Item {
    /// A border with a title on it.
    Frame { area: Rect, title: Line, style: Style },
    /// Lines of text, from the line `scroll` on.
    Text { area: Rect, lines: Vec<Line>, wrap: bool, scroll: u16 },
    /// A vertical line between two panes.
    Divider { area: Rect },
    /// A table; in one that is `selectable` the selected row is marked.
    Table {
        area: Rect,
        header: Vec<String>,
        rows: Vec<Vec<String>>,
        widths: Vec<Limit>,
        spacing: u16,
        selectable: bool,
    },
}

/// What an [`Item`] shows.
#[verifier::ext_equal]
pub enum ItemView {
    Frame { area: Rect, title: Seq<SpanView>, style: Style },
    Text { area: Rect, lines: Seq<Seq<SpanView>>, wrap: bool, scroll: u16 },
    Divider { area: Rect },
    Table {
        area: Rect,
        header: Seq<Seq<char>>,
        rows: Seq<Seq<Seq<char>>>,
        widths: Seq<Limit>,
        spacing: u16,
        selectable: bool,
    },
}

/// What the rows of a table show.
pub open spec fn rows_view(v: Seq<Vec<String>>) -> Seq<Seq<Seq<char>>> {
    Seq::new(v.len(), |i: int| text::texts(v[i]@))
}

broadcast proof fn rows_view_push(v: Seq<Vec<String>>, x: Vec<String>)
    ensures
        #[trigger] rows_view(v.push(x)) == rows_view(v).push(text::texts(x@)),
{
    assert(rows_view(v.push(x)) =~= rows_view(v).push(text::texts(x@)));
}

impl View for Item {
    type V = ItemView;

    open spec fn view(&self) -> ItemView {
        match self {
            Item::Frame { area, title, style } => ItemView::Frame {
                area: *area,
                title: title@,
                style: *style,
            },
            Item::Text { area, lines, wrap, scroll } => ItemView::Text {
                area: *area,
                lines: text::views(lines@),
                wrap: *wrap,
                scroll: *scroll,
            },
            Item::Divider { area } => ItemView::Divider { area: *area },
            Item::Table { area, header, rows, widths, spacing, selectable } => ItemView::Table {
                area: *area,
                header: text::texts(header@),
                rows: rows_view(rows@),
                widths: widths@,
                spacing: *spacing,
                selectable: *selectable,
            },
        }
    }
}

/// The style of the heading of every table.
pub fn heading_style() -> (r: Style)
    ensures
        r == line::bold_ink(Color::Accent),
{
    Style::bold_fg(Color::Accent)
}

/// The style of the selected row of every table.
pub fn selected_style() -> (r: Style)
    ensures
        r == line::badge(Color::Purple, true),
{
    Style::on(Color::Purple, true)
}

/// A paragraph of one line.
pub open spec fn one_line(area: Rect, l: Seq<SpanView>) -> ItemView {
    ItemView::Text { area, lines: seq![l], wrap: false, scroll: 0 }
}

fn one_line_of(area: Rect, l: Line) -> (r: Item)
    ensures
        r@ == one_line(area, l@),
{
    Item::Text { area, lines: only(l), wrap: false, scroll: 0 }
}

/// A wrapped paragraph.
pub open spec fn paragraph(area: Rect, lines: Seq<Seq<SpanView>>, scroll: u16) -> ItemView {
    ItemView::Text { area, lines, wrap: true, scroll }
}

/// The border around everything.
pub open spec fn outer_frame(area: Rect) -> ItemView {
    ItemView::Frame { area, title: seq![], style: line::ink(Color::Gray) }
}

fn outer_frame_of(area: Rect) -> (r: Item)
    ensures
        r@ == outer_frame(area),
{
    Item::Frame { area, title: Line::new(), style: Style::fg(Color::Gray) }
}

/// The border of a pane; that of the focused one stands out.
pub open spec fn pane_frame(area: Rect, title: Seq<char>, active: bool) -> ItemView {
    ItemView::Frame {
        area,
        title: line::line(
            title,
            if active {
                line::bold_ink(Color::Accent)
            } else {
                line::ink(Color::Mid)
            },
        ),
        style: if active {
            line::ink(Color::Accent)
        } else {
            line::ink(Color::Gray)
        },
    }
}

fn pane_frame_of(area: Rect, title: String, active: bool) -> (r: Item)
    ensures
        r@ == pane_frame(area, title@, active),
{
    if active {
        Item::Frame {
            area,
            title: Line::of(title, Style::bold_fg(Color::Accent)),
            style: Style::fg(Color::Accent),
        }
    } else {
        Item::Frame {
            area,
            title: Line::of(title, Style::fg(Color::Mid)),
            style: Style::fg(Color::Gray),
        }
    }
}

/// A scroll position, at most at the last of `count` rows.
pub open spec fn within(scroll: u16, count: u16) -> u16 {
    if count == 0 {
        0
    } else if scroll < count {
        scroll
    } else {
        (count - 1) as u16
    }
}

fn keep_within(scroll: u16, count: u16) -> (r: u16)
    ensures
        r == within(scroll, count),
{
    if count == 0 {
        0
    } else if scroll < count {
        scroll
    } else {
        count - 1
    }
}

/// The title of a pane, with what it shows of its position.
pub open spec fn pane_title(name: Seq<char>, scroll: u16, count: u16, height: u16) -> Seq<char> {
    name + line::indicator(scroll as int, count as int, height as int)
}

fn pane_title_of(name: &str, scroll: u16, count: u16, height: u16) -> (r: String)
    ensures
        r@ == pane_title(name@, scroll, count, height),
{
    let mut s = text(name);
    s.append(scroll_indicator(scroll, count, height));
    s
}

/// The heading of a full page.
pub open spec fn page_header(
    subject: Seq<char>,
    about: Seq<char>,
    style: Style,
) -> Seq<SpanView> {
    seq![
        line::span(" witr-rs "@, line::badge(Color::Purple, true)),
        line::span("  "@, line::plain()),
        line::span(subject, line::bold_ink(Color::Accent)),
        line::span("  "@, line::plain()),
        line::span(about, style),
    ]
}

fn page_header_of(subject: String, about: String, style: Style) -> (r: Line)
    ensures
        r@ == page_header(subject@, about@, style),
{
    let ghost want = page_header(subject@, about@, style);
    let mut l = Line::new();
    l.push(text(" witr-rs "), Style::on(Color::Purple, true));
    l.push(text("  "), Style::none());
    l.push(subject, Style::bold_fg(Color::Accent));
    l.push(text("  "), Style::none());
    l.push(about, style);
    assert(l@ =~= want);
    l
}

/// Key hints, and the status where there is one.
pub open spec fn footer(hints: Seq<char>, status: Seq<char>) -> Seq<SpanView> {
    line::line(
        if status.len() > 0 {
            hints + "  ·  "@ + status
        } else {
            hints
        },
        line::ink(Color::Mid),
    )
}

fn footer_of(hints: String, status: &String) -> (r: Line)
    ensures
        r@ == footer(hints@, status@),
{
    let mut s = hints;
    if !status.as_str().is_empty() {
        s.append("  ·  ");
        s.append(status.as_str());
    }
    Line::of(s, Style::fg(Color::Mid))
}

/// The key hints of a full page.
pub open spec fn page_hints() -> Seq<char> {
    "j/k/d/u/g/G/b-f: Scroll | Tab: Focus | Esc/q: Back | c: Copy"@
}

fn page_hints_of() -> (r: String)
    ensures
        r@ == page_hints(),
{
    text("j/k/d/u/g/G/b-f: Scroll | Tab: Focus | Esc/q: Back | c: Copy")
}

// ---------- the lines above the table ----------

/// A tab in the tab bar, and the gap behind it.
pub open spec fn tab_spans(t: Tab, current: Tab) -> Seq<SpanView> {
    seq![
        line::span(
            " "@ + t.name() + " "@,
            if t == current {
                line::badge(Color::Green, true)
            } else {
                line::badge(Color::Mid, false)
            },
        ),
        line::span(" "@, line::plain()),
    ]
}

/// The tab bar.
pub open spec fn tab_line(current: Tab) -> Seq<SpanView> {
    seq![
        line::span(" witr-rs "@, line::badge(Color::Purple, true)),
        line::span("  "@, line::plain()),
    ] + tab_spans(Tab::Processes, current) + tab_spans(Tab::Ports, current) + tab_spans(
        Tab::Containers,
        current,
    ) + tab_spans(Tab::Locks, current)
}

fn push_tab(l: &mut Line, t: Tab, current: Tab)
    ensures
        final(l)@ == old(l)@ + tab_spans(t, current),
{
    let ghost was = l@;
    let mut s = text(" ");
    s.append(t.title());
    s.append(" ");
    if t == current {
        l.push(s, Style::on(Color::Green, true));
    } else {
        l.push(s, Style::on(Color::Mid, false));
    }
    l.push(text(" "), Style::none());
    assert(l@ =~= was + tab_spans(t, current));
}

/// The tab bar.
pub fn tab_bar(app: &TuiApp) -> (r: Line)
    ensures
        r@ == tab_line(app@.tab),
{
    let mut l = Line::new();
    l.push(text(" witr-rs "), Style::on(Color::Purple, true));
    l.push(text("  "), Style::none());
    assert(l@ =~= seq![
        line::span(" witr-rs "@, line::badge(Color::Purple, true)),
        line::span("  "@, line::plain()),
    ]);
    push_tab(&mut l, Tab::Processes, app.tab);
    push_tab(&mut l, Tab::Ports, app.tab);
    push_tab(&mut l, Tab::Containers, app.tab);
    push_tab(&mut l, Tab::Locks, app.tab);
    l
}

/// What the keys do now.
pub open spec fn mode(a: AppView) -> Seq<SpanView> {
    if a.confirm_kill is Some {
        line::line(
            "  Mode: Confirm — kill pid "@ + num::dec(a.confirm_kill->0 as int) + "? (y/n)"@,
            line::bold_ink(Color::Red),
        )
    } else if a.search_mode {
        line::line("  Mode: Search (Enter: apply — Esc: cancel)"@, line::ink(Color::Accent))
    } else if a.focus == Focus::Details {
        line::line("  Mode: Detail (Tab to go back)"@, line::ink(Color::Accent))
    } else {
        line::line("  Mode: Navigation (Press / to search)"@, line::ink(Color::Mid))
    }
}

/// What the keys do now.
pub fn mode_line(app: &TuiApp) -> (r: Line)
    ensures
        r@ == mode(app@),
{
    if let Some(pid) = app.confirm_kill {
        let mut s = text("  Mode: Confirm — kill pid ");
        s.append(dec_i32(pid).as_str());
        s.append("? (y/n)");
        return Line::of(s, Style::bold_fg(Color::Red));
    }
    if app.search_mode {
        return Line::of(
            text("  Mode: Search (Enter: apply — Esc: cancel)"),
            Style::fg(Color::Accent),
        );
    }
    match app.focus {
        Focus::Details => Line::of(
            text("  Mode: Detail (Tab to go back)"),
            Style::fg(Color::Accent),
        ),
        Focus::Table => Line::of(
            text("  Mode: Navigation (Press / to search)"),
            Style::fg(Color::Mid),
        ),
    }
}

/// What can be searched for on a tab.
pub open spec fn search_hint(t: Tab) -> Seq<char> {
    match t {
        Tab::Ports => "Search Port, PID, Process, Address..."@,
        Tab::Containers => "Search Name, Image, ID, State..."@,
        _ => "Search PID, Name, User..."@,
    }
}

/// The search box.
pub open spec fn search_box(a: AppView) -> Seq<SpanView> {
    if a.search_text().len() == 0 && !a.search_mode {
        seq![
            line::span("  > "@, line::bold_ink(Color::Accent)),
            line::span(search_hint(a.tab), line::ink(Color::Mid)),
        ]
    } else {
        seq![
            line::span("  > "@, line::bold_ink(Color::Accent)),
            line::span(a.search_text(), line::plain()),
            line::span(
                if a.search_mode {
                    "▏"@
                } else {
                    ""@
                },
                line::ink(Color::Accent),
            ),
        ]
    }
}

/// The search box.
pub fn search_line(app: &TuiApp) -> (r: Line)
    ensures
        r@ == search_box(app@),
{
    let (val, hint) = match app.tab {
        Tab::Ports => (app.port_search.clone(), text("Search Port, PID, Process, Address...")),
        Tab::Containers => (app.container_search.clone(), text("Search Name, Image, ID, State...")),
        _ => (app.search.clone(), text("Search PID, Name, User...")),
    };
    let mut l = Line::new();
    l.push(text("  > "), Style::bold_fg(Color::Accent));
    if val.as_str().is_empty() && !app.search_mode {
        l.push(hint, Style::fg(Color::Mid));
    } else {
        l.push(val, Style::none());
        if app.search_mode {
            l.push(text("▏"), Style::fg(Color::Accent));
        } else {
            l.push(text(""), Style::fg(Color::Accent));
        }
    }
    assert(l@ =~= search_box(app@));
    l
}

// ---------- the tables ----------

/// What the heading of a column says of the order.
pub open spec fn arrow(by: SortKey, key: SortKey, desc: bool) -> Seq<char> {
    if by == key {
        if desc {
            " ↓"@
        } else {
            " ↑"@
        }
    } else {
        ""@
    }
}

fn column(name: &str, by: SortKey, key: SortKey, desc: bool) -> (r: String)
    ensures
        r@ == name@ + arrow(by, key, desc),
{
    let mut s = text(name);
    if by == key {
        if desc {
            s.append(" ↓");
        } else {
            s.append(" ↑");
        }
    } else {
        s.append("");
    }
    s
}

/// The text at a place, `-` where there is none.
pub open spec fn text_at(v: Seq<Seq<char>>, i: int) -> Seq<char> {
    if 0 <= i < v.len() {
        v[i]
    } else {
        "-"@
    }
}

fn text_at_of(v: &Vec<String>, i: usize) -> (r: String)
    ensures
        r@ == text_at(text::texts(v@), i as int),
{
    if i < v.len() {
        v[i].clone()
    } else {
        text("-")
    }
}

/// How long ago, `-` where it is not known.
pub open spec fn age_short(started: Option<i64>, c: Clock) -> Seq<char> {
    match started {
        Some(t) => render::age(c, t),
        None => "-"@,
    }
}

/// How long ago, `-` where it is not known.
pub fn fmt_age_short(started: Option<i64>, c: Clock) -> (r: String)
    ensures
        r@ == age_short(started, c),
{
    match started {
        None => text("-"),
        Some(t) => fmt_age(since(c.now, t)),
    }
}

/// The restarts of a process in the table: nothing where there was none.
pub open spec fn restarts_text(n: u32) -> Seq<char> {
    if n > 0 {
        num::dec(n as int)
    } else {
        ""@
    }
}

/// A row of the process table.
pub open spec fn process_row(
    p: ProcessView,
    hist: HistoryView,
    cpu: Seq<char>,
    mem: Seq<char>,
    c: Clock,
) -> Seq<Seq<char>> {
    seq![
        num::dec(p.pid as int),
        match p.user {
            Some(u) => u,
            None => "-"@,
        },
        p.name,
        cpu,
        match hist.spark_of(p.pid) {
            Some(t) => t,
            None => ""@,
        },
        mem,
        restarts_text(hist.total_of(p.pid)),
        age_short(p.started, c),
    ]
}

fn process_row_of(p: &Process, hist: &History, cpu: String, mem: String, c: Clock) -> (r: Vec<
    String,
>)
    ensures
        text::texts(r@) == process_row(p@, hist@, cpu@, mem@, c),
{
    let ghost want = process_row(p@, hist@, cpu@, mem@, c);
    let user = match &p.user {
        Some(u) => u.clone(),
        None => text("-"),
    };
    let spark = match hist.spark(p.pid) {
        Some(t) => text(t),
        None => text(""),
    };
    let n: u32 = hist.total_restarts(p.pid);
    let restarts = if n > 0 {
        dec_u64(n as u64)
    } else {
        text("")
    };
    let r = vec![
        dec_i32(p.pid),
        user,
        p.name.clone(),
        cpu,
        spark,
        mem,
        restarts,
        fmt_age_short(p.started, c),
    ];
    assert(text::texts(r@) =~= want);
    r
}

/// The rows of the process table for the first `n` indices of the view.
pub open spec fn process_rows(
    a: AppView,
    cpu: Seq<Seq<char>>,
    mem: Seq<Seq<char>>,
    c: Clock,
    n: int,
) -> Seq<Seq<Seq<char>>>
    decreases n,
{
    if n <= 0 {
        seq![]
    } else {
        let rest = process_rows(a, cpu, mem, c, n - 1);
        let i = a.view[n - 1] as int;
        if i < a.procs.len() {
            rest.push(process_row(a.procs[i], a.hist, text_at(cpu, i), text_at(mem, i), c))
        } else {
            rest
        }
    }
}

/// The process table.
pub open spec fn process_table(
    a: AppView,
    area: Rect,
    cpu: Seq<Seq<char>>,
    mem: Seq<Seq<char>>,
    c: Clock,
) -> ItemView {
    ItemView::Table {
        area,
        header: seq![
            "PID"@ + arrow(a.sort_key, SortKey::Pid, a.sort_desc),
            "User"@ + arrow(a.sort_key, SortKey::User, a.sort_desc),
            "Name"@ + arrow(a.sort_key, SortKey::Name, a.sort_desc),
            "CPU%"@ + arrow(a.sort_key, SortKey::Cpu, a.sort_desc),
            "Trend"@,
            "Mem"@ + arrow(a.sort_key, SortKey::Mem, a.sort_desc),
            "Rst"@,
            "Age"@ + arrow(a.sort_key, SortKey::Started, a.sort_desc),
        ],
        rows: process_rows(a, cpu, mem, c, a.view.len() as int),
        widths: seq![
            Limit::Length(7),
            Limit::Length(12),
            Limit::Min(18),
            Limit::Length(6),
            Limit::Length(8),
            Limit::Length(8),
            Limit::Length(4),
            Limit::Length(9),
        ],
        spacing: 2,
        selectable: true,
    }
}

/// The process table. `cpu` and `mem` are what each listed process shows in
/// these columns.
pub fn processes_table(
    app: &TuiApp,
    area: Rect,
    cpu: &Vec<String>,
    mem: &Vec<String>,
    c: Clock,
) -> (r: Item)
    ensures
        r@ == process_table(app@, area, text::texts(cpu@), text::texts(mem@), c),
{
    broadcast use rows_view_push;

    let k = app.sort_key;
    let d = app.sort_desc;
    let header = vec![
        column("PID", k, SortKey::Pid, d),
        column("User", k, SortKey::User, d),
        column("Name", k, SortKey::Name, d),
        column("CPU%", k, SortKey::Cpu, d),
        text("Trend"),
        column("Mem", k, SortKey::Mem, d),
        text("Rst"),
        column("Age", k, SortKey::Started, d),
    ];
    let mut rows: Vec<Vec<String>> = Vec::new();
    let mut n: usize = 0;
    assert(rows_view(rows@) =~= seq![]);
    while n < app.view.len()
        invariant
            n <= app.view@.len(),
            rows_view(rows@) == process_rows(
                app@,
                text::texts(cpu@),
                text::texts(mem@),
                c,
                n as int,
            ),
        decreases app.view@.len() - n,
    {
        broadcast use rows_view_push;

        let i: usize = app.view[n];
        if i < app.procs.len() {
            assert(app@.procs[i as int] == app.procs@[i as int]@);
            rows.push(
                process_row_of(
                    &app.procs[i],
                    &app.hist,
                    text_at_of(cpu, i),
                    text_at_of(mem, i),
                    c,
                ),
            );
        }
        n += 1;
    }
    let widths = vec![
        Limit::Length(7),
        Limit::Length(12),
        Limit::Min(18),
        Limit::Length(6),
        Limit::Length(8),
        Limit::Length(8),
        Limit::Length(4),
        Limit::Length(9),
    ];
    let r = Item::Table { area, header, rows, widths, spacing: 2, selectable: true };
    assert(r@ =~= process_table(app@, area, text::texts(cpu@), text::texts(mem@), c));
    r
}

/// A row of the socket table.
pub open spec fn socket_row(s: SocketView, names: Map<Pid, Seq<char>>) -> Seq<Seq<char>> {
    seq![
        s.proto,
        panes::local_text(s),
        s.state,
        panes::pid_text(s.pid),
        panes::owner_name(names, s.pid),
    ]
}

fn socket_row_of(s: &Socket, names: &HashMap<Pid, String>) -> (r: Vec<String>)
    ensures
        text::texts(r@) == socket_row(s@, panes::names_view(names@)),
{
    let r = vec![
        s.proto.clone(),
        local_text_of(s),
        s.state.clone(),
        pid_text_of(s.pid),
        owner_name_of(names, s.pid),
    ];
    assert(text::texts(r@) =~= socket_row(s@, panes::names_view(names@)));
    r
}

/// The rows of the socket table for the first `n` indices of the view.
pub open spec fn socket_rows(a: AppView, names: Map<Pid, Seq<char>>, n: int) -> Seq<
    Seq<Seq<char>>,
>
    decreases n,
{
    if n <= 0 {
        seq![]
    } else {
        let rest = socket_rows(a, names, n - 1);
        let i = a.socket_view[n - 1] as int;
        if i < a.sockets.len() {
            rest.push(socket_row(a.sockets[i], names))
        } else {
            rest
        }
    }
}

/// The socket table.
pub open spec fn socket_table(a: AppView, area: Rect) -> ItemView {
    ItemView::Table {
        area,
        header: seq!["Proto"@, "Local"@, "State"@, "PID"@, "Process"@],
        rows: socket_rows(
            a,
            panes::names_by_pid(a.procs, a.procs.len() as int),
            a.socket_view.len() as int,
        ),
        widths: seq![
            Limit::Length(6),
            Limit::Length(34),
            Limit::Length(14),
            Limit::Length(9),
            Limit::Min(24),
        ],
        spacing: 3,
        selectable: true,
    }
}

/// The socket table.
pub fn ports_table(app: &TuiApp, area: Rect) -> (r: Item)
    ensures
        r@ == socket_table(app@, area),
{
    let header = vec![text("Proto"), text("Local"), text("State"), text("PID"), text("Process")];
    let names = names_of(&app.procs);
    let ghost by_pid = panes::names_by_pid(app@.procs, app@.procs.len() as int);
    let mut rows: Vec<Vec<String>> = Vec::new();
    let mut n: usize = 0;
    assert(rows_view(rows@) =~= seq![]);
    while n < app.socket_view.len()
        invariant
            panes::names_view(names@) == by_pid,
            n <= app.socket_view@.len(),
            rows_view(rows@) == socket_rows(app@, by_pid, n as int),
        decreases app.socket_view@.len() - n,
    {
        broadcast use rows_view_push;

        let i: usize = app.socket_view[n];
        if i < app.sockets.len() {
            assert(app@.sockets[i as int] == app.sockets@[i as int]@);
            rows.push(socket_row_of(&app.sockets[i], &names));
        }
        n += 1;
    }
    let widths = vec![
        Limit::Length(6),
        Limit::Length(34),
        Limit::Length(14),
        Limit::Length(9),
        Limit::Min(24),
    ];
    let r = Item::Table { area, header, rows, widths, spacing: 3, selectable: true };
    assert(r@ =~= socket_table(app@, area));
    r
}

/// The first characters of a text.
pub open spec fn first_chars(s: Seq<char>, n: int) -> Seq<char> {
    if s.len() <= n {
        s
    } else {
        s.take(n)
    }
}

fn first_chars_of(s: &str, n: usize) -> (r: String)
    ensures
        r@ == first_chars(s@, n as int),
{
    let c = chars_of(s);
    if c.len() <= n {
        text(s)
    } else {
        let part = vstd::slice::slice_subrange(c.as_slice(), 0, n);
        assert(part@ =~= s@.take(n as int));
        string_of(part)
    }
}

/// A row of the container table.
pub open spec fn container_row(c: ContainerView) -> Seq<Seq<char>> {
    seq![c.runtime, first_chars(c.id, 12), c.state, c.status, c.image, c.name]
}

fn container_row_of(c: &Container) -> (r: Vec<String>)
    ensures
        text::texts(r@) == container_row(c@),
{
    let r = vec![
        c.runtime.clone(),
        first_chars_of(c.id.as_str(), 12),
        c.state.clone(),
        c.status.clone(),
        c.image.clone(),
        c.name.clone(),
    ];
    assert(text::texts(r@) =~= container_row(c@));
    r
}

/// The rows of the container table for the first `n` indices of the view.
pub open spec fn container_rows(a: AppView, n: int) -> Seq<Seq<Seq<char>>>
    decreases n,
{
    if n <= 0 {
        seq![]
    } else {
        let rest = container_rows(a, n - 1);
        let i = a.container_view[n - 1] as int;
        if i < a.containers.len() {
            rest.push(container_row(a.containers[i]))
        } else {
            rest
        }
    }
}

/// The container table.
pub open spec fn container_table(a: AppView, area: Rect) -> ItemView {
    ItemView::Table {
        area,
        header: seq!["Runtime"@, "ID"@, "State"@, "Status"@, "Image"@, "Name"@],
        rows: container_rows(a, a.container_view.len() as int),
        widths: seq![
            Limit::Length(8),
            Limit::Length(13),
            Limit::Length(10),
            Limit::Length(24),
            Limit::Min(20),
            Limit::Min(18),
        ],
        spacing: 3,
        selectable: true,
    }
}

/// The container table.
pub fn containers_table(app: &TuiApp, area: Rect) -> (r: Item)
    ensures
        r@ == container_table(app@, area),
{
    let header = vec![
        text("Runtime"),
        text("ID"),
        text("State"),
        text("Status"),
        text("Image"),
        text("Name"),
    ];
    let mut rows: Vec<Vec<String>> = Vec::new();
    let mut n: usize = 0;
    assert(rows_view(rows@) =~= seq![]);
    while n < app.container_view.len()
        invariant
            n <= app.container_view@.len(),
            rows_view(rows@) == container_rows(app@, n as int),
        decreases app.container_view@.len() - n,
    {
        broadcast use rows_view_push;

        let i: usize = app.container_view[n];
        if i < app.containers.len() {
            assert(app@.containers[i as int] == app.containers@[i as int]@);
            rows.push(container_row_of(&app.containers[i]));
        }
        n += 1;
    }
    let widths = vec![
        Limit::Length(8),
        Limit::Length(13),
        Limit::Length(10),
        Limit::Length(24),
        Limit::Min(20),
        Limit::Min(18),
    ];
    let r = Item::Table { area, header, rows, widths, spacing: 3, selectable: true };
    assert(r@ =~= container_table(app@, area));
    r
}

/// A row of the lock table.
pub open spec fn lock_row(l: LockView) -> Seq<Seq<char>> {
    seq![l.id, l.kind, l.mode, panes::pid_text(l.pid), l.owner]
}

fn lock_row_of(l: &LockEntry) -> (r: Vec<String>)
    ensures
        text::texts(r@) == lock_row(l@),
{
    let r = vec![
        l.id.clone(),
        l.kind.clone(),
        l.mode.clone(),
        pid_text_of(l.pid),
        l.owner.clone(),
    ];
    assert(text::texts(r@) =~= lock_row(l@));
    r
}

/// The lock table.
pub open spec fn lock_table(a: AppView, area: Rect) -> ItemView {
    ItemView::Table {
        area,
        header: seq!["#"@, "Kind"@, "Mode"@, "PID"@, "Owner"@],
        rows: Seq::new(a.locks.len(), |i: int| lock_row(a.locks[i])),
        widths: seq![
            Limit::Length(5),
            Limit::Length(6),
            Limit::Length(9),
            Limit::Length(8),
            Limit::Min(20),
        ],
        spacing: 2,
        selectable: false,
    }
}

/// The lock table.
pub fn locks_table(app: &TuiApp, area: Rect) -> (r: Item)
    ensures
        r@ == lock_table(app@, area),
{
    let header = vec![text("#"), text("Kind"), text("Mode"), text("PID"), text("Owner")];
    let mut rows: Vec<Vec<String>> = Vec::new();
    let mut n: usize = 0;
    while n < app.locks.len()
        invariant
            n <= app.locks@.len(),
            rows@.len() == n,
            forall|j: int| 0 <= j < n ==> text::texts((#[trigger] rows@[j])@) == lock_row(
                app@.locks[j],
            ),
        decreases app.locks@.len() - n,
    {
        assert(app@.locks[n as int] == app.locks@[n as int]@);
        rows.push(lock_row_of(&app.locks[n]));
        n += 1;
    }
    let widths = vec![
        Limit::Length(5),
        Limit::Length(6),
        Limit::Length(9),
        Limit::Length(8),
        Limit::Min(20),
    ];
    let r = Item::Table { area, header, rows, widths, spacing: 2, selectable: false };
    assert(r@ =~= lock_table(app@, area));
    r
}

// ---------- the full page of a process ----------

/// The parts of the full page of a process or a container, from the top:
/// heading, gap, panes, footer.
pub open spec fn page_limits() -> Seq<Limit> {
    seq![Limit::Length(1), Limit::Length(1), Limit::Min(6), Limit::Length(1)]
}

fn page_limits_of() -> (r: Vec<Limit>)
    ensures
        r@ == page_limits(),
{
    let r = vec![Limit::Length(1), Limit::Length(1), Limit::Min(6), Limit::Length(1)];
    assert(r@ =~= page_limits());
    r
}

/// Two panes side by side.
pub open spec fn shares(left: u16, right: u16) -> Seq<Limit> {
    seq![Limit::Percentage(left), Limit::Percentage(right)]
}

fn shares_of(left: u16, right: u16) -> (r: Vec<Limit>)
    ensures
        r@ == shares(left, right),
{
    let r = vec![Limit::Percentage(left), Limit::Percentage(right)];
    assert(r@ =~= shares(left, right));
    r
}

/// The state after the full page of a process was laid out in these parts: the
/// row counts and the height of its panes.
pub open spec fn detail_measured(a: AppView, v: Seq<Rect>, cols: Seq<Rect>) -> AppView {
    AppView {
        detail_line_count: line::wrapped_rows(
            a.detail_lines,
            line::pane_width(v[2].width as int, 70),
        ) as u16,
        env_line_count: line::wrapped_rows(
            panes::env_pane(a.detail_report, a.os),
            line::pane_width(v[2].width as int, 30),
        ) as u16,
        detail_height: inside(cols[0]).height,
        ..a
    }
}

/// The full page of a process in these parts: heading with the pid, left
/// "Process Detail" pane, right "Environment Variables" pane, focus shown by
/// title and border color, scroll indicators on each pane.
pub open spec fn detail_page(a: AppView, area: Rect, v: Seq<Rect>, cols: Seq<Rect>) -> Seq<
    ItemView,
> {
    let b = detail_measured(a, v, cols);
    let pid: int = match a.detail_pid {
        Some(p) => p as int,
        None => 0,
    };
    seq![
        outer_frame(area),
        one_line(
            v[0],
            page_header("PID "@ + num::dec(pid), "Process Detail"@, line::ink(Color::Mid)),
        ),
        pane_frame(
            cols[0],
            pane_title("Process Detail"@, a.detail_scroll, b.detail_line_count, a.detail_height),
            a.detail_pane,
        ),
        paragraph(
            inside(cols[0]),
            a.detail_lines,
            within(a.detail_scroll, b.detail_line_count),
        ),
        pane_frame(
            cols[1],
            pane_title("Environment Variables"@, a.env_scroll, b.env_line_count, b.detail_height),
            !a.detail_pane,
        ),
        paragraph(
            inside(cols[1]),
            panes::env_pane(a.detail_report, a.os),
            within(a.env_scroll, b.env_line_count),
        ),
        one_line(v[3], footer(page_hints(), a.status)),
    ]
}

/// Lays the full page of a process out in these parts.
pub fn fill_detail_page(app: &mut TuiApp, area: Rect, v: &Vec<Rect>, cols: &Vec<Rect>) -> (r: Vec<
    Item,
>)
    requires
        old(app)@.wf(),
        v@.len() == 4,
        cols@.len() == 2,
    ensures
        text::views(r@) == detail_page(old(app)@, area, v@, cols@),
        final(app)@ == detail_measured(old(app)@, v@, cols@),
        final(app)@.wf(),
{
    broadcast use crate::text::group_views;

    let ghost a = app@;
    let env = app.env_lines();
    let count: u16 = wrapped_count(&app.detail_lines, pane_inner_width(v[2].width, 70));
    let env_count: u16 = wrapped_count(&env, pane_inner_width(v[2].width, 30));
    let pid: Pid = match app.detail_pid {
        Some(p) => p,
        None => 0,
    };
    let mut subject = text("PID ");
    subject.append(dec_i32(pid).as_str());
    let mut out: Vec<Item> = Vec::new();
    out.push(outer_frame_of(area));
    out.push(
        one_line_of(
            v[0],
            page_header_of(subject, text("Process Detail"), Style::fg(Color::Mid)),
        ),
    );
    let title = pane_title_of("Process Detail", app.detail_scroll, count, app.detail_height);
    out.push(pane_frame_of(cols[0], title, app.detail_pane));
    let left = inner(cols[0]);
    out.push(
        Item::Text {
            area: left,
            lines: copy_lines(&app.detail_lines),
            wrap: true,
            scroll: keep_within(app.detail_scroll, count),
        },
    );
    let env_title = pane_title_of("Environment Variables", app.env_scroll, env_count, left.height);
    out.push(pane_frame_of(cols[1], env_title, !app.detail_pane));
    out.push(
        Item::Text {
            area: inner(cols[1]),
            lines: env,
            wrap: true,
            scroll: keep_within(app.env_scroll, env_count),
        },
    );
    out.push(one_line_of(v[3], footer_of(page_hints_of(), &app.status)));
    app.detail_line_count = count;
    app.env_line_count = env_count;
    app.detail_height = left.height;
    assert(text::views(out@) =~= detail_page(a, area, v@, cols@));
    out
}

/// The full page of a process.
pub fn ui_detail_page(app: &mut TuiApp, area: Rect) -> (r: Vec<Item>)
    requires
        old(app)@.wf(),
    ensures
        exists|v: Seq<Rect>, cols: Seq<Rect>|
            #![trigger detail_page(old(app)@, area, v, cols)]
            {
                &&& parted(inside(area), Direction::Vertical, page_limits(), v)
                &&& parted(v[2], Direction::Horizontal, shares(70, 30), cols)
                &&& text::views(r@) == detail_page(old(app)@, area, v, cols)
                &&& final(app)@ == detail_measured(old(app)@, v, cols)
            },
        final(app)@.wf(),
{
    let v = split(inner(area), Direction::Vertical, &page_limits_of());
    let cols = split(v[2], Direction::Horizontal, &shares_of(70, 30));
    fill_detail_page(app, area, &v, &cols)
}

// ---------- the full page of a port ----------

/// The parts of the full page of a port, from the top: heading, gap,
/// connections, owner, footer.
pub open spec fn port_limits() -> Seq<Limit> {
    seq![Limit::Length(1), Limit::Length(1), Limit::Min(8), Limit::Min(5), Limit::Length(1)]
}

fn port_limits_of() -> (r: Vec<Limit>)
    ensures
        r@ == port_limits(),
{
    let r = vec![
        Limit::Length(1),
        Limit::Length(1),
        Limit::Min(8),
        Limit::Min(5),
        Limit::Length(1),
    ];
    assert(r@ =~= port_limits());
    r
}

/// How many of the first `n` sockets are established.
pub open spec fn established(v: Seq<SocketView>, n: int) -> int
    decreases n,
{
    if n <= 0 {
        0
    } else if v[n - 1].state == "ESTABLISHED"@ {
        established(v, n - 1) + 1
    } else {
        established(v, n - 1)
    }
}

fn established_of(v: &Vec<Socket>) -> (r: usize)
    ensures
        r == established(text::views(v@), v@.len() as int),
{
    let ghost all = text::views(v@);
    let mut i: usize = 0;
    let mut n: usize = 0;
    while i < v.len()
        invariant
            all == text::views(v@),
            n <= i <= v@.len(),
            n == established(all, i as int),
        decreases v@.len() - i,
    {
        assert(all[i as int] == v@[i as int]@);
        if same_str(v[i].state.as_str(), "ESTABLISHED") {
            n += 1;
        }
        i += 1;
    }
    n
}

/// The lines of the connections pane.
pub open spec fn connection_pane(a: AppView) -> Seq<Seq<SpanView>> {
    panes::connections(
        a.port_detail_sockets,
        panes::names_by_pid(a.procs, a.procs.len() as int),
    )
}

/// The state after the full page of a port was laid out in these parts.
pub open spec fn port_measured(a: AppView, v: Seq<Rect>) -> AppView {
    AppView { port_pane_height: inside(v[2]).height, ..a }
}

/// The full page of a port in these parts: every socket touching the port (the
/// LISTEN entry plus the current requests) and the owner.
pub open spec fn port_page(a: AppView, area: Rect, v: Seq<Rect>, c: Clock) -> Seq<ItemView> {
    let sockets = a.port_detail_sockets;
    let lines = connection_pane(a);
    let owner = panes::owner_pane(a.port_detail_report, c);
    let rows = line::wrapped_rows(
        owner,
        without_borders(v[3].width) as int,
    ) as u16;
    seq![
        outer_frame(area),
        one_line(
            v[0],
            page_header(
                "Port "@ + num::dec(a.port_detail_port as int),
                num::dec(sockets.len() as int) + " socket(s), "@ + num::dec(
                    established(sockets, sockets.len() as int),
                ) + " established request(s)"@,
                line::ink(Color::Mid),
            ),
        ),
        pane_frame(
            v[2],
            pane_title(
                "Connections"@,
                a.port_scroll,
                lines.len() as u16,
                a.port_pane_height,
            ),
            a.port_pane_conn,
        ),
        ItemView::Text {
            area: inside(v[2]),
            lines,
            wrap: false,
            scroll: last_row(a.port_scroll, lines.len()),
        },
        pane_frame(
            v[3],
            pane_title("Owner"@, a.port_owner_scroll, rows, a.detail_height),
            !a.port_pane_conn,
        ),
        paragraph(inside(v[3]), owner, within(a.port_owner_scroll, rows)),
        one_line(v[4], footer(page_hints(), a.status)),
    ]
}

/// A scroll position, at most at the last of some lines, whose number counts
/// in sixteen bits.
pub open spec fn last_row(scroll: u16, lines: nat) -> u16 {
    let last = if lines == 0 {
        0
    } else {
        (lines - 1) as u16
    };
    if scroll < last {
        scroll
    } else {
        last
    }
}

fn last_row_of(scroll: u16, lines: usize) -> (r: u16)
    ensures
        r == last_row(scroll, lines as nat),
{
    let last: u16 = if lines == 0 {
        0
    } else {
        #[verifier::truncate]
        ((lines - 1) as u16)
    };
    if scroll < last {
        scroll
    } else {
        last
    }
}

/// Lays the full page of a port out in these parts.
pub fn fill_port_page(app: &mut TuiApp, area: Rect, v: &Vec<Rect>, c: Clock) -> (r: Vec<Item>)
    requires
        old(app)@.wf(),
        v@.len() == 5,
    ensures
        text::views(r@) == port_page(old(app)@, area, v@, c),
        final(app)@ == port_measured(old(app)@, v@),
        final(app)@.wf(),
{
    broadcast use crate::text::group_views;

    let ghost a = app@;
    let n: usize = app.port_detail_sockets.len();
    let live: usize = established_of(&app.port_detail_sockets);
    let mut subject = text("Port ");
    subject.append(dec_u64(app.port_detail_port as u64).as_str());
    let mut about = dec_usize(n);
    about.append(" socket(s), ");
    about.append(dec_usize(live).as_str());
    about.append(" established request(s)");
    let mut out: Vec<Item> = Vec::new();
    out.push(outer_frame_of(area));
    out.push(one_line_of(v[0], page_header_of(subject, about, Style::fg(Color::Mid))));

    let lines = app.port_connection_lines();
    let count: usize = lines.len();
    let title = pane_title_of(
        "Connections",
        app.port_scroll,
        #[verifier::truncate]
        (count as u16),
        app.port_pane_height,
    );
    out.push(pane_frame_of(v[2], title, app.port_pane_conn));
    let pane = inner(v[2]);
    out.push(
        Item::Text {
            area: pane,
            lines,
            wrap: false,
            scroll: last_row_of(app.port_scroll, count),
        },
    );

    let owner = owner_lines(&app.port_detail_report, c);
    let rows: u16 = wrapped_count(&owner, between_borders(v[3].width));
    let owner_title = pane_title_of("Owner", app.port_owner_scroll, rows, app.detail_height);
    out.push(pane_frame_of(v[3], owner_title, !app.port_pane_conn));
    out.push(
        Item::Text {
            area: inner(v[3]),
            lines: owner,
            wrap: true,
            scroll: keep_within(app.port_owner_scroll, rows),
        },
    );
    out.push(one_line_of(v[4], footer_of(page_hints_of(), &app.status)));
    app.port_pane_height = pane.height;
    assert(text::views(out@) =~= port_page(a, area, v@, c));
    out
}

/// The full page of a port.
pub fn ui_port_detail_page(app: &mut TuiApp, area: Rect, c: Clock) -> (r: Vec<Item>)
    requires
        old(app)@.wf(),
    ensures
        exists|v: Seq<Rect>|
            #![trigger port_page(old(app)@, area, v, c)]
            {
                &&& parted(inside(area), Direction::Vertical, port_limits(), v)
                &&& text::views(r@) == port_page(old(app)@, area, v, c)
                &&& final(app)@ == port_measured(old(app)@, v)
            },
        final(app)@.wf(),
{
    let v = split(inner(area), Direction::Vertical, &port_limits_of());
    fill_port_page(app, area, &v, c)
}

// ---------- the full page of a container ----------

/// The state after the full page of a container was laid out in these parts.
pub open spec fn container_measured(a: AppView, cols: Seq<Rect>) -> AppView {
    AppView {
        detail_line_count: line::wrapped_rows(
            panes::container_pane(a.container_detail),
            without_borders(cols[0].width) as int,
        ) as u16,
        env_line_count: line::wrapped_rows(
            panes::members_pane(a.container_procs, a.os),
            without_borders(cols[1].width) as int,
        ) as u16,
        detail_height: inside(cols[0]).height,
        ..a
    }
}

/// The heading of the full page of a container.
pub open spec fn container_header(c: Option<ContainerView>) -> Seq<SpanView> {
    let name = match c {
        Some(x) => x.name,
        None => "-"@,
    };
    let state = match c {
        Some(x) => x.state,
        None => "-"@,
    };
    page_header(
        "Container "@ + name,
        state,
        if state == "running"@ {
            line::bold_ink(Color::Green)
        } else {
            line::ink(Color::Mid)
        },
    )
}

fn container_header_of(c: &Option<Container>) -> (r: Line)
    ensures
        r@ == container_header(platform::opt_container(*c)),
{
    let (name, state) = match c {
        Some(x) => (x.name.clone(), x.state.clone()),
        None => (text("-"), text("-")),
    };
    let style = if same_str(state.as_str(), "running") {
        Style::bold_fg(Color::Green)
    } else {
        Style::fg(Color::Mid)
    };
    let mut subject = text("Container ");
    subject.append(name.as_str());
    page_header_of(subject, state, style)
}

/// The full page of a container in these parts: its attributes plus the
/// processes in it.
pub open spec fn container_page(a: AppView, area: Rect, v: Seq<Rect>, cols: Seq<Rect>) -> Seq<
    ItemView,
> {
    let b = container_measured(a, cols);
    seq![
        outer_frame(area),
        one_line(v[0], container_header(a.container_detail)),
        pane_frame(
            cols[0],
            pane_title("Container"@, a.cd_scroll, b.detail_line_count, a.detail_height),
            a.cd_pane_info,
        ),
        paragraph(
            inside(cols[0]),
            panes::container_pane(a.container_detail),
            within(a.cd_scroll, b.detail_line_count),
        ),
        pane_frame(
            cols[1],
            pane_title("Processes"@, a.cdp_scroll, b.env_line_count, b.detail_height),
            !a.cd_pane_info,
        ),
        paragraph(
            inside(cols[1]),
            panes::members_pane(a.container_procs, a.os),
            within(a.cdp_scroll, b.env_line_count),
        ),
        one_line(v[3], footer(page_hints(), a.status)),
    ]
}

/// Lays the full page of a container out in these parts.
pub fn fill_container_page(
    app: &mut TuiApp,
    area: Rect,
    v: &Vec<Rect>,
    cols: &Vec<Rect>,
) -> (r: Vec<Item>)
    requires
        v@.len() == 4,
        cols@.len() == 2,
    ensures
        text::views(r@) == container_page(old(app)@, area, v@, cols@),
        final(app)@ == container_measured(old(app)@, cols@),
{
    broadcast use crate::text::group_views;

    let ghost a = app@;
    let mut out: Vec<Item> = Vec::new();
    out.push(outer_frame_of(area));
    out.push(one_line_of(v[0], container_header_of(&app.container_detail)));

    let info = app.container_info_lines();
    let count: u16 = wrapped_count(&info, between_borders(cols[0].width));
    let title = pane_title_of("Container", app.cd_scroll, count, app.detail_height);
    out.push(pane_frame_of(cols[0], title, app.cd_pane_info));
    let left = inner(cols[0]);
    out.push(
        Item::Text {
            area: left,
            lines: info,
            wrap: true,
            scroll: keep_within(app.cd_scroll, count),
        },
    );

    let procs = app.container_proc_lines();
    let rows: u16 = wrapped_count(&procs, between_borders(cols[1].width));
    let procs_title = pane_title_of("Processes", app.cdp_scroll, rows, left.height);
    out.push(pane_frame_of(cols[1], procs_title, !app.cd_pane_info));
    out.push(
        Item::Text {
            area: inner(cols[1]),
            lines: procs,
            wrap: true,
            scroll: keep_within(app.cdp_scroll, rows),
        },
    );
    out.push(one_line_of(v[3], footer_of(page_hints_of(), &app.status)));
    app.detail_line_count = count;
    app.env_line_count = rows;
    app.detail_height = left.height;
    assert(text::views(out@) =~= container_page(a, area, v@, cols@));
    out
}

/// The full page of a container.
pub fn ui_container_detail_page(app: &mut TuiApp, area: Rect) -> (r: Vec<Item>)
    ensures
        exists|v: Seq<Rect>, cols: Seq<Rect>|
            #![trigger container_page(old(app)@, area, v, cols)]
            {
                &&& parted(inside(area), Direction::Vertical, page_limits(), v)
                &&& parted(v[2], Direction::Horizontal, shares(45, 55), cols)
                &&& text::views(r@) == container_page(old(app)@, area, v, cols)
                &&& final(app)@ == container_measured(old(app)@, cols)
            },
{
    let v = split(inner(area), Direction::Vertical, &page_limits_of());
    let cols = split(v[2], Direction::Horizontal, &shares_of(45, 55));
    fill_container_page(app, area, &v, &cols)
}

// ---------- the tables with what stands around them ----------

/// The parts of the browsing page, from the top: tabs, mode, search and the
/// gaps below them, content, separator, footer.
pub open spec fn browse_limits() -> Seq<Limit> {
    seq![
        Limit::Length(1),
        Limit::Length(1),
        Limit::Length(1),
        Limit::Length(1),
        Limit::Length(1),
        Limit::Length(1),
        Limit::Min(6),
        Limit::Length(1),
        Limit::Length(1),
    ]
}

fn browse_limits_of() -> (r: Vec<Limit>)
    ensures
        r@ == browse_limits(),
{
    let r = vec![
        Limit::Length(1),
        Limit::Length(1),
        Limit::Length(1),
        Limit::Length(1),
        Limit::Length(1),
        Limit::Length(1),
        Limit::Min(6),
        Limit::Length(1),
        Limit::Length(1),
    ];
    assert(r@ =~= browse_limits());
    r
}

/// The parts of the Processes tab: table, divider, details.
pub open spec fn process_limits() -> Seq<Limit> {
    seq![Limit::Percentage(58), Limit::Length(1), Limit::Percentage(42)]
}

fn process_limits_of() -> (r: Vec<Limit>)
    ensures
        r@ == process_limits(),
{
    let r = vec![Limit::Percentage(58), Limit::Length(1), Limit::Percentage(42)];
    assert(r@ =~= process_limits());
    r
}

/// A note in place of a table.
pub open spec fn placeholder_text(area: Rect, msg: Seq<char>) -> ItemView {
    ItemView::Text {
        area,
        lines: seq![line::raw_line(""@), line::line(msg, line::ink(Color::Mid))],
        wrap: false,
        scroll: 0,
    }
}

/// A note in place of a table.
pub fn placeholder(area: Rect, msg: &str) -> (r: Item)
    ensures
        r@ == placeholder_text(area, msg@),
{
    broadcast use crate::text::group_views;

    let mut lines = only(Line::raw(""));
    lines.push(Line::of(text(msg), Style::fg(Color::Mid)));
    assert(text::views(lines@) =~= seq![
        line::raw_line(""@),
        line::line(msg@, line::ink(Color::Mid)),
    ]);
    Item::Text { area, lines, wrap: false, scroll: 0 }
}

/// The content of a tab. Only the Processes tab has columns: table, divider
/// and details.
pub open spec fn tab_content(
    a: AppView,
    area: Rect,
    cols: Seq<Rect>,
    cpu: Seq<Seq<char>>,
    mem: Seq<Seq<char>>,
    c: Clock,
) -> Seq<ItemView> {
    match a.tab {
        Tab::Processes => seq![
            process_table(a, cols[0], cpu, mem, c),
            ItemView::Divider { area: cols[1] },
            ItemView::Frame {
                area: cols[2],
                title: line::line(" Details "@, line::bold_ink(Color::Mid)),
                style: line::ink(Color::Gray),
            },
            paragraph(inside(cols[2]), a.detail_lines, a.detail_scroll),
        ],
        Tab::Ports => seq![socket_table(a, area)],
        Tab::Containers => seq![
            if a.containers_loading && !a.containers_loaded {
                placeholder_text(
                    area,
                    "  loading containers… (querying docker / podman / nerdctl)"@,
                )
            } else if a.containers.len() == 0 {
                placeholder_text(
                    area,
                    "  no containers found — needs docker / podman / nerdctl on PATH with a running daemon"@,
                )
            } else {
                container_table(a, area)
            },
        ],
        Tab::Locks => seq![
            if a.os == Os::Linux {
                lock_table(a, area)
            } else {
                placeholder_text(area, "  file locks are only collected on Linux"@)
            },
        ],
    }
}

/// How many rows a tab has, and out of how many where a filter is set.
pub open spec fn total_text(a: AppView) -> Seq<char> {
    match a.tab {
        Tab::Processes => num::dec(a.view.len() as int),
        Tab::Ports => if a.port_search.len() == 0 {
            num::dec(a.sockets.len() as int)
        } else {
            num::dec(a.socket_view.len() as int) + "/"@ + num::dec(a.sockets.len() as int)
        },
        Tab::Containers => if a.container_search.len() == 0 {
            num::dec(a.containers.len() as int)
        } else {
            num::dec(a.container_view.len() as int) + "/"@ + num::dec(a.containers.len() as int)
        },
        Tab::Locks => num::dec(a.locks.len() as int),
    }
}

fn total_text_of(app: &TuiApp) -> (r: String)
    ensures
        r@ == total_text(app@),
{
    match app.tab {
        Tab::Processes => dec_usize(app.view.len()),
        Tab::Ports => if app.port_search.as_str().is_empty() {
            dec_usize(app.sockets.len())
        } else {
            let mut s = dec_usize(app.socket_view.len());
            s.append("/");
            s.append(dec_usize(app.sockets.len()).as_str());
            s
        },
        Tab::Containers => if app.container_search.as_str().is_empty() {
            dec_usize(app.containers.len())
        } else {
            let mut s = dec_usize(app.container_view.len());
            s.append("/");
            s.append(dec_usize(app.containers.len()).as_str());
            s
        },
        Tab::Locks => dec_usize(app.locks.len()),
    }
}

/// The key hints below a table.
pub open spec fn browse_hints(a: AppView) -> Seq<char> {
    "Total: "@ + total_text(a) + if a.tab == Tab::Processes || a.tab == Tab::Ports {
        " | Enter: Detail | /: Search | p/n/u/c/m/t: Sort | j-k/g-G: Move | h-l: Tab | x: Kill | r: Refresh | q: Quit"@
    } else {
        " | q: Quit"@
    }
}

fn browse_hints_of(app: &TuiApp) -> (r: String)
    ensures
        r@ == browse_hints(app@),
{
    let mut s = text("Total: ");
    s.append(total_text_of(app).as_str());
    if app.tab == Tab::Processes || app.tab == Tab::Ports {
        s.append(
            " | Enter: Detail | /: Search | p/n/u/c/m/t: Sort | j-k/g-G: Move | h-l: Tab | x: Kill | r: Refresh | q: Quit",
        );
    } else {
        s.append(" | q: Quit");
    }
    s
}

/// The line above the footer of an area this wide.
pub open spec fn separator(width: u16) -> Seq<SpanView> {
    line::line(
        " "@ + num::repeat("─"@, without_borders(width) as nat),
        line::ink(Color::Gray),
    )
}

fn separator_of(width: u16) -> (r: Line)
    ensures
        r@ == separator(width),
{
    let mut s = text(" ");
    s.append(repeated("─", between_borders(width) as usize).as_str());
    Line::of(s, Style::fg(Color::Gray))
}

/// The state after the browsing page was laid out in these parts: on the
/// Processes tab the height of the details panel.
pub open spec fn browse_measured(a: AppView, cols: Seq<Rect>) -> AppView {
    if a.tab == Tab::Processes {
        AppView { detail_height: inside(cols[2]).height, ..a }
    } else {
        a
    }
}

/// The browsing page in these parts.
pub open spec fn browse_page(
    a: AppView,
    area: Rect,
    v: Seq<Rect>,
    cols: Seq<Rect>,
    cpu: Seq<Seq<char>>,
    mem: Seq<Seq<char>>,
    c: Clock,
) -> Seq<ItemView> {
    seq![
        outer_frame(area),
        one_line(v[0], tab_line(a.tab)),
        one_line(v[2], mode(a)),
        one_line(v[4], search_box(a)),
    ] + tab_content(a, v[6], cols, cpu, mem, c) + seq![
        one_line(v[7], separator(v[8].width)),
        one_line(v[8], footer(browse_hints(a), a.status)),
    ]
}

fn push_content(
    out: &mut Vec<Item>,
    app: &TuiApp,
    area: Rect,
    cols: &Vec<Rect>,
    cpu: &Vec<String>,
    mem: &Vec<String>,
    c: Clock,
)
    requires
        app@.tab == Tab::Processes ==> cols@.len() == 3,
    ensures
        text::views(final(out)@) == text::views(old(out)@) + tab_content(
            app@,
            area,
            cols@,
            text::texts(cpu@),
            text::texts(mem@),
            c,
        ),
{
    broadcast use crate::text::group_views;

    let ghost was = text::views(out@);
    match app.tab {
        Tab::Processes => {
            out.push(processes_table(app, cols[0], cpu, mem, c));
            out.push(Item::Divider { area: cols[1] });
            out.push(
                Item::Frame {
                    area: cols[2],
                    title: Line::of(text(" Details "), Style::bold_fg(Color::Mid)),
                    style: Style::fg(Color::Gray),
                },
            );
            out.push(
                Item::Text {
                    area: inner(cols[2]),
                    lines: copy_lines(&app.detail_lines),
                    wrap: true,
                    scroll: app.detail_scroll,
                },
            );
        },
        Tab::Ports => {
            out.push(ports_table(app, area));
        },
        Tab::Containers => {
            if app.containers_loading && !app.containers_loaded {
                out.push(
                    placeholder(
                        area,
                        "  loading containers… (querying docker / podman / nerdctl)",
                    ),
                );
            } else if app.containers.len() == 0 {
                out.push(
                    placeholder(
                        area,
                        "  no containers found — needs docker / podman / nerdctl on PATH with a running daemon",
                    ),
                );
            } else {
                out.push(containers_table(app, area));
            }
        },
        Tab::Locks => {
            if app.os == Os::Linux {
                out.push(locks_table(app, area));
            } else {
                out.push(placeholder(area, "  file locks are only collected on Linux"));
            }
        },
    }
    assert(text::views(out@) =~= was + tab_content(
        app@,
        area,
        cols@,
        text::texts(cpu@),
        text::texts(mem@),
        c,
    ));
}

/// Lays the browsing page out in these parts. `cpu` and `mem` are what each
/// listed process shows in these columns.
pub fn fill_browse_page(
    app: &mut TuiApp,
    area: Rect,
    v: &Vec<Rect>,
    cols: &Vec<Rect>,
    cpu: &Vec<String>,
    mem: &Vec<String>,
    c: Clock,
) -> (r: Vec<Item>)
    requires
        v@.len() == 9,
        old(app)@.tab == Tab::Processes ==> cols@.len() == 3,
    ensures
        text::views(r@) == browse_page(
            old(app)@,
            area,
            v@,
            cols@,
            text::texts(cpu@),
            text::texts(mem@),
            c,
        ),
        final(app)@ == browse_measured(old(app)@, cols@),
{
    broadcast use crate::text::group_views;

    let ghost a = app@;
    let mut out: Vec<Item> = Vec::new();
    out.push(outer_frame_of(area));
    out.push(one_line_of(v[0], tab_bar(app)));
    out.push(one_line_of(v[2], mode_line(app)));
    out.push(one_line_of(v[4], search_line(app)));
    assert(text::views(out@) =~= seq![
        outer_frame(area),
        one_line(v@[0], tab_line(a.tab)),
        one_line(v@[2], mode(a)),
        one_line(v@[4], search_box(a)),
    ]);
    push_content(&mut out, app, v[6], cols, cpu, mem, c);
    out.push(one_line_of(v[7], separator_of(v[8].width)));
    out.push(one_line_of(v[8], footer_of(browse_hints_of(app), &app.status)));
    assert(text::views(out@) =~= browse_page(
        a,
        area,
        v@,
        cols@,
        text::texts(cpu@),
        text::texts(mem@),
        c,
    ));
    if app.tab == Tab::Processes {
        app.detail_height = inner(cols[2]).height;
    }
    out
}

/// Whether a frame is the page of a state, in parts that the layout can give.
pub open spec fn is_frame(
    a: AppView,
    area: Rect,
    cpu: Seq<Seq<char>>,
    mem: Seq<Seq<char>>,
    c: Clock,
    items: Seq<ItemView>,
    after: AppView,
) -> bool {
    match a.page {
        Page::Detail => exists|v: Seq<Rect>, cols: Seq<Rect>|
            #![trigger detail_page(a, area, v, cols)]
            {
                &&& parted(inside(area), Direction::Vertical, page_limits(), v)
                &&& parted(v[2], Direction::Horizontal, shares(70, 30), cols)
                &&& items == detail_page(a, area, v, cols)
                &&& after == detail_measured(a, v, cols)
            },
        Page::PortDetail => exists|v: Seq<Rect>|
            #![trigger port_page(a, area, v, c)]
            {
                &&& parted(inside(area), Direction::Vertical, port_limits(), v)
                &&& items == port_page(a, area, v, c)
                &&& after == port_measured(a, v)
            },
        Page::ContainerDetail => exists|v: Seq<Rect>, cols: Seq<Rect>|
            #![trigger container_page(a, area, v, cols)]
            {
                &&& parted(inside(area), Direction::Vertical, page_limits(), v)
                &&& parted(v[2], Direction::Horizontal, shares(45, 55), cols)
                &&& items == container_page(a, area, v, cols)
                &&& after == container_measured(a, cols)
            },
        Page::Browse => exists|v: Seq<Rect>, cols: Seq<Rect>|
            #![trigger browse_page(a, area, v, cols, cpu, mem, c)]
            {
                &&& parted(inside(area), Direction::Vertical, browse_limits(), v)
                &&& a.tab == Tab::Processes ==> parted(
                    v[6],
                    Direction::Horizontal,
                    process_limits(),
                    cols,
                )
                &&& items == browse_page(a, area, v, cols, cpu, mem, c)
                &&& after == browse_measured(a, cols)
            },
    }
}

fn ui_browse(
    app: &mut TuiApp,
    area: Rect,
    cpu: &Vec<String>,
    mem: &Vec<String>,
    c: Clock,
) -> (r: Vec<Item>)
    requires
        old(app)@.wf(),
        old(app)@.page == Page::Browse,
    ensures
        is_frame(
            old(app)@,
            area,
            text::texts(cpu@),
            text::texts(mem@),
            c,
            text::views(r@),
            final(app)@,
        ),
        final(app)@.wf(),
{
    let v = split(inner(area), Direction::Vertical, &browse_limits_of());
    let cols: Vec<Rect> = if app.tab == Tab::Processes {
        split(v[6], Direction::Horizontal, &process_limits_of())
    } else {
        Vec::new()
    };
    fill_browse_page(app, area, &v, &cols, cpu, mem, c)
}

/// A frame of the interface.
pub fn ui(
    app: &mut TuiApp,
    area: Rect,
    cpu: &Vec<String>,
    mem: &Vec<String>,
    c: Clock,
) -> (r: Vec<Item>)
    requires
        old(app)@.wf(),
    ensures
        is_frame(
            old(app)@,
            area,
            text::texts(cpu@),
            text::texts(mem@),
            c,
            text::views(r@),
            final(app)@,
        ),
        final(app)@.wf(),
{
    match app.page {
        Page::Detail => ui_detail_page(app, area),
        Page::PortDetail => ui_port_detail_page(app, area, c),
        Page::ContainerDetail => ui_container_detail_page(app, area),
        Page::Browse => ui_browse(app, area, cpu, mem, c),
    }
}

/// Once containers were found, a new search for them leaves the table on
/// display: the loading note is for the first one.
pub proof fn loading_shows_only_at_first(
    a: AppView,
    area: Rect,
    cols: Seq<Rect>,
    cpu: Seq<Seq<char>>,
    mem: Seq<Seq<char>>,
    c: Clock,
)
    requires
        a.tab == Tab::Containers,
        a.containers_loaded,
        a.containers.len() > 0,
    ensures
        tab_content(a, area, cols, cpu, mem, c) == seq![container_table(a, area)],
{
}

/// What is scrolled to always exists: a pane never shows beyond its last row.
pub proof fn scrolling_stays_in_the_pane(scroll: u16, count: u16)
    requires
        count > 0,
    ensures
        within(scroll, count) < count,
        scroll < count ==> within(scroll, count) == scroll,
{
}

proof fn socket_rows_are_all(a: AppView, names: Map<Pid, Seq<char>>, n: int)
    requires
        0 <= n <= a.socket_view.len(),
        forall|i: int| 0 <= i < n ==> #[trigger] a.socket_view[i] < a.sockets.len(),
    ensures
        socket_rows(a, names, n).len() == n,
        forall|i: int|
            0 <= i < n ==> #[trigger] socket_rows(a, names, n)[i] == socket_row(
                a.sockets[a.socket_view[i] as int],
                names,
            ),
    decreases n,
{
    if n > 0 {
        socket_rows_are_all(a, names, n - 1);
    }
}

proof fn process_rows_are_all(
    a: AppView,
    cpu: Seq<Seq<char>>,
    mem: Seq<Seq<char>>,
    c: Clock,
    n: int,
)
    requires
        0 <= n <= a.view.len(),
        forall|i: int| 0 <= i < n ==> #[trigger] a.view[i] < a.procs.len(),
    ensures
        process_rows(a, cpu, mem, c, n).len() == n,
        forall|i: int|
            0 <= i < n ==> (#[trigger] process_rows(a, cpu, mem, c, n)[i])[0] == num::dec(
                a.procs[a.view[i] as int].pid as int,
            ),
    decreases n,
{
    if n > 0 {
        process_rows_are_all(a, cpu, mem, c, n - 1);
    }
}

/// The selected row of the process table shows the selected process: every row
/// stands at the place of its index in the view.
pub proof fn selected_row_is_the_selected_process(
    a: AppView,
    cpu: Seq<Seq<char>>,
    mem: Seq<Seq<char>>,
    c: Clock,
)
    requires
        forall|i: int| 0 <= i < a.view.len() ==> #[trigger] a.view[i] < a.procs.len(),
        a.selected matches Some(i) && i < a.view.len(),
    ensures
        process_rows(a, cpu, mem, c, a.view.len() as int).len() == a.view.len(),
        process_rows(a, cpu, mem, c, a.view.len() as int)[a.selected->0 as int][0] == num::dec(
            a.selected_pid()->0 as int,
        ),
{
    process_rows_are_all(a, cpu, mem, c, a.view.len() as int);
}

/// The selected row of the socket table shows the selected socket.
pub proof fn selected_row_is_the_selected_socket(a: AppView, names: Map<Pid, Seq<char>>)
    requires
        forall|i: int| 0 <= i < a.socket_view.len() ==> #[trigger] a.socket_view[i]
            < a.sockets.len(),
        a.selected matches Some(i) && i < a.socket_view.len(),
    ensures
        socket_rows(a, names, a.socket_view.len() as int)[a.selected->0 as int] == socket_row(
            a.selected_socket()->0,
            names,
        ),
{
    socket_rows_are_all(a, names, a.socket_view.len() as int);
}

/// What is copied is the text of the focused pane as the page shows it. A port
/// without a visible owner is left out: its pane explains more than the copy
/// says.
pub proof fn copy_takes_what_is_shown(
    a: AppView,
    area: Rect,
    v: Seq<Rect>,
    cols: Seq<Rect>,
    c: Clock,
)
    requires
        a.page == Page::PortDetail && !a.port_pane_conn ==> a.port_detail_report is Some,
    ensures
        a.page == Page::Detail ==> a.focused_text(c) == line::lines_text(
            detail_page(a, area, v, cols)[if a.detail_pane {
                3
            } else {
                5
            }]->lines,
        ),
        a.page == Page::PortDetail ==> a.focused_text(c) == line::lines_text(
            port_page(a, area, v, c)[if a.port_pane_conn {
                3
            } else {
                5
            }]->lines,
        ),
        a.page == Page::ContainerDetail ==> a.focused_text(c) == line::lines_text(
            container_page(a, area, v, cols)[if a.cd_pane_info {
                3
            } else {
                5
            }]->lines,
        ),
{
}

} // verus!
