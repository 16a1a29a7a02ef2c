//! Styled text: what the interactive interface shows, before it is drawn.

use vstd::prelude::*;
use vstd::string::*;

use crate::text::{chars_of, joined, lines_of, string_of, text};
use crate::text;

verus! {

// ---------- styles ----------

/// The colors of the interface.
#[derive(Debug, Clone, Copy, PartialEq, Eq, Structural)]
pub enum Color {
    Purple,
    Green,
    Gray,
    Mid,
    Accent,
    White,
    Red,
    Yellow,
}

impl Color {
    /// The red, green and blue of a color that is not one of the terminal's
    /// own.
    pub open spec fn mixed(self) -> Option<(u8, u8, u8)> {
        match self {
            Color::Purple => Some((125, 86, 243)),
            Color::Green => Some((34, 170, 34)),
            Color::Gray => Some((88, 88, 88)),
            Color::Mid => Some((118, 118, 118)),
            Color::Accent => Some((95, 95, 215)),
            _ => None,
        }
    }

    /// See the spec function `mixed`.
    pub fn rgb(self) -> (r: Option<(u8, u8, u8)>)
        ensures
            r == self.mixed(),
    {
        match self {
            Color::Purple => Some((125, 86, 243)),
            Color::Green => Some((34, 170, 34)),
            Color::Gray => Some((88, 88, 88)),
            Color::Mid => Some((118, 118, 118)),
            Color::Accent => Some((95, 95, 215)),
            _ => None,
        }
    }
}

/// How a piece of text looks.
#[derive(Debug, Clone, Copy, PartialEq, Eq, Structural)]
pub struct Style {
    pub fg: Option<Color>,
    pub bg: Option<Color>,
    pub bold: bool,
}

pub open spec fn plain() -> Style {
    Style { fg: None, bg: None, bold: false }
}

pub open spec fn ink(c: Color) -> Style {
    Style { fg: Some(c), bg: None, bold: false }
}

pub open spec fn bold_ink(c: Color) -> Style {
    Style { fg: Some(c), bg: None, bold: true }
}

pub open spec fn strong() -> Style {
    Style { fg: None, bg: None, bold: true }
}

pub open spec fn badge(bg: Color, bold: bool) -> Style {
    Style { fg: Some(Color::White), bg: Some(bg), bold }
}

impl Style {
    /// No color, not bold.
    pub fn none() -> (r: Style)
        ensures
            r == plain(),
    {
        Style { fg: None, bg: None, bold: false }
    }

    /// A text color.
    pub fn fg(c: Color) -> (r: Style)
        ensures
            r == ink(c),
    {
        Style { fg: Some(c), bg: None, bold: false }
    }

    /// A text color, bold.
    pub fn bold_fg(c: Color) -> (r: Style)
        ensures
            r == bold_ink(c),
    {
        Style { fg: Some(c), bg: None, bold: true }
    }

    /// Bold.
    pub fn bold() -> (r: Style)
        ensures
            r == strong(),
    {
        Style { fg: None, bg: None, bold: true }
    }

    /// White on a color.
    pub fn on(bg: Color, bold: bool) -> (r: Style)
        ensures
            r == badge(bg, bold),
    {
        Style { fg: Some(Color::White), bg: Some(bg), bold }
    }
}

// ---------- spans and lines ----------

/// A piece of text in one style.
#[derive(Debug)]
pub struct Span {
    pub text: String,
    pub style: Style,
}

/// What a [`Span`] shows.
#[verifier::ext_equal]
pub struct SpanView {
    pub text: Seq<char>,
    pub style: Style,
}

impl View for Span {
    type V = SpanView;

    open spec fn view(&self) -> SpanView {
        SpanView { text: self.text@, style: self.style }
    }
}

impl Clone for Span {
    fn clone(&self) -> (r: Span)
        ensures
            r@ == self@,
    {
        Span { text: self.text.clone(), style: self.style }
    }
}

/// A line of styled text.
#[derive(Debug)]
pub struct Line {
    pub spans: Vec<Span>,
}

impl View for Line {
    type V = Seq<SpanView>;

    open spec fn view(&self) -> Seq<SpanView> {
        text::views(self.spans@)
    }
}

/// A span.
pub open spec fn span(s: Seq<char>, style: Style) -> SpanView {
    SpanView { text: s, style }
}

/// A line of one span.
pub open spec fn line(s: Seq<char>, style: Style) -> Seq<SpanView> {
    seq![span(s, style)]
}

/// A text in no style; what a line feed parts comes close together.
pub open spec fn raw_line(s: Seq<char>) -> Seq<SpanView> {
    Seq::new(text::lines(s).len(), |i: int| span(text::lines(s)[i], plain()))
}

impl Line {
    /// A text in no style. See the spec function `raw_line`.
    pub fn raw(s: &str) -> (r: Line)
        ensures
            r@ == raw_line(s@),
    {
        let c = chars_of(s);
        let ls = lines_of(c.as_slice());
        let ghost all = text::lines(s@);
        assert(all.len() == ls@.len());
        let mut r = Line::new();
        let mut i: usize = 0;
        assert(r@ =~= raw_line(s@).take(0));
        while i < ls.len()
            invariant
                all == text::lines(s@),
                text::pieces(ls@) == all,
                all.len() == ls@.len(),
                i <= ls@.len(),
                r@ == raw_line(s@).take(i as int),
            decreases ls@.len() - i,
        {
            let part = ls[i];
            assert(part@ == all[i as int]);
            r.push(string_of(part), Style::none());
            assert(raw_line(s@).take(i + 1) =~= raw_line(s@).take(i as int).push(
                raw_line(s@)[i as int],
            ));
            i += 1;
        }
        assert(raw_line(s@).take(i as int) =~= raw_line(s@));
        r
    }

    /// A line without spans.
    pub fn new() -> (r: Line)
        ensures
            r@ == Seq::<SpanView>::empty(),
    {
        let r = Line { spans: Vec::new() };
        assert(r@ =~= Seq::<SpanView>::empty());
        r
    }

    /// Adds a span at the end.
    pub fn push(&mut self, s: String, style: Style)
        ensures
            final(self)@ == old(self)@.push(span(s@, style)),
    {
        broadcast use crate::text::group_views;

        self.spans.push(Span { text: s, style });
    }

    /// A line of one span.
    pub fn of(s: String, style: Style) -> (r: Line)
        ensures
            r@ == line(s@, style),
    {
        let ghost sv = s@;
        let mut r = Line::new();
        r.push(s, style);
        assert(r@ =~= line(sv, style));
        r
    }
}

impl Clone for Line {
    fn clone(&self) -> (r: Line)
        ensures
            r@ == self@,
    {
        broadcast use crate::text::group_views;

        let mut out: Vec<Span> = Vec::new();
        let mut i: usize = 0;
        while i < self.spans.len()
            invariant
                i <= self.spans@.len(),
                text::views(out@) == self@.take(i as int),
            decreases self.spans@.len() - i,
        {
            out.push(self.spans[i].clone());
            assert(self@.take(i + 1) =~= self@.take(i as int).push(self.spans@[i as int]@));
            i += 1;
        }
        assert(self@.take(i as int) =~= self@);
        Line { spans: out }
    }
}

/// A copy of some lines.
pub fn copy_lines(v: &Vec<Line>) -> (r: Vec<Line>)
    ensures
        text::views(r@) == text::views(v@),
{
    broadcast use crate::text::group_views;

    let mut out: Vec<Line> = Vec::new();
    let mut i: usize = 0;
    while i < v.len()
        invariant
            i <= v@.len(),
            text::views(out@) == text::views(v@).take(i as int),
        decreases v@.len() - i,
    {
        out.push(v[i].clone());
        assert(text::views(v@).take(i + 1) =~= text::views(v@).take(i as int).push(v@[i as int]@));
        i += 1;
    }
    assert(text::views(v@).take(i as int) =~= text::views(v@));
    out
}

/// The lines, of one line.
pub fn only(l: Line) -> (r: Vec<Line>)
    ensures
        text::views(r@) == seq![l@],
{
    let ghost lv = l@;
    let mut v: Vec<Line> = Vec::new();
    v.push(l);
    assert(text::views(v@) =~= seq![lv]);
    v
}

/// The text of the first `n` spans.
pub open spec fn span_texts(l: Seq<SpanView>, n: int) -> Seq<char>
    decreases n,
{
    if n <= 0 {
        ""@
    } else {
        span_texts(l, n - 1) + l[n - 1].text
    }
}

/// The text of a line, without its styles.
pub open spec fn line_text(l: Seq<SpanView>) -> Seq<char> {
    span_texts(l, l.len() as int)
}

/// See the spec function `line_text`.
pub fn line_to_string(l: &Line) -> (r: String)
    ensures
        r@ == line_text(l@),
{
    let ghost all = l@;
    let mut out = text("");
    let mut i: usize = 0;
    while i < l.spans.len()
        invariant
            all == text::views(l.spans@),
            i <= l.spans@.len(),
            out@ == span_texts(all, i as int),
        decreases l.spans@.len() - i,
    {
        assert(all[i as int] == l.spans@[i as int]@);
        out.append(l.spans[i].text.as_str());
        i += 1;
    }
    out
}

/// The text of some lines.
pub open spec fn lines_text(v: Seq<Seq<SpanView>>) -> Seq<char> {
    text::join(Seq::new(v.len(), |i: int| line_text(v[i])), "\n"@)
}

/// See the spec function `lines_text`.
pub fn lines_to_string(v: &Vec<Line>) -> (r: String)
    ensures
        r@ == lines_text(text::views(v@)),
{
    let ghost all = text::views(v@);
    let ghost parts = Seq::new(all.len(), |i: int| line_text(all[i]));
    let mut out: Vec<String> = Vec::new();
    let mut i: usize = 0;
    while i < v.len()
        invariant
            all == text::views(v@),
            parts == Seq::new(all.len(), |i: int| line_text(all[i])),
            i <= v@.len(),
            out@.len() == i,
            forall|j: int| 0 <= j < i ==> (#[trigger] out@[j])@ == parts[j],
        decreases v@.len() - i,
    {
        assert(all[i as int] == v@[i as int]@);
        out.push(line_to_string(&v[i]));
        i += 1;
    }
    assert(text::texts(out@) =~= parts);
    joined(&out, "\n")
}

// ---------- widths ----------

/// The columns that a text takes on a terminal, as `ratatui::text::Span`
/// counts them.
pub uninterp spec fn columns(s: Seq<char>) -> nat;

/// Whether a text holds printable ASCII characters only.
pub open spec fn is_printable(s: Seq<char>) -> bool {
    forall|i: int| 0 <= i < s.len() ==> 0x20 <= (#[trigger] s[i]) as u32 <= 0x7e
}

/// `ratatui::text::Span::width` of an unstyled span: the columns that the text
/// takes by the Unicode width tables, a function of the text alone. Printable
/// ASCII characters take one column each.
#[verifier::external_body]
fn span_width(s: &str) -> (r: usize)
    ensures
        r == columns(s@),
        is_printable(s@) ==> r == s@.len(),
{
    ratatui::text::Span::raw(s).width()
}

/// A sum, at the end of the range when it does not fit.
pub open spec fn capped(n: int) -> int {
    if n > usize::MAX {
        usize::MAX as int
    } else {
        n
    }
}

/// The columns of the first `n` widths.
pub open spec fn total_width(widths: Seq<usize>, n: int) -> int
    decreases n,
{
    if n <= 0 {
        0
    } else {
        capped(total_width(widths, n - 1) + widths[n - 1])
    }
}

/// The rows that a line of this width takes when it is wrapped.
pub open spec fn rows_for(width: int, pane: int) -> int {
    let w = if pane < 1 {
        1
    } else {
        pane
    };
    if width == 0 {
        1
    } else {
        ((width + w - 1) / w) as u16 as int
    }
}

/// The rows of the first `n` lines, at the end of the range when they do not
/// fit.
pub open spec fn rows_among(widths: Seq<int>, pane: int, n: int) -> int
    decreases n,
{
    if n <= 0 {
        0
    } else {
        let sum = rows_among(widths, pane, n - 1) + rows_for(widths[n - 1], pane);
        if sum > u16::MAX {
            u16::MAX as int
        } else {
            sum
        }
    }
}

/// The width of a line.
pub open spec fn line_width(l: Seq<SpanView>) -> int {
    total_width(Seq::new(l.len(), |i: int| columns(l[i].text) as usize), l.len() as int)
}

/// The rows that some lines take when they are wrapped.
pub open spec fn wrapped_rows(v: Seq<Seq<SpanView>>, pane: int) -> int {
    rows_among(Seq::new(v.len(), |i: int| line_width(v[i])), pane, v.len() as int)
}

/// The width of a line whose spans have these widths.
pub fn sum_widths(widths: &Vec<usize>) -> (r: usize)
    ensures
        r == total_width(widths@, widths@.len() as int),
{
    let mut sum: usize = 0;
    let mut i: usize = 0;
    while i < widths.len()
        invariant
            i <= widths@.len(),
            sum == total_width(widths@, i as int),
        decreases widths@.len() - i,
    {
        sum = match sum.checked_add(widths[i]) {
            Some(s) => s,
            None => usize::MAX,
        };
        i += 1;
    }
    sum
}

/// What a list of widths shows.
pub open spec fn widths_view(v: Seq<usize>) -> Seq<int> {
    Seq::new(v.len(), |i: int| v[i] as int)
}

fn rows_of(width: usize, pane: u16) -> (r: u16)
    ensures
        r == rows_for(width as int, pane as int),
{
    let w: usize = if pane < 1 {
        1
    } else {
        pane as usize
    };
    if width == 0 {
        return 1;
    }
    let q: usize = width / w;
    proof {
        vstd::arithmetic::div_mod::lemma_fundamental_div_mod(width as int, w as int);
        assert(q <= w * q) by (nonlinear_arith)
            requires
                w >= 1,
        ;
    }
    let rows: usize = if width % w == 0 {
        q
    } else {
        q + 1
    };
    proof {
        assert(w * q == q * w) by (nonlinear_arith);
        if width % w == 0 {
            assert(width + w - 1 == w * q + (w - 1));
            vstd::arithmetic::div_mod::lemma_fundamental_div_mod_converse(
                width + w - 1,
                w as int,
                q as int,
                w - 1,
            );
        } else {
            let m = width as int % w as int;
            assert((q + 1) * w == w * q + w) by (nonlinear_arith);
            assert(width + w - 1 == (q + 1) * w + (m - 1));
            vstd::arithmetic::div_mod::lemma_fundamental_div_mod_converse(
                width + w - 1,
                w as int,
                q + 1,
                m - 1,
            );
        }
        assert(rows == (width + w - 1) / (w as int));
    }
    #[verifier::truncate]
    (rows as u16)
}

/// The rows that lines of these widths take when they are wrapped.
pub fn sum_rows(widths: &Vec<usize>, pane: u16) -> (r: u16)
    ensures
        r == rows_among(widths_view(widths@), pane as int, widths@.len() as int),
{
    let ghost all = widths_view(widths@);
    let mut sum: u16 = 0;
    let mut i: usize = 0;
    while i < widths.len()
        invariant
            all == widths_view(widths@),
            i <= widths@.len(),
            sum == rows_among(all, pane as int, i as int),
        decreases widths@.len() - i,
    {
        sum = match sum.checked_add(rows_of(widths[i], pane)) {
            Some(s) => s,
            None => u16::MAX,
        };
        i += 1;
    }
    sum
}

fn width_of(l: &Line) -> (r: usize)
    ensures
        r == line_width(l@),
{
    let ghost all = l@;
    let ghost want = Seq::new(all.len(), |i: int| columns(all[i].text) as usize);
    let mut widths: Vec<usize> = Vec::new();
    let mut i: usize = 0;
    while i < l.spans.len()
        invariant
            all == text::views(l.spans@),
            want == Seq::new(all.len(), |i: int| columns(all[i].text) as usize),
            i <= l.spans@.len(),
            widths@.len() == i,
            forall|j: int| 0 <= j < i ==> widths@[j] == want[j],
        decreases l.spans@.len() - i,
    {
        assert(all[i as int] == l.spans@[i as int]@);
        widths.push(span_width(l.spans[i].text.as_str()));
        i += 1;
    }
    assert(widths@ =~= want);
    sum_widths(&widths)
}

/// Row count after the paragraph wraps long lines at `width`: scroll clamps
/// and indicators must count wrapped rows, not logical lines.
pub fn wrapped_count(lines: &Vec<Line>, width: u16) -> (r: u16)
    ensures
        r == wrapped_rows(text::views(lines@), width as int),
{
    let ghost all = text::views(lines@);
    let ghost want = Seq::new(all.len(), |i: int| line_width(all[i]));
    let mut widths: Vec<usize> = Vec::new();
    let mut i: usize = 0;
    while i < lines.len()
        invariant
            all == text::views(lines@),
            want == Seq::new(all.len(), |i: int| line_width(all[i])),
            i <= lines@.len(),
            widths@.len() == i,
            forall|j: int| 0 <= j < i ==> widths@[j] == want[j],
        decreases lines@.len() - i,
    {
        assert(all[i as int] == lines@[i as int]@);
        widths.push(width_of(&lines[i]));
        i += 1;
    }
    assert(widths_view(widths@) =~= want);
    sum_rows(&widths, width)
}

/// The share of a pane, without its border.
pub open spec fn pane_width(total: int, pct: int) -> int {
    let share = ((if total > 0 {
        total - 1
    } else {
        0
    }) * pct) / 100;
    let cut = share as u16 as int;
    if cut >= 2 {
        cut - 2
    } else {
        0
    }
}

/// Approximate inner width of a percentage pane (±1, good enough for scroll
/// indicators): percentage splits have a divider gap of one column.
pub fn pane_inner_width(total: u16, pct: u16) -> (r: u16)
    ensures
        r == pane_width(total as int, pct as int),
{
    let rest: u64 = if total > 0 {
        total as u64 - 1
    } else {
        0
    };
    assert(rest * pct <= 65535 * 65535) by (nonlinear_arith)
        requires
            rest <= 65535,
            pct <= 65535,
    ;
    let share: u64 = rest * pct as u64 / 100;
    let cut: u16 = #[verifier::truncate] (share as u16);
    if cut >= 2 {
        cut - 2
    } else {
        0
    }
}

/// What a pane shows of its position: whether there is more above or below.
pub open spec fn indicator(scroll: int, count: int, height: int) -> Seq<char> {
    let sum = scroll + height;
    let reach = if sum > u16::MAX {
        u16::MAX as int
    } else {
        sum
    };
    if scroll != 0 && reach < count {
        " ↕"@
    } else if scroll != 0 {
        " ↑"@
    } else if reach < count {
        " ↓"@
    } else {
        ""@
    }
}

/// See the spec function `indicator`.
pub fn scroll_indicator(scroll: u16, count: u16, height: u16) -> (r: &'static str)
    ensures
        r@ == indicator(scroll as int, count as int, height as int),
{
    let reach: u16 = match scroll.checked_add(height) {
        Some(s) => s,
        None => u16::MAX,
    };
    if scroll != 0 && reach < count {
        " ↕"
    } else if scroll != 0 {
        " ↑"
    } else if reach < count {
        " ↓"
    } else {
        ""
    }
}

} // verus!
