//! What the command line asks for, and how the program exits.

use vstd::prelude::*;
use vstd::string::*;

use crate::model::{Pid, TargetReport, TargetSpec};
use crate::model::{TargetReportView, TargetSpecView};
use crate::pipeline::Options;
use crate::render::Format;
use crate::text::{begins, chars_of};
use crate::text;

verus! {

/// Why is this running? Trace processes, ports and files back to what started
/// them.
#[derive(Debug)]
pub struct Cli {
    /// Process name(s) to trace (substring match; combine with `exact`).
    /// With no target at all, every process is listed.
    pub names: Vec<String>,
    /// Trace by pid (repeatable)
    pub pids: Vec<i32>,
    /// Trace by local port (repeatable)
    pub ports: Vec<u16>,
    /// Trace by open file path (repeatable)
    pub files: Vec<String>,
    /// Match names exactly instead of by substring
    pub exact: bool,
    /// Show the ancestry as a tree
    pub tree: bool,
    /// Single-line output per match (for scripts)
    pub short: bool,
    /// Machine-readable JSON
    pub json: bool,
    /// Collect environment variables (same-user only on Linux)
    pub env: bool,
    /// Disable colored output
    pub no_color: bool,
    /// Force the static process listing even on a terminal (no args = TUI)
    pub list: bool,
    /// Plain-text diagnostic report (identity, source, chain, env values,
    /// open files); combines with any target
    pub export: bool,
}

/// The targets of a command line: names, then pids, ports and files, each kind
/// in the order given.
pub open spec fn targets_of(
    names: Seq<Seq<char>>,
    exact: bool,
    pids: Seq<Pid>,
    ports: Seq<u16>,
    files: Seq<Seq<char>>,
) -> Seq<TargetSpecView> {
    Seq::new(names.len(), |i: int| TargetSpecView::Name { pattern: names[i], exact }) + Seq::new(
        pids.len(),
        |i: int| TargetSpecView::Pid { pid: pids[i] },
    ) + Seq::new(ports.len(), |i: int| TargetSpecView::Port { port: ports[i] }) + Seq::new(
        files.len(),
        |i: int| TargetSpecView::File { path: files[i] },
    )
}

/// What to do with a command line.
#[derive(Debug, Clone, Copy, PartialEq, Eq, Structural)]
pub enum Mode {
    /// No target on a terminal, and no static form asked for: the interactive
    /// interface.
    Interactive,
    /// No target otherwise: list every process.
    Listing,
    /// Trace the targets.
    Trace,
}

impl Cli {
    /// The targets to trace.
    pub fn targets(&self) -> (r: Vec<TargetSpec>)
        ensures
            text::views(r@) == targets_of(
                text::texts(self.names@),
                self.exact,
                self.pids@,
                self.ports@,
                text::texts(self.files@),
            ),
    {
        broadcast use crate::text::group_views;

        let ghost names = text::texts(self.names@);
        let ghost files = text::texts(self.files@);
        let ghost want = targets_of(names, self.exact, self.pids@, self.ports@, files);
        let mut out: Vec<TargetSpec> = Vec::new();
        let mut i: usize = 0;
        assert(text::views(out@) =~= want.take(0));
        while i < self.names.len()
            invariant
                names == text::texts(self.names@),
                want == targets_of(names, self.exact, self.pids@, self.ports@, files),
                i <= self.names@.len(),
                text::views(out@) == want.take(i as int),
            decreases self.names@.len() - i,
        {
            assert(names[i as int] == self.names@[i as int]@);
            out.push(TargetSpec::Name { pattern: self.names[i].clone(), exact: self.exact });
            assert(want.take(i + 1) =~= want.take(i as int).push(want[i as int]));
            i += 1;
        }
        let ghost a = self.names@.len() as int;
        let mut i: usize = 0;
        while i < self.pids.len()
            invariant
                want == targets_of(names, self.exact, self.pids@, self.ports@, files),
                a == names.len(),
                i <= self.pids@.len(),
                text::views(out@) == want.take(a + i),
            decreases self.pids@.len() - i,
        {
            out.push(TargetSpec::Pid { pid: self.pids[i] });
            assert(want.take(a + i + 1) =~= want.take(a + i).push(want[a + i]));
            i += 1;
        }
        let ghost b = a + self.pids@.len();
        let mut i: usize = 0;
        while i < self.ports.len()
            invariant
                want == targets_of(names, self.exact, self.pids@, self.ports@, files),
                b == names.len() + self.pids@.len(),
                i <= self.ports@.len(),
                text::views(out@) == want.take(b + i),
            decreases self.ports@.len() - i,
        {
            out.push(TargetSpec::Port { port: self.ports[i] });
            assert(want.take(b + i + 1) =~= want.take(b + i).push(want[b + i]));
            i += 1;
        }
        let ghost c = b + self.ports@.len();
        let mut i: usize = 0;
        while i < self.files.len()
            invariant
                files == text::texts(self.files@),
                want == targets_of(names, self.exact, self.pids@, self.ports@, files),
                c == names.len() + self.pids@.len() + self.ports@.len(),
                i <= self.files@.len(),
                text::views(out@) == want.take(c + i),
            decreases self.files@.len() - i,
        {
            assert(files[i as int] == self.files@[i as int]@);
            out.push(TargetSpec::File { path: self.files[i].clone() });
            assert(want.take(c + i + 1) =~= want.take(c + i).push(want[c + i]));
            i += 1;
        }
        assert(want.take(c + self.files@.len()) =~= want);
        out
    }

    /// What to do, given whether both ends are a terminal.
    pub fn mode(&self, terminal: bool) -> (r: Mode)
        ensures
            r == if self.names@.len() + self.pids@.len() + self.ports@.len() + self.files@.len()
                > 0 {
                Mode::Trace
            } else if terminal && !self.list && !self.tree && !self.json {
                Mode::Interactive
            } else {
                Mode::Listing
            },
    {
        if self.names.len() > 0 || self.pids.len() > 0 || self.ports.len() > 0 || self.files.len()
            > 0 {
            Mode::Trace
        } else if terminal && !self.list && !self.tree && !self.json {
            Mode::Interactive
        } else {
            Mode::Listing
        }
    }

    /// The form of reports: JSON over short over tree.
    pub fn report_format(&self) -> (r: Format)
        ensures
            r == if self.json {
                Format::Json
            } else if self.short {
                Format::Short
            } else if self.tree {
                Format::Tree
            } else {
                Format::Standard
            },
    {
        if self.json {
            Format::Json
        } else if self.short {
            Format::Short
        } else if self.tree {
            Format::Tree
        } else {
            Format::Standard
        }
    }

    /// The form of the listing of all processes.
    pub fn listing_format(&self) -> (r: Format)
        ensures
            r == if self.json {
                Format::Json
            } else if self.tree {
                Format::Tree
            } else {
                Format::Standard
            },
    {
        if self.json {
            Format::Json
        } else if self.tree {
            Format::Tree
        } else {
            Format::Standard
        }
    }

    /// Whether to paint, given whether the output is a terminal.
    pub fn color(&self, terminal: bool, format: Format) -> (r: bool)
        ensures
            r == (!self.no_color && terminal && format != Format::Json),
    {
        !self.no_color && terminal && format != Format::Json
    }

    /// How to trace; an export shows the environment.
    pub fn options(&self) -> (r: Options)
        ensures
            r.want_env == (self.env || self.export),
            r.max_name_matches == 20,
    {
        Options { want_env: self.env || self.export, ..Options::default() }
    }
}

/// Whether a report says that no process could be listed.
pub open spec fn is_internal(r: TargetReportView) -> bool {
    !r.found && match r.error {
        Some(e) => text::starts_with(e, "cannot list processes: "@),
        None => false,
    }
}

/// The exit code: 5 when no process could be listed, 2 when a target was not
/// found, 1 when there are warnings, 0 otherwise. (4 is for a command line that
/// cannot be read.)
pub open spec fn exit_status(rs: Seq<TargetReportView>) -> int {
    if exists|i: int| 0 <= i < rs.len() && is_internal(#[trigger] rs[i]) {
        5
    } else if exists|i: int| 0 <= i < rs.len() && !(#[trigger] rs[i]).found {
        2
    } else if exists|i: int| 0 <= i < rs.len() && (#[trigger] rs[i]).warnings.len() > 0 {
        1
    } else {
        0
    }
}

/// See the spec function `exit_status`.
pub fn exit_code(reports: &[TargetReport]) -> (r: i32)
    ensures
        r == exit_status(text::views(reports@)),
{
    let ghost all = text::views(reports@);
    let mut missing = false;
    let mut warned = false;
    let mut i: usize = 0;
    while i < reports.len()
        invariant
            all == text::views(reports@),
            i <= reports@.len(),
            forall|j: int| 0 <= j < i ==> !is_internal(#[trigger] all[j]),
            missing == exists|j: int| 0 <= j < i && !(#[trigger] all[j]).found,
            warned == exists|j: int| 0 <= j < i && (#[trigger] all[j]).warnings.len() > 0,
        decreases reports@.len() - i,
    {
        let r = &reports[i];
        assert(all[i as int] == r@);
        if !r.found {
            if let Some(e) = &r.error {
                let c = chars_of(e.as_str());
                if begins(c.as_slice(), "cannot list processes: ") {
                    assert(is_internal(all[i as int]));
                    return 5;
                }
            }
            missing = true;
        }
        if r.warnings.len() > 0 {
            warned = true;
        }
        i += 1;
    }
    if missing {
        2
    } else if warned {
        1
    } else {
        0
    }
}

/// Every name, pid, port and file of a command line is a target, in this order
/// of the kinds and in the given order within each.
pub proof fn everything_asked_for_is_a_target(
    names: Seq<Seq<char>>,
    exact: bool,
    pids: Seq<Pid>,
    ports: Seq<u16>,
    files: Seq<Seq<char>>,
    i: int,
)
    requires
        0 <= i,
    ensures
        ({
            let t = targets_of(names, exact, pids, ports, files);
            let (a, b, c) = (names.len() as int, pids.len() as int, ports.len() as int);
            &&& t.len() == a + b + c + files.len()
            &&& i < a ==> t[i] == (TargetSpecView::Name { pattern: names[i], exact })
            &&& i < b ==> t[a + i] == (TargetSpecView::Pid { pid: pids[i] })
            &&& i < c ==> t[a + b + i] == (TargetSpecView::Port { port: ports[i] })
            &&& i < files.len() ==> t[a + b + c + i] == (TargetSpecView::File { path: files[i] })
        }),
{
}

/// The exit code tells the worst that happened: that no process could be
/// listed, that a target was not found, that there is a warning, or nothing of
/// these.
pub proof fn exit_code_tells_the_worst(rs: Seq<TargetReportView>, r: TargetReportView)
    ensures
        exit_status(seq![]) == 0,
        ({
            let worst = exit_status(rs);
            let this: int = if !r.found && (r.error matches Some(e) && exists|b: Seq<char>|
                e == #[trigger] ("cannot list processes: "@ + b)) {
                5
            } else if !r.found {
                2
            } else if r.warnings.len() > 0 {
                1
            } else {
                0
            };
            exit_status(rs.push(r)) == if worst > this {
                worst
            } else {
                this
            }
        }),
{
    let all = rs.push(r);
    if r.error is Some {
        text::holding_is_standing_between(r.error->0, "cannot list processes: "@);
    }
    assert(all[rs.len() as int] == r);
    assert forall|i: int| 0 <= i < rs.len() implies all[i] == #[trigger] rs[i] by {
    }
    if exists|i: int| 0 <= i < rs.len() && is_internal(#[trigger] rs[i]) {
        let i = choose|i: int| 0 <= i < rs.len() && is_internal(#[trigger] rs[i]);
        assert(is_internal(all[i]));
    }
    if exists|i: int| 0 <= i < rs.len() && !(#[trigger] rs[i]).found {
        let i = choose|i: int| 0 <= i < rs.len() && !(#[trigger] rs[i]).found;
        assert(!all[i].found);
    }
    if exists|i: int| 0 <= i < rs.len() && (#[trigger] rs[i]).warnings.len() > 0 {
        let i = choose|i: int| 0 <= i < rs.len() && (#[trigger] rs[i]).warnings.len() > 0;
        assert(all[i].warnings.len() > 0);
    }
    if is_internal(r) {
        assert(is_internal(all[rs.len() as int]));
    }
    if exists|i: int| 0 <= i < all.len() && is_internal(#[trigger] all[i]) {
        let i = choose|i: int| 0 <= i < all.len() && is_internal(#[trigger] all[i]);
        assert(i == rs.len() || is_internal(rs[i]));
    }
    if exists|i: int| 0 <= i < all.len() && !(#[trigger] all[i]).found {
        let i = choose|i: int| 0 <= i < all.len() && !(#[trigger] all[i]).found;
        assert(i == rs.len() || !rs[i].found);
    }
    if exists|i: int| 0 <= i < all.len() && (#[trigger] all[i]).warnings.len() > 0 {
        let i = choose|i: int| 0 <= i < all.len() && (#[trigger] all[i]).warnings.len() > 0;
        assert(i == rs.len() || rs[i].warnings.len() > 0);
    }
}

} // verus!
