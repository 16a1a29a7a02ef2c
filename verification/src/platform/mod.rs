//! What the platforms share: errors, capabilities and containers.

use vstd::prelude::*;
use vstd::string::*;

use crate::model::{Container, Process, Socket};
use crate::model::{ContainerView, SocketView};
use crate::order::{
    field_of_number, field_of_text, key_of_three, key_of_two, positions, sort,
};
use crate::text::{chars_of, cut, lines_of, same_str, string_of, text, Class};
use crate::{order, text};

pub mod linux;
pub mod macos;
pub mod windows;

verus! {

/// The operating system that is inspected.
#[derive(Debug, Clone, Copy, PartialEq, Eq, Structural)]
pub enum Os {
    Linux,
    MacOs,
    Windows,
}

/// Why a platform could not answer.
#[derive(Debug)]
pub enum PlatError {
    /// The platform genuinely can't answer this (no API without root, etc).
    Unsupported(String),
    /// Answering requires privileges the current user doesn't have.
    Permission(String),
    Failed(String),
}

/// What a [`PlatError`] shows.
#[verifier::ext_equal]
pub enum PlatErrorView {
    Unsupported(Seq<char>),
    Permission(Seq<char>),
    Failed(Seq<char>),
}

impl View for PlatError {
    type V = PlatErrorView;

    open spec fn view(&self) -> PlatErrorView {
        match self {
            PlatError::Unsupported(m) => PlatErrorView::Unsupported(m@),
            PlatError::Permission(m) => PlatErrorView::Permission(m@),
            PlatError::Failed(m) => PlatErrorView::Failed(m@),
        }
    }
}

impl PlatErrorView {
    /// The error in words.
    pub open spec fn words(self) -> Seq<char> {
        match self {
            PlatErrorView::Unsupported(m) => "not supported on this platform: "@ + m,
            PlatErrorView::Permission(m) => "permission denied: "@ + m,
            PlatErrorView::Failed(m) => m,
        }
    }
}

impl PlatError {
    /// The error in words.
    pub fn message(&self) -> (r: String)
        ensures
            r@ == self@.words(),
    {
        match self {
            PlatError::Unsupported(m) => {
                let mut out = text("not supported on this platform: ");
                out.append(m.as_str());
                out
            },
            PlatError::Permission(m) => {
                let mut out = text("permission denied: ");
                out.append(m.as_str());
                out
            },
            PlatError::Failed(m) => m.clone(),
        }
    }
}

pub type PlatResult<T> = Result<T, PlatError>;

/// Which optional capabilities the current platform/target has, so the
/// pipeline can warn instead of silently returning nothing.
#[derive(Debug, Clone, Copy, PartialEq, Eq, Structural)]
pub struct Capabilities {
    pub file_lookup: bool,
    /// Env vars readable for same-user processes at least.
    pub env: bool,
}

impl Os {
    /// The name of a platform.
    pub open spec fn called(self) -> Seq<char> {
        match self {
            Os::Linux => "linux"@,
            Os::MacOs => "macos"@,
            Os::Windows => "windows"@,
        }
    }

    /// The name of a platform.
    pub fn name(self) -> (r: &'static str)
        ensures
            r@ == self.called(),
    {
        match self {
            Os::Linux => "linux",
            Os::MacOs => "macos",
            Os::Windows => "windows",
        }
    }

    /// What a platform can answer: on Windows neither who holds a file (that
    /// needs Sysinternals handle.exe) nor an environment.
    pub fn capabilities(self) -> (r: Capabilities)
        ensures
            r == (Capabilities { file_lookup: self != Os::Windows, env: self != Os::Windows }),
    {
        match self {
            Os::Windows => Capabilities { file_lookup: false, env: false },
            _ => Capabilities { file_lookup: true, env: true },
        }
    }
}

// ---------- sockets ----------

/// The sort keys of sockets: protocol and local port.
pub open spec fn socket_keys(v: Seq<SocketView>) -> Seq<order::Key> {
    Seq::new(
        v.len(),
        |i: int| seq![order::text_field(v[i].proto), seq![v[i].local_port as i64]],
    )
}

/// The sockets by protocol and local port; those with the same keep their
/// order.
pub open spec fn sorted_sockets(v: Seq<SocketView>) -> Seq<SocketView> {
    order::arranged(v, order::sorted(order::all_positions(v.len()), socket_keys(v), false))
}

/// See the spec function `sorted_sockets`.
pub fn sort_sockets(v: &Vec<Socket>) -> (r: Vec<Socket>)
    ensures
        text::views(r@) == sorted_sockets(text::views(v@)),
{
    broadcast use crate::order::keys_view_push;

    let ghost all = text::views(v@);
    let mut keys: Vec<Vec<Vec<i64>>> = Vec::new();
    let mut i: usize = 0;
    assert(order::keys_view(keys@) =~= socket_keys(all).take(0));
    while i < v.len()
        invariant
            all == text::views(v@),
            i <= v@.len(),
            keys@.len() == i,
            order::keys_view(keys@) == socket_keys(all).take(i as int),
        decreases v@.len() - i,
    {
        assert(all[i as int] == v@[i as int]@);
        let k = key_of_two(
            field_of_text(v[i].proto.as_str()),
            field_of_number(v[i].local_port as i64),
        );
        keys.push(k);
        assert(socket_keys(all).take(i + 1) =~= socket_keys(all).take(i as int).push(
            socket_keys(all)[i as int],
        ));
        i += 1;
    }
    assert(socket_keys(all).take(i as int) =~= socket_keys(all));
    let idx = positions(v.len());
    let o = sort(&idx, &keys, false);
    let mut out: Vec<Socket> = Vec::new();
    let mut j: usize = 0;
    while j < o.len()
        invariant
            all == text::views(v@),
            forall|x: int| 0 <= x < o@.len() ==> #[trigger] o@[x] < v@.len(),
            j <= o@.len(),
            out@.len() == j,
            forall|x: int| 0 <= x < j ==> (#[trigger] out@[x])@ == all[o@[x] as int],
        decreases o@.len() - j,
    {
        assert(o@[j as int] < v@.len());
        out.push(v[o[j]].clone());
        j += 1;
    }
    assert(text::views(out@) =~= sorted_sockets(all));
    out
}

/// Whether the environment of a process is worth reading.
pub fn wants_env(brief: &Process, want_env: bool) -> (r: bool)
    ensures
        r == (want_env && !brief.kernel_thread),
{
    want_env && !brief.kernel_thread
}

// ---------- containers ----------

/// The members of a JSON object: of each the key, the text when its value is
/// a string, and the items, each as text where it is one, when it is an array.
pub type Members = Vec<(String, Option<String>, Option<Vec<Option<String>>>)>;

/// What an item of a JSON array shows.
pub open spec fn items_view(v: Seq<Option<String>>) -> Seq<Option<Seq<char>>> {
    Seq::new(v.len(), |i: int| text::opt(v[i]))
}

/// What the members of a JSON object show.
pub open spec fn members_view(
    v: Seq<(String, Option<String>, Option<Vec<Option<String>>>)>,
) -> Seq<(Seq<char>, Option<Seq<char>>, Option<Seq<Option<Seq<char>>>>)> {
    Seq::new(
        v.len(),
        |i: int|
            (
                v[i].0@,
                text::opt(v[i].1),
                match v[i].2 {
                    Some(a) => Some(items_view(a@)),
                    None => None,
                },
            ),
    )
}

/// The members of the JSON object that a text holds, by key: none when it is
/// no JSON text, and no members when its value is not an object.
pub uninterp spec fn json_members(s: Seq<char>) -> Option<
    Seq<(Seq<char>, Option<Seq<char>>, Option<Seq<Option<Seq<char>>>>)>,
>;

/// `serde_json::from_str` into a `serde_json::Value`, whose members are then
/// taken apart with `as_object`, `as_str` and `as_array`: what comes out is a
/// function of the text alone. Keys are unique: the map of an object holds
/// each key once.
#[verifier::external_body]
fn parse_members(s: &str) -> (r: Option<Members>)
    ensures
        (match r {
            Some(m) => Some(members_view(m@)),
            None => None,
        }) == json_members(s@),
        r matches Some(m) ==> forall|i: int, j: int|
            0 <= i < j < m@.len() ==> (#[trigger] m@[i]).0@ != (#[trigger] m@[j]).0@,
{
    let value: serde_json::Value = serde_json::from_str(s).ok()?;
    let text = |v: &serde_json::Value| v.as_str().map(str::to_string);
    let items = |v: &serde_json::Value| v.as_array().map(|a| a.iter().map(text).collect());
    match value.as_object() {
        Some(map) => Some(map.iter().map(|(k, v)| (k.clone(), text(v), items(v))).collect()),
        None => Some(Vec::new()),
    }
}

/// The position of the first member from `i` on with this key, or the number
/// of members.
pub open spec fn member_at(
    m: Seq<(Seq<char>, Option<Seq<char>>, Option<Seq<Option<Seq<char>>>>)>,
    key: Seq<char>,
    i: int,
) -> int
    decreases m.len() - i,
{
    if i >= m.len() {
        m.len() as int
    } else if m[i].0 == key {
        i
    } else {
        member_at(m, key, i + 1)
    }
}

/// The text under a key; empty when there is none.
pub open spec fn member_text(
    m: Seq<(Seq<char>, Option<Seq<char>>, Option<Seq<Option<Seq<char>>>>)>,
    key: Seq<char>,
) -> Seq<char> {
    let i = member_at(m, key, 0);
    if i < m.len() && m[i].1 is Some {
        m[i].1->0
    } else {
        seq![]
    }
}

/// The first text among the items from `i` on; empty when there is none.
pub open spec fn first_text(a: Seq<Option<Seq<char>>>, i: int) -> Seq<char>
    decreases a.len() - i,
{
    if i >= a.len() {
        seq![]
    } else if a[i] is Some {
        a[i]->0
    } else {
        first_text(a, i + 1)
    }
}

/// The name under a key that holds a text or a list of names.
pub open spec fn member_name(
    m: Seq<(Seq<char>, Option<Seq<char>>, Option<Seq<Option<Seq<char>>>>)>,
    key: Seq<char>,
) -> Seq<char> {
    let i = member_at(m, key, 0);
    if i < m.len() && m[i].2 is Some {
        first_text(m[i].2->0, 0)
    } else {
        member_text(m, key)
    }
}

/// The container that the members of an object describe; none without an id
/// and a name.
pub open spec fn described(
    m: Seq<(Seq<char>, Option<Seq<char>>, Option<Seq<Option<Seq<char>>>>)>,
    runtime: Seq<char>,
) -> Option<ContainerView> {
    let id = member_text(m, "ID"@);
    let name = member_name(m, "Names"@);
    if id.len() == 0 && name.len() == 0 {
        None
    } else {
        Some(
            ContainerView {
                runtime,
                id,
                name,
                image: member_text(m, "Image"@),
                state: member_text(m, "State"@),
                status: member_text(m, "Status"@),
                ports: member_text(m, "Ports"@),
            },
        )
    }
}

/// What an optional container shows.
pub open spec fn opt_container(c: Option<Container>) -> Option<ContainerView> {
    match c {
        Some(x) => Some(x@),
        None => None,
    }
}

fn find_member(m: &Members, key: &str) -> (r: usize)
    ensures
        r == member_at(members_view(m@), key@, 0),
        r <= m@.len(),
{
    let ghost all = members_view(m@);
    let mut i: usize = 0;
    while i < m.len()
        invariant
            all == members_view(m@),
            i <= m@.len(),
            member_at(all, key@, 0) == member_at(all, key@, i as int),
        decreases m@.len() - i,
    {
        assert(all[i as int].0 == m@[i as int].0@);
        if same_str(m[i].0.as_str(), key) {
            return i;
        }
        i += 1;
    }
    i
}

fn text_at(m: &Members, key: &str) -> (r: String)
    ensures
        r@ == member_text(members_view(m@), key@),
{
    let i = find_member(m, key);
    if i < m.len() {
        assert(members_view(m@)[i as int].1 == text::opt(m@[i as int].1));
        match &m[i].1 {
            Some(t) => t.clone(),
            None => {
                let r = String::new();
                assert(r@ =~= member_text(members_view(m@), key@));
                r
            },
        }
    } else {
        let r = String::new();
        assert(r@ =~= member_text(members_view(m@), key@));
        r
    }
}

fn first_item(a: &Vec<Option<String>>) -> (r: String)
    ensures
        r@ == first_text(items_view(a@), 0),
{
    let ghost all = items_view(a@);
    let mut i: usize = 0;
    while i < a.len()
        invariant
            all == items_view(a@),
            i <= a@.len(),
            first_text(all, 0) == first_text(all, i as int),
        decreases a@.len() - i,
    {
        assert(all[i as int] == text::opt(a@[i as int]));
        if let Some(t) = &a[i] {
            return t.clone();
        }
        i += 1;
    }
    let r = String::new();
    assert(r@ =~= first_text(all, i as int));
    r
}

fn name_at(m: &Members, key: &str) -> (r: String)
    ensures
        r@ == member_name(members_view(m@), key@),
{
    let i = find_member(m, key);
    if i < m.len() {
        assert(members_view(m@)[i as int].2 == match m@[i as int].2 {
            Some(a) => Some(items_view(a@)),
            None => None,
        });
        if let Some(a) = &m[i].2 {
            return first_item(a);
        }
    }
    text_at(m, key)
}

/// The container that the members of an object describe. See the spec
/// function `described`.
pub fn container_from_members(m: &Members, runtime: &str) -> (r: Option<Container>)
    ensures
        opt_container(r) == described(members_view(m@), runtime@),
{
    let id = text_at(m, "ID");
    let name = name_at(m, "Names");
    if id.as_str().is_empty() && name.as_str().is_empty() {
        return None;
    }
    Some(
        Container {
            runtime: text(runtime),
            id,
            name,
            image: text_at(m, "Image"),
            state: text_at(m, "State"),
            status: text_at(m, "Status"),
            ports: text_at(m, "Ports"),
        },
    )
}

/// The container that one line of a runtime's listing describes.
pub open spec fn line_container(line: Seq<char>, runtime: Seq<char>) -> Option<ContainerView> {
    match json_members(text::trim(line, Class::White)) {
        Some(m) => described(m, runtime),
        None => None,
    }
}

/// Parse one `{{json .}}` line from docker/podman/nerdctl.
pub fn parse_container_line(line: &str, runtime: &str) -> (r: Option<Container>)
    ensures
        opt_container(r) == line_container(line@, runtime@),
{
    let c = chars_of(line);
    let t = string_of(cut(c.as_slice(), Class::White));
    match parse_members(t.as_str()) {
        Some(m) => container_from_members(&m, runtime),
        None => None,
    }
}

/// The containers among the first `n` lines of a listing.
pub open spec fn listed_containers(
    ls: Seq<Seq<char>>,
    runtime: Seq<char>,
    n: int,
) -> Seq<ContainerView>
    decreases n,
{
    if n <= 0 {
        seq![]
    } else {
        match line_container(ls[n - 1], runtime) {
            Some(c) => listed_containers(ls, runtime, n - 1).push(c),
            None => listed_containers(ls, runtime, n - 1),
        }
    }
}

/// Reads the listing of one runtime, one JSON object per line, and appends
/// its containers.
pub fn read_containers(listing: &str, runtime: &str, out: &mut Vec<Container>)
    ensures
        text::views(final(out)@) == text::views(old(out)@) + listed_containers(
            text::lines(listing@),
            runtime@,
            text::lines(listing@).len() as int,
        ),
{
    broadcast use crate::text::group_views;

    let c = chars_of(listing);
    let ls = lines_of(c.as_slice());
    let ghost all = text::lines(listing@);
    assert(all.len() == ls@.len());
    let ghost start = text::views(out@);
    let mut i: usize = 0;
    assert(start + listed_containers(all, runtime@, 0) =~= start);
    while i < ls.len()
        invariant
            text::pieces(ls@) == all,
            all.len() == ls@.len(),
            i <= ls@.len(),
            text::views(out@) == start + listed_containers(all, runtime@, i as int),
        decreases ls@.len() - i,
    {
        let line = ls[i];
        assert(line@ == all[i as int]);
        let s = string_of(line);
        if let Some(x) = parse_container_line(s.as_str(), runtime) {
            let ghost before = text::views(out@);
            let ghost xv = x@;
            out.push(x);
            assert(text::views(out@) == before.push(xv));
            assert(before.push(xv) =~= start + listed_containers(all, runtime@, i as int).push(xv));
        }
        i += 1;
    }
}

/// What listings show: each a runtime and what it printed.
pub open spec fn listings_view(v: Seq<(String, String)>) -> Seq<(Seq<char>, Seq<char>)> {
    Seq::new(v.len(), |i: int| (v[i].0@, v[i].1@))
}

/// The containers of the first `n` listings, each a runtime and what it
/// printed.
pub open spec fn all_containers(
    listings: Seq<(Seq<char>, Seq<char>)>,
    n: int,
) -> Seq<ContainerView>
    decreases n,
{
    if n <= 0 {
        seq![]
    } else {
        let ls = text::lines(listings[n - 1].1);
        all_containers(listings, n - 1) + listed_containers(
            ls,
            listings[n - 1].0,
            ls.len() as int,
        )
    }
}

/// Containers from the listings of every runtime that answered
/// (`ps --all --format '{{json .}}'`, one JSON object per line).
pub fn enumerate_containers(listings: &Vec<(String, String)>) -> (r: Vec<Container>)
    ensures
        text::views(r@) == sorted_containers(
            all_containers(listings_view(listings@), listings@.len() as int),
        ),
{
    broadcast use crate::text::group_views;

    let ghost all = listings_view(listings@);
    let mut out: Vec<Container> = Vec::new();
    let mut i: usize = 0;
    while i < listings.len()
        invariant
            all == listings_view(listings@),
            i <= listings@.len(),
            text::views(out@) == all_containers(all, i as int),
        decreases listings@.len() - i,
    {
        assert(all[i as int] == (listings@[i as int].0@, listings@[i as int].1@));
        read_containers(listings[i].1.as_str(), listings[i].0.as_str(), &mut out);
        i += 1;
    }
    sort_containers(&out)
}

/// The sort keys of containers: running ones first, then runtime and name.
pub open spec fn container_keys(v: Seq<ContainerView>) -> Seq<order::Key> {
    Seq::new(
        v.len(),
        |i: int|
            seq![
                seq![if v[i].state == "running"@ {
                    0i64
                } else {
                    1i64
                }],
                order::text_field(v[i].runtime),
                order::text_field(v[i].name),
            ],
    )
}

/// The containers in the order in which they are shown.
pub open spec fn sorted_containers(v: Seq<ContainerView>) -> Seq<ContainerView> {
    order::arranged(v, order::sorted(order::all_positions(v.len()), container_keys(v), false))
}

/// Running containers first, then by runtime and name.
pub fn sort_containers(v: &Vec<Container>) -> (r: Vec<Container>)
    ensures
        text::views(r@) == sorted_containers(text::views(v@)),
{
    broadcast use crate::order::keys_view_push;

    let ghost all = text::views(v@);
    let mut keys: Vec<Vec<Vec<i64>>> = Vec::new();
    let mut i: usize = 0;
    assert(order::keys_view(keys@) =~= container_keys(all).take(0));
    while i < v.len()
        invariant
            all == text::views(v@),
            i <= v@.len(),
            keys@.len() == i,
            order::keys_view(keys@) == container_keys(all).take(i as int),
        decreases v@.len() - i,
    {
        assert(all[i as int] == v@[i as int]@);
        let first: i64 = if same_str(v[i].state.as_str(), "running") {
            0
        } else {
            1
        };
        let k = key_of_three(
            field_of_number(first),
            field_of_text(v[i].runtime.as_str()),
            field_of_text(v[i].name.as_str()),
        );
        keys.push(k);
        assert(container_keys(all).take(i + 1) =~= container_keys(all).take(i as int).push(
            container_keys(all)[i as int],
        ));
        i += 1;
    }
    assert(container_keys(all).take(i as int) =~= container_keys(all));
    let idx = positions(v.len());
    let o = sort(&idx, &keys, false);
    let mut out: Vec<Container> = Vec::new();
    let mut j: usize = 0;
    while j < o.len()
        invariant
            all == text::views(v@),
            forall|x: int| 0 <= x < o@.len() ==> #[trigger] o@[x] < v@.len(),
            j <= o@.len(),
            out@.len() == j,
            forall|x: int| 0 <= x < j ==> (#[trigger] out@[x])@ == all[o@[x] as int],
        decreases o@.len() - j,
    {
        assert(o@[j as int] < v@.len());
        out.push(v[o[j]].clone());
        j += 1;
    }
    assert(text::views(out@) =~= sorted_containers(all));
    out
}

/// A running container stands before every one that is not running.
pub proof fn running_containers_come_first(v: Seq<ContainerView>, i: int, j: int)
    requires
        0 <= i < j < v.len(),
        v.len() <= usize::MAX,
        sorted_containers(v)[j].state == "running"@,
    ensures
        sorted_containers(v)[i].state == "running"@,
{
    let idx = order::all_positions(v.len());
    let keys = container_keys(v);
    order::sorting_is_stable(idx, keys, false);
    let s = order::sorted(idx, keys, false);
    assert(order::in_order(s[i], s[j], keys, false));
    assert(s.contains(s[i]) && s.contains(s[j]));
    let a = v[s[i] as int];
    let ka = keys[s[i] as int];
    let kb = keys[s[j] as int];
    if a.state != "running"@ {
        assert(ka[0] == seq![1i64]);
        assert(kb[0] == seq![0i64]);
        assert(order::field_order(ka[0], kb[0], 0) == 1);
        assert(order::key_order(ka, kb, 0) == 1);
    }
}

/// Sockets are listed by protocol and, within one, by port; none is lost.
pub proof fn sockets_are_in_order(v: Seq<SocketView>, i: int, j: int)
    requires
        v.len() <= usize::MAX,
        0 <= i < j < v.len(),
    ensures
        ({
            let s = sorted_sockets(v);
            let (a, b) = (order::text_field(s[i].proto), order::text_field(s[j].proto));
            &&& s.len() == v.len()
            &&& order::field_order(a, b, 0) <= 0
            &&& s[i].proto == s[j].proto ==> s[i].local_port <= s[j].local_port
            &&& s.contains(v[i]) && s.contains(v[j])
            &&& v.contains(s[i]) && v.contains(s[j])
        }),
{
    let keys = socket_keys(v);
    let idx = order::sorted(order::all_positions(v.len()), keys, false);
    let s = sorted_sockets(v);
    order::sorted_keys_go_one_way(v.len(), keys, false, i, j);
    order::sorting_loses_nothing(v.len(), keys, false, i as usize);
    order::sorting_loses_nothing(v.len(), keys, false, j as usize);
    let (x, y) = (idx[i] as int, idx[j] as int);
    let (a, b) = (order::text_field(v[x].proto), order::text_field(v[y].proto));
    let (p, q) = (seq![v[x].local_port as i64], seq![v[y].local_port as i64]);
    let none = Seq::<Seq<i64>>::empty();
    assert(keys[x] =~= none + (seq![a] + seq![p]));
    assert(keys[y] =~= none + (seq![b] + seq![q]));
    order::first_field_decides(none, a, seq![p], b, seq![q]);
    if v[x].proto == v[y].proto {
        let front = seq![a];
        assert(keys[x] =~= front + (seq![p] + none));
        assert(keys[y] =~= front + (seq![q] + none));
        order::first_field_decides(front, p, none, q, none);
        let e = Seq::<i64>::empty();
        order::first_difference_decides(
            e,
            v[x].local_port as i64,
            e,
            v[y].local_port as i64,
            e,
        );
        assert(e + (seq![v[x].local_port as i64] + e) =~= p);
        assert(e + (seq![v[y].local_port as i64] + e) =~= q);
    }
    let k = choose|k: int| 0 <= k < idx.len() && idx[k] == i as usize;
    assert(s[k] == v[i]);
    let l = choose|l: int| 0 <= l < idx.len() && idx[l] == j as usize;
    assert(s[l] == v[j]);
    assert(v[x] == s[i] && v[y] == s[j]);
}

/// Containers are listed by whether they run, then by runtime, then by name;
/// none is lost.
pub proof fn containers_are_in_order(v: Seq<ContainerView>, i: int, j: int)
    requires
        v.len() <= usize::MAX,
        0 <= i < j < v.len(),
    ensures
        ({
            let s = sorted_containers(v);
            let up = "running"@;
            &&& s.len() == v.len()
            &&& s[j].state == up ==> s[i].state == up
            &&& (s[i].state == up) == (s[j].state == up) ==> order::field_order(
                order::text_field(s[i].runtime),
                order::text_field(s[j].runtime),
                0,
            ) <= 0
            &&& (s[i].state == up) == (s[j].state == up) && s[i].runtime == s[j].runtime
                ==> order::field_order(
                order::text_field(s[i].name),
                order::text_field(s[j].name),
                0,
            ) <= 0
            &&& s.contains(v[i]) && s.contains(v[j])
            &&& v.contains(s[i]) && v.contains(s[j])
        }),
{
    running_containers_come_first_or_not(v, i, j);
    let keys = container_keys(v);
    let idx = order::sorted(order::all_positions(v.len()), keys, false);
    let s = sorted_containers(v);
    order::sorted_keys_go_one_way(v.len(), keys, false, i, j);
    order::sorting_loses_nothing(v.len(), keys, false, i as usize);
    order::sorting_loses_nothing(v.len(), keys, false, j as usize);
    let (x, y) = (idx[i] as int, idx[j] as int);
    let none = Seq::<Seq<i64>>::empty();
    if (v[x].state == "running"@) == (v[y].state == "running"@) {
        let front = seq![keys[x][0]];
        let (a, b) = (order::text_field(v[x].runtime), order::text_field(v[y].runtime));
        let (m, n) = (order::text_field(v[x].name), order::text_field(v[y].name));
        assert(keys[x] =~= front + (seq![a] + seq![m]));
        assert(keys[y] =~= front + (seq![b] + seq![n]));
        order::first_field_decides(front, a, seq![m], b, seq![n]);
        if v[x].runtime == v[y].runtime {
            let two = seq![keys[x][0], a];
            assert(keys[x] =~= two + (seq![m] + none));
            assert(keys[y] =~= two + (seq![n] + none));
            order::first_field_decides(two, m, none, n, none);
        }
    }
    let k = choose|k: int| 0 <= k < idx.len() && idx[k] == i as usize;
    assert(s[k] == v[i]);
    let l = choose|l: int| 0 <= l < idx.len() && idx[l] == j as usize;
    assert(s[l] == v[j]);
    assert(v[x] == s[i] && v[y] == s[j]);
}

proof fn running_containers_come_first_or_not(v: Seq<ContainerView>, i: int, j: int)
    requires
        v.len() <= usize::MAX,
        0 <= i < j < v.len(),
    ensures
        sorted_containers(v)[j].state == "running"@ ==> sorted_containers(v)[i].state
            == "running"@,
{
    if sorted_containers(v)[j].state == "running"@ {
        running_containers_come_first(v, i, j);
    }
}

proof fn member_is_where(
    m: Seq<(Seq<char>, Option<Seq<char>>, Option<Seq<Option<Seq<char>>>>)>,
    key: Seq<char>,
    at: int,
    i: int,
)
    requires
        0 <= i <= at <= m.len(),
        forall|j: int| 0 <= j < at ==> (#[trigger] m[j]).0 != key,
        at < m.len() ==> m[at].0 == key,
    ensures
        member_at(m, key, i) == at,
    decreases at - i,
{
    if i < at {
        member_is_where(m, key, at, i + 1);
    }
}

/// The text under a key is that of the first member with the key; without such
/// a member, or where it is no text, it is empty. A list of names stands for
/// the first text in it.
pub proof fn member_is_found_by_its_key(
    m: Seq<(Seq<char>, Option<Seq<char>>, Option<Seq<Option<Seq<char>>>>)>,
    key: Seq<char>,
    at: int,
)
    requires
        0 <= at <= m.len(),
        forall|j: int| 0 <= j < at ==> (#[trigger] m[j]).0 != key,
        at < m.len() ==> m[at].0 == key,
    ensures
        at == m.len() ==> member_text(m, key).len() == 0 && member_name(m, key).len() == 0,
        at < m.len() && m[at].1 is Some ==> member_text(m, key) == m[at].1->0,
        at < m.len() && m[at].1 is None ==> member_text(m, key).len() == 0,
        at < m.len() && m[at].2 is None ==> member_name(m, key) == member_text(m, key),
        at < m.len() ==> (m[at].2 matches Some(a) ==> (a.len() == 0 ==> member_name(m, key).len()
            == 0) && (a.len() > 0 && a[0] is Some ==> member_name(m, key) == a[0]->0)),
{
    member_is_where(m, key, at, 0);
}

/// A container has an id or a name; it is described by the members of the
/// object that are called after its fields.
pub proof fn container_is_what_its_members_say(
    m: Seq<(Seq<char>, Option<Seq<char>>, Option<Seq<Option<Seq<char>>>>)>,
    runtime: Seq<char>,
)
    ensures
        described(m, runtime) is None <==> member_text(m, "ID"@).len() == 0 && member_name(
            m,
            "Names"@,
        ).len() == 0,
        described(m, runtime) matches Some(c) ==> c.runtime == runtime && c.id == member_text(
            m,
            "ID"@,
        ) && c.name == member_name(m, "Names"@) && c.image == member_text(m, "Image"@) && c.state
            == member_text(m, "State"@) && c.status == member_text(m, "Status"@) && c.ports
            == member_text(m, "Ports"@),
{
}

proof fn containers_prefix(ls: Seq<Seq<char>>, line: Seq<char>, runtime: Seq<char>, n: int)
    requires
        n <= ls.len(),
    ensures
        listed_containers(ls.push(line), runtime, n) == listed_containers(ls, runtime, n),
    decreases n,
{
    if n > 0 {
        containers_prefix(ls, line, runtime, n - 1);
    }
}

/// Every line of a listing adds the container that it describes, in the order
/// of the lines; a line that is no JSON text, or describes none, adds nothing.
pub proof fn lines_tell_the_containers(ls: Seq<Seq<char>>, line: Seq<char>, runtime: Seq<char>)
    ensures
        listed_containers(ls, runtime, 0) == Seq::<ContainerView>::empty(),
        ({
            let before = listed_containers(ls, runtime, ls.len() as int);
            let after = listed_containers(ls.push(line), runtime, ls.len() as int + 1);
            match json_members(text::trim(line, Class::White)) {
                Some(m) => after == (match described(m, runtime) {
                    Some(c) => before.push(c),
                    None => before,
                }),
                None => after == before,
            }
        }),
{
    containers_prefix(ls, line, runtime, ls.len() as int);
}

proof fn listings_prefix(
    listings: Seq<(Seq<char>, Seq<char>)>,
    l: (Seq<char>, Seq<char>),
    n: int,
)
    requires
        n <= listings.len(),
    ensures
        all_containers(listings.push(l), n) == all_containers(listings, n),
    decreases n,
{
    if n > 0 {
        listings_prefix(listings, l, n - 1);
    }
}

/// The containers of all runtimes are those of each, one listing behind the
/// other.
pub proof fn every_runtime_counts(
    listings: Seq<(Seq<char>, Seq<char>)>,
    runtime: Seq<char>,
    printed: Seq<char>,
)
    ensures
        all_containers(listings, 0) == Seq::<ContainerView>::empty(),
        all_containers(listings.push((runtime, printed)), listings.len() as int + 1)
            == all_containers(listings, listings.len() as int) + listed_containers(
            text::lines(printed),
            runtime,
            text::lines(printed).len() as int,
        ),
{
    listings_prefix(listings, (runtime, printed), listings.len() as int);
}

/// An error tells its message, and that of a missing capability or permission
/// what it is.
pub proof fn errors_tell_their_message(m: Seq<char>)
    ensures
        PlatErrorView::Failed(m).words() == m,
        text::ends_with(PlatErrorView::Permission(m).words(), m),
        text::starts_with(PlatErrorView::Permission(m).words(), "permission denied: "@),
        text::ends_with(PlatErrorView::Unsupported(m).words(), m),
        text::starts_with(
            PlatErrorView::Unsupported(m).words(),
            "not supported on this platform: "@,
        ),
{
    let a = "permission denied: "@;
    let b = "not supported on this platform: "@;
    text::holding_is_standing_between(a + m, a);
    text::holding_is_standing_between(a + m, m);
    text::holding_is_standing_between(b + m, b);
    text::holding_is_standing_between(b + m, m);
}

} // verus!
