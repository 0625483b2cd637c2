//! What the command line's verbs share: the packages in flight, the tasks around an install, and
//! the lines that are reported.

use crate::dependency::Range;
use crate::path::file_name;
use crate::registry::{Registry, Resolved, ResolvedView};
use crate::source::{BareToken, PathKind, Source};
use crate::text::{after_prefix, before, is_listed, join, number_text, same, split_once, Text};
use vstd::prelude::*;
use vstd::string::*;

verus! {

// ---------------------------------------------------------------------------
// Hosts and names
// ---------------------------------------------------------------------------

/// A URL without its scheme.
pub open spec fn without_scheme(url: Text) -> Text {
    if crate::text::begins(url, "https://"@) {
        url.skip("https://"@.len() as int)
    } else if crate::text::begins(url, "http://"@) {
        url.skip("http://"@.len() as int)
    } else {
        url
    }
}

/// The host of a URL: what stands between its scheme and its path.
pub open spec fn host(url: Text) -> Text {
    let rest = without_scheme(url);
    match crate::text::first_occurrence(rest, "/"@) {
        Some(i) => rest.take(i),
        None => rest,
    }
}

/// The host of a URL.
pub fn host_of(url: &str) -> (r: String)
    ensures
        r@ == host(url@),
{
    let rest = match after_prefix(url, "https://") {
        Some(rest) => rest,
        None => match after_prefix(url, "http://") {
            Some(rest) => rest,
            None => url.to_owned(),
        },
    };
    proof {
        reveal_strlit("/");
    }
    match split_once(rest.as_str(), "/") {
        Some((host, _)) => host,
        None => rest,
    }
}

/// The name of a project at the real path `canonical`: the directory's own, or else `app`.
pub open spec fn project_name(canonical: Option<Text>) -> Text {
    match canonical {
        Some(path) => match crate::path::entry_name(path) {
            Some(name) => if name.len() > 0 {
                name
            } else {
                "app"@
            },
            None => "app"@,
        },
        None => "app"@,
    }
}

/// The name of a project, given the real path of its directory, if it has one.
pub fn default_name(canonical: Option<String>) -> (r: String)
    ensures
        r@ == project_name(crate::text::optional_text(canonical)),
{
    if let Some(path) = canonical {
        if let Some(name) = file_name(path.as_str()) {
            if !name.as_str().is_empty() {
                return name;
            }
        }
    }
    "app".to_owned()
}

// ---------------------------------------------------------------------------
// Packages in flight
// ---------------------------------------------------------------------------

/// Every name stands after the one before it.
pub open spec fn ascending(names: Seq<Text>) -> bool {
    forall|i: int, j: int|
        #![trigger names[i], names[j]]
        0 <= i < j < names.len() ==> crate::text::precedes(names[i], names[j])
}

/// The names of the packages that are being fetched, in order and each once.
#[derive(Debug, PartialEq, Eq)]
pub struct InFlight {
    names: Vec<String>,
}

impl View for InFlight {
    type V = Seq<Text>;

    closed spec fn view(&self) -> Seq<Text> {
        crate::text::texts(self.names@)
    }
}

/// What the detail line shows: the first three names, and how many more there are.
pub open spec fn in_flight_text(names: Seq<Text>) -> Text {
    if names.len() == 0 {
        Seq::empty()
    } else if names.len() <= 3 {
        "fetching "@ + crate::text::joined(names, ", "@)
    } else {
        "fetching "@ + crate::text::joined(names.take(3), ", "@) + " (+"@ + crate::text::decimal(
            (names.len() - 3) as nat,
        ) + " more)"@
    }
}

impl InFlight {
    /// The names are in order.
    #[verifier::type_invariant]
    spec fn is_ordered(self) -> bool {
        ascending(crate::text::texts(self.names@))
    }

    /// Nothing is in flight.
    pub fn new() -> (r: InFlight)
        ensures
            r@ == Seq::<Text>::empty(),
            ascending(r@),
    {
        let names: Vec<String> = Vec::new();
        assert(crate::text::texts(names@) == Seq::<Text>::empty());
        InFlight { names }
    }

    /// The same names with `name` among them.
    pub fn with(self, name: &str) -> (r: InFlight)
        ensures
            ascending(r@),
            forall|n: Text| #[trigger] r@.contains(n) <==> n == name@ || self@.contains(n),
    {
        proof {
            use_type_invariant(&self);
        }
        let mut names = self.names;
        let ghost all = crate::text::texts(names@);
        let mut at: usize = 0;
        while at < names.len() && before(names[at].as_str(), name)
            invariant
                at <= names@.len(),
                all == crate::text::texts(names@),
                forall|k: int|
                    0 <= k < at ==> crate::text::precedes(#[trigger] all[k], name@),
            decreases names@.len() - at,
        {
            at = at + 1;
        }
        if at < names.len() && same(names[at].as_str(), name) {
            assert(all[at as int] == name@);
            return InFlight { names };
        }
        let ghost listed = names@;
        names.insert(at, name.to_owned());
        let ghost now = crate::text::texts(names@);
        proof {
            assert(now == all.insert(at as int, name@));
            assert(now[at as int] == name@);
            lemma_inserted_is_ascending(all, at as int, name@);
            assert forall|n: Text| #[trigger] now.contains(n) <==> n == name@ || all.contains(
                n,
            ) by {
                if all.contains(n) {
                    let k = choose|k: int| 0 <= k < all.len() && all[k] == n;
                    assert(now[if k < at {
                        k
                    } else {
                        k + 1
                    }] == n);
                }
                if now.contains(n) && n != name@ {
                    let k = choose|k: int| 0 <= k < now.len() && now[k] == n;
                    assert(all[if k < at {
                        k
                    } else {
                        k - 1
                    }] == n);
                }
            }
        }
        InFlight { names }
    }

    /// The same names without `name`.
    pub fn without(self, name: &str) -> (r: InFlight)
        ensures
            ascending(r@),
            forall|n: Text| #[trigger] r@.contains(n) <==> n != name@ && self@.contains(n),
    {
        proof {
            use_type_invariant(&self);
        }
        let mut names = self.names;
        let ghost all = crate::text::texts(names@);
        let mut at: usize = 0;
        while at < names.len()
            invariant
                at <= names@.len(),
                all == crate::text::texts(names@),
                all == self@,
                ascending(all),
                forall|k: int| 0 <= k < at ==> #[trigger] all[k] != name@,
            decreases names@.len() - at,
        {
            if same(names[at].as_str(), name) {
                assert(all[at as int] == name@);
                let removed = names.remove(at);
                let ghost now = crate::text::texts(names@);
                proof {
                    assert(now == all.remove(at as int));
                    assert forall|i: int, j: int|
                        #![trigger now[i], now[j]]
                        0 <= i < j < now.len() implies crate::text::precedes(now[i], now[j]) by {
                        let a = if i < at { i } else { i + 1 };
                        let b = if j < at { j } else { j + 1 };
                        assert(now[i] == all[a] && now[j] == all[b]);
                    }
                    assert forall|n: Text| #[trigger] now.contains(n) <==> n != name@
                        && all.contains(n) by {
                        if now.contains(n) {
                            let k = choose|k: int| 0 <= k < now.len() && now[k] == n;
                            let a = if k < at { k } else { k + 1 };
                            assert(all[a] == n);
                            if a < at {
                                crate::text::law_text_order_is_total(
                                    all[a],
                                    all[at as int],
                                    all[a],
                                );
                            } else {
                                crate::text::law_text_order_is_total(
                                    all[at as int],
                                    all[a],
                                    all[a],
                                );
                            }
                        }
                        if all.contains(n) && n != name@ {
                            let k = choose|k: int| 0 <= k < all.len() && all[k] == n;
                            assert(now[if k < at {
                                k
                            } else {
                                k - 1
                            }] == n);
                        }
                    }
                }
                return InFlight { names };
            }
            at = at + 1;
        }
        InFlight { names }
    }
}

/// Putting a name between those before it and those after it keeps the order.
proof fn lemma_inserted_is_ascending(names: Seq<Text>, at: int, name: Text)
    requires
        ascending(names),
        0 <= at <= names.len(),
        forall|k: int| 0 <= k < at ==> crate::text::precedes(#[trigger] names[k], name),
        at < names.len() ==> !crate::text::precedes(names[at], name) && names[at] != name,
    ensures
        ascending(names.insert(at, name)),
{
    let now = names.insert(at, name);
    assert forall|i: int, j: int|
        #![trigger now[i], now[j]]
        0 <= i < j < now.len() implies crate::text::precedes(now[i], now[j]) by {
        if j == at {
            assert(now[i] == names[i]);
        } else if i == at {
            assert(now[j] == names[j - 1]);
            crate::text::law_text_order_is_total(name, names[at], names[j - 1]);
        } else {
            let a = if i < at { i } else { i - 1 };
            let b = if j < at { j } else { j - 1 };
            assert(now[i] == names[a] && now[j] == names[b]);
        }
    }
}

/// The detail line for the packages in flight: the first three names, and how many more there
/// are; empty when there are none.
pub fn render_in_flight(set: &InFlight) -> (r: String)
    ensures
        r@ == in_flight_text(set@),
{
    let count: usize = set.names.len();
    if count == 0 {
        let empty = String::new();
        assert(empty@ == Seq::<char>::empty());
        return empty;
    }
    let mut out = "fetching ".to_owned();
    if count <= 3 {
        out.append(join(&set.names, ", ").as_str());
        return out;
    }
    let mut shown: Vec<String> = Vec::new();
    shown.push(set.names[0].clone());
    shown.push(set.names[1].clone());
    shown.push(set.names[2].clone());
    assert(crate::text::texts(shown@) == set@.take(3));
    out.append(join(&shown, ", ").as_str());
    out.append(" (+");
    out.append(number_text((count - 3) as u64).as_str());
    out.append(" more)");
    out
}

// ---------------------------------------------------------------------------
// Tasks
// ---------------------------------------------------------------------------

/// An event of a dependency walk.
#[derive(Debug, Clone, PartialEq, Eq)]
pub enum ResolveEvent {
    /// A package's document is being fetched.
    FetchBegin { name: String },
    /// It is no longer being fetched.
    FetchDone { name: String },
    /// A package was resolved; `count` says how many are, with it.
    Resolved { count: usize, name: String, version: String },
}

/// What a walk's event does to the task that shows the walk.
#[derive(Debug, Clone, PartialEq, Eq)]
pub enum Tick {
    /// The detail line changes.
    Detail(String),
    /// One more item is counted.
    Count(String),
}

/// `tick` shows `event`, after which `names` are in flight.
pub open spec fn shows(tick: Tick, event: ResolveEvent, names: Seq<Text>) -> bool {
    match event {
        ResolveEvent::Resolved { name, version, .. } => tick matches Tick::Count(item) && item@
            == name@ + "@"@ + version@,
        _ => tick matches Tick::Detail(text) && text@ == in_flight_text(names),
    }
}

/// `after` is what is in flight when `event` has come to `names`.
pub open spec fn flies(names: Seq<Text>, event: ResolveEvent, after: Seq<Text>) -> bool {
    match event {
        ResolveEvent::FetchBegin { name } => forall|n: Text| #[trigger]
            after.contains(n) <==> n == name@ || names.contains(n),
        ResolveEvent::FetchDone { name } => forall|n: Text| #[trigger]
            after.contains(n) <==> n != name@ && names.contains(n),
        ResolveEvent::Resolved { .. } => after == names,
    }
}

fn labelled(name: &str, version: &str) -> (r: String)
    ensures
        r@ == name@ + "@"@ + version@,
{
    let mut out = name.to_owned();
    out.append("@");
    out.append(version);
    out
}

/// What an event does to the packages in flight and to the task.
pub fn tick_resolve(in_flight: InFlight, event: &ResolveEvent) -> (r: (InFlight, Tick))
    ensures
        flies(in_flight@, *event, r.0@),
        ascending(in_flight@) ==> ascending(r.0@),
        shows(r.1, *event, r.0@),
{
    match event {
        ResolveEvent::FetchBegin { name } => {
            let now = in_flight.with(name.as_str());
            let text = render_in_flight(&now);
            (now, Tick::Detail(text))
        },
        ResolveEvent::FetchDone { name } => {
            let now = in_flight.without(name.as_str());
            let text = render_in_flight(&now);
            (now, Tick::Detail(text))
        },
        ResolveEvent::Resolved { name, version, .. } => {
            (in_flight, Tick::Count(labelled(name.as_str(), version.as_str())))
        },
    }
}

/// What happens to the pair of tasks around an install.
#[derive(Debug, Clone, PartialEq, Eq)]
pub enum SyncAction {
    /// The resolve task ends with this summary.
    FinishResolve(String),
    /// The install task begins, with this many packages.
    BeginInstall(usize),
    /// One package is counted on the install task.
    CountInstall(String),
    /// The install task ends with this summary.
    FinishInstall(String),
}

/// The mathematical value of a [`SyncAction`].
pub enum SyncActionView {
    FinishResolve(Text),
    BeginInstall(int),
    CountInstall(Text),
    FinishInstall(Text),
}

impl View for SyncAction {
    type V = SyncActionView;

    open spec fn view(&self) -> SyncActionView {
        match *self {
            SyncAction::FinishResolve(text) => SyncActionView::FinishResolve(text@),
            SyncAction::BeginInstall(total) => SyncActionView::BeginInstall(total as int),
            SyncAction::CountInstall(text) => SyncActionView::CountInstall(text@),
            SyncAction::FinishInstall(text) => SyncActionView::FinishInstall(text@),
        }
    }
}

/// The actions of a list.
pub open spec fn action_views(list: Seq<SyncAction>) -> Seq<SyncActionView> {
    Seq::new(list.len(), |i: int| list[i]@)
}

/// `n packages`.
pub open spec fn packages_text(n: int) -> Text {
    crate::text::decimal(n as nat) + " packages"@
}

fn packages_line(n: u64) -> (r: String)
    ensures
        r@ == packages_text(n as int),
{
    let mut out = number_text(n);
    out.append(" packages");
    out
}

/// The pair of tasks around an install. The resolve task is open from the start, and ends with
/// its count when the first package is installed or at the end; the install task begins with the
/// first package.
#[derive(Debug, PartialEq, Eq)]
pub struct SyncTasks {
    /// The resolve task is open.
    pub resolving: bool,
    /// How many packages it has counted.
    pub resolved: u64,
    /// The install task is open.
    pub installing: bool,
    /// What is being fetched.
    pub in_flight: InFlight,
}

/// What ends the resolve task, if it is open.
pub open spec fn resolve_ends(tasks: SyncTasks) -> Seq<SyncActionView> {
    if tasks.resolving {
        seq![SyncActionView::FinishResolve(packages_text(tasks.resolved as int))]
    } else {
        Seq::empty()
    }
}

/// The title of the resolve task.
pub open spec fn resolve_title_text(host: Text) -> Text {
    "resolving dependency tree from "@ + host
}

/// The title of the resolve task.
pub fn resolve_title(host: &str) -> (r: String)
    ensures
        r@ == resolve_title_text(host@),
{
    let mut out = "resolving dependency tree from ".to_owned();
    out.append(host);
    out
}

impl SyncTasks {
    /// The resolve task is open and nothing is counted.
    pub fn new() -> (r: SyncTasks)
        ensures
            r.resolving,
            r.resolved == 0,
            !r.installing,
            r.in_flight@ == Seq::<Text>::empty(),
            ascending(r.in_flight@),
    {
        SyncTasks { resolving: true, resolved: 0, installing: false, in_flight: InFlight::new() }
    }

    /// An event of the walk: shown on the resolve task while that is open.
    pub fn on_resolve(self, event: &ResolveEvent) -> (r: (SyncTasks, Option<Tick>))
        requires
            self.resolved < u64::MAX,
        ensures
            r.0.resolving == self.resolving,
            r.0.installing == self.installing,
            ascending(self.in_flight@) ==> ascending(r.0.in_flight@),
            !self.resolving ==> r.1 is None && r.0.resolved == self.resolved && r.0.in_flight@
                == self.in_flight@,
            self.resolving ==> {
                &&& r.1 matches Some(tick) && shows(tick, *event, r.0.in_flight@)
                &&& flies(self.in_flight@, *event, r.0.in_flight@)
                &&& r.0.resolved == self.resolved + if event is Resolved {
                    1int
                } else {
                    0
                }
            },
    {
        if !self.resolving {
            return (self, None);
        }
        let SyncTasks { resolving, resolved, installing, in_flight } = self;
        let count: u64 = match event {
            ResolveEvent::Resolved { .. } => resolved + 1,
            _ => resolved,
        };
        let (in_flight, tick) = tick_resolve(in_flight, event);
        (SyncTasks { resolving, resolved: count, installing, in_flight }, Some(tick))
    }

    /// A package is about to be installed, one of `total`. The first one ends the resolve task
    /// and begins the install task.
    pub fn on_install(self, total: usize, name: &str, version: &str) -> (r: (
        SyncTasks,
        Vec<SyncAction>,
    ))
        ensures
            r.0.installing,
            !self.installing ==> !r.0.resolving,
            self.installing ==> r.0.resolving == self.resolving,
            r.0.resolved == self.resolved,
            r.0.in_flight@ == self.in_flight@,
            action_views(r.1@) == (if self.installing {
                seq![SyncActionView::CountInstall(name@ + "@"@ + version@)]
            } else {
                resolve_ends(self) + seq![
                    SyncActionView::BeginInstall(total as int),
                    SyncActionView::CountInstall(name@ + "@"@ + version@),
                ]
            }),
    {
        let mut actions: Vec<SyncAction> = Vec::new();
        let ghost start = resolve_ends(self);
        let resolving = if self.installing {
            self.resolving
        } else {
            if self.resolving {
                actions.push(SyncAction::FinishResolve(packages_line(self.resolved)));
            }
            actions.push(SyncAction::BeginInstall(total));
            false
        };
        let item = labelled(name, version);
        let ghost text = item@;
        actions.push(SyncAction::CountInstall(item));
        proof {
            if self.installing {
                assert(action_views(actions@) == seq![SyncActionView::CountInstall(text)]);
            } else {
                assert(action_views(actions@) == start + seq![
                    SyncActionView::BeginInstall(total as int),
                    SyncActionView::CountInstall(text),
                ]);
            }
        }
        (
            SyncTasks {
                resolving,
                resolved: self.resolved,
                installing: true,
                in_flight: self.in_flight,
            },
            actions,
        )
    }

    /// The end: whichever tasks are open finish, the install task with how many packages were
    /// installed.
    pub fn done(self, installed: usize) -> (r: Vec<SyncAction>)
        ensures
            action_views(r@) == resolve_ends(self) + (if self.installing {
                seq![SyncActionView::FinishInstall(packages_text(installed as int))]
            } else {
                Seq::empty()
            }),
    {
        let mut actions: Vec<SyncAction> = Vec::new();
        if self.resolving {
            actions.push(SyncAction::FinishResolve(packages_line(self.resolved)));
        }
        if self.installing {
            actions.push(SyncAction::FinishInstall(packages_line(installed as u64)));
            assert(action_views(actions@) == resolve_ends(self) + seq![
                SyncActionView::FinishInstall(packages_text(installed as int)),
            ]);
        } else {
            assert(action_views(actions@) == resolve_ends(self));
        }
        actions
    }
}

// ---------------------------------------------------------------------------
// Reports
// ---------------------------------------------------------------------------

/// The lines that report an install: how many packages, and each of them.
pub open spec fn install_report(packages: Seq<ResolvedView>) -> Seq<Text> {
    Seq::new(
        packages.len() + 1,
        |i: int|
            if i == 0 {
                "installed "@ + crate::text::decimal(packages.len()) + " package(s)"@
            } else {
                "  "@ + packages[i - 1].name + "@"@ + packages[i - 1].version
            },
    )
}

/// Report an install: a line with the count, and one per package.
pub fn report_installed(installed: &Vec<Resolved>) -> (r: Vec<String>)
    ensures
        crate::text::texts(r@) == install_report(crate::walk::package_views(installed@)),
{
    let ghost packages = crate::walk::package_views(installed@);
    let ghost wanted = install_report(packages);
    let count: usize = installed.len();
    let mut lines: Vec<String> = Vec::new();
    let mut first = "installed ".to_owned();
    first.append(number_text(count as u64).as_str());
    first.append(" package(s)");
    lines.push(first);
    let mut i: usize = 0;
    assert(crate::text::texts(lines@) == wanted.take(1));
    while i < installed.len()
        invariant
            i <= installed@.len(),
            packages == crate::walk::package_views(installed@),
            wanted == install_report(packages),
            crate::text::texts(lines@) == wanted.take(i + 1),
        decreases installed@.len() - i,
    {
        let ghost earlier = lines@;
        let mut line = "  ".to_owned();
        line.append(installed[i].name.as_str());
        line.append("@");
        line.append(installed[i].version.as_str());
        assert(packages[i as int] == installed@[i as int]@);
        assert(line@ == wanted[i + 1]);
        lines.push(line);
        assert(crate::text::texts(lines@) == crate::text::texts(earlier).push(line@));
        assert(wanted.take(i + 2) == wanted.take(i + 1).push(wanted[i + 1]));
        i = i + 1;
    }
    assert(wanted.take(i + 1) == wanted);
    lines
}

/// The lines for the names of `asked` that were not removed, in order.
pub open spec fn not_removed(asked: Seq<Text>, removed: Seq<Text>) -> Seq<Text>
    decreases asked.len(),
{
    if asked.len() == 0 {
        Seq::empty()
    } else if removed.contains(asked.last()) {
        not_removed(asked.drop_last(), removed)
    } else {
        not_removed(asked.drop_last(), removed).push(
            asked.last() + ": not a dependency (skipped)"@,
        )
    }
}

/// The lines that report a removal: what was removed, then what was asked for and was no
/// dependency.
pub open spec fn removal_report(asked: Seq<Text>, removed: Seq<Text>) -> Seq<Text> {
    Seq::new(removed.len(), |i: int| "- "@ + removed[i]) + not_removed(asked, removed)
}

/// Report a removal.
pub fn report_removed(asked: &Vec<String>, removed: &Vec<String>) -> (r: Vec<String>)
    ensures
        crate::text::texts(r@) == removal_report(
            crate::text::texts(asked@),
            crate::text::texts(removed@),
        ),
{
    let ghost names = crate::text::texts(asked@);
    let ghost gone = crate::text::texts(removed@);
    let ghost first = Seq::new(gone.len(), |i: int| "- "@ + gone[i]);
    let mut lines: Vec<String> = Vec::new();
    let mut i: usize = 0;
    while i < removed.len()
        invariant
            i <= removed@.len(),
            gone == crate::text::texts(removed@),
            first == Seq::new(gone.len(), |k: int| "- "@ + gone[k]),
            crate::text::texts(lines@) == first.take(i as int),
        decreases removed@.len() - i,
    {
        let ghost earlier = lines@;
        let mut line = "- ".to_owned();
        line.append(removed[i].as_str());
        lines.push(line);
        assert(line@ == first[i as int]);
        assert(crate::text::texts(lines@) == crate::text::texts(earlier).push(line@));
        assert(first.take(i + 1) == first.take(i as int).push(first[i as int]));
        i = i + 1;
    }
    assert(first.take(i as int) == first);
    let mut k: usize = 0;
    assert(names.take(0).len() == 0);
    assert(crate::text::texts(lines@) == first + not_removed(names.take(0), gone));
    while k < asked.len()
        invariant
            k <= asked@.len(),
            names == crate::text::texts(asked@),
            gone == crate::text::texts(removed@),
            crate::text::texts(lines@) == first + not_removed(names.take(k as int), gone),
        decreases asked@.len() - k,
    {
        let ghost earlier = lines@;
        assert(names.take(k + 1).drop_last() == names.take(k as int));
        assert(names.take(k + 1).last() == asked@[k as int]@);
        if !is_listed(removed, asked[k].as_str()) {
            let mut line = asked[k].clone();
            line.append(": not a dependency (skipped)");
            lines.push(line);
            assert(crate::text::texts(lines@) == crate::text::texts(earlier).push(line@));
            assert(first + not_removed(names.take(k as int), gone).push(line@) == (first
                + not_removed(names.take(k as int), gone)).push(line@));
        }
        k = k + 1;
    }
    assert(names.take(k as int) == names);
    lines
}

/// The line that reports an upgrade: `name: from → to`.
pub open spec fn upgrade_text(name: Text, from: Text, to: Text) -> Text {
    name + ": "@ + from + " → "@ + to
}

/// Report an upgrade.
pub fn report_upgraded(name: &str, from: &str, to: &str) -> (r: String)
    ensures
        r@ == upgrade_text(name@, from@, to@),
{
    let mut out = name.to_owned();
    out.append(": ");
    out.append(from);
    out.append(" → ");
    out.append(to);
    out
}

/// What an install does about `package-lock.json`.
#[derive(Debug, Clone, Copy, PartialEq, Eq)]
pub enum InstallMode {
    /// Install from the manifest and leave any lockfile alone.
    WithoutLockfile,
    /// Write the lockfile and install nothing.
    LockfileOnly,
    /// Write the lockfile and install what it pins.
    Sync,
}

/// What the flags select; leaving the lockfile alone comes first.
pub fn install_mode(lockfile_only: bool, no_lockfile: bool) -> (r: InstallMode)
    ensures
        r == (if no_lockfile {
            InstallMode::WithoutLockfile
        } else if lockfile_only {
            InstallMode::LockfileOnly
        } else {
            InstallMode::Sync
        }),
{
    if no_lockfile {
        InstallMode::WithoutLockfile
    } else if lockfile_only {
        InstallMode::LockfileOnly
    } else {
        InstallMode::Sync
    }
}

// ---------------------------------------------------------------------------
// Recording packages
// ---------------------------------------------------------------------------

/// The packages to record, each with its range, and why there are no more, if there are not.
#[derive(Debug, Clone, PartialEq, Eq)]
pub struct Added {
    pub list: Vec<(String, String)>,
    pub fault: Option<String>,
}

/// The range that a package is recorded with: the one that was given, or what its latest release
/// is compatible with.
pub open spec fn is_recorded<F: Fn(&str, Option<&str>) -> Result<Vec<u8>, String>>(
    fetch: F,
    registry: Registry,
    name: Text,
    range: Option<Text>,
    r: Result<(Text, Text), Text>,
) -> bool {
    match range {
        Some(range) => r == Ok::<(Text, Text), Text>((name, range)),
        None => exists|latest: Result<ResolvedView, Text>|
            #[trigger] crate::registry::is_resolution(
                fetch,
                registry,
                name,
                seq!["*"@],
                latest,
            ) && r == (match latest {
                Ok(package) => Ok((name, "^"@ + package.version)),
                Err(message) => Err(message),
            }),
    }
}

/// `r` is what `token` adds: a package with its range, or why not.
pub open spec fn adds<
    P: Fn(&str) -> Result<PathKind, String>,
    F: Fn(&str, Option<&str>) -> Result<Vec<u8>, String>,
>(
    probe: P,
    fetch: F,
    registry: Registry,
    token: Text,
    verb: Text,
    home: Option<Text>,
    r: Result<(Text, Text), Text>,
) -> bool {
    exists|parsed: Result<Source, String>|
        #[trigger] crate::source::is_parsed(token, BareToken::Spec, home, probe, parsed) && (
        match parsed {
            Err(message) => r == Err::<(Text, Text), Text>(message@),
            Ok(source) => match source@ {
                crate::source::SourceView::Spec(name, range) => is_recorded(
                    fetch,
                    registry,
                    name,
                    range,
                    r,
                ),
                _ => r == Err::<(Text, Text), Text>(
                    crate::source::spec_refusal(source@, verb)->0,
                ),
            },
        })
}

/// The value of a result.
pub open spec fn added_result(r: Result<(String, String), String>) -> Result<(Text, Text), Text> {
    match r {
        Ok((name, range)) => Ok((name@, range@)),
        Err(message) => Err(message@),
    }
}

/// What one token adds. `verb` is named in the error for a path.
pub fn add_spec<
    P: Fn(&str) -> Result<PathKind, String>,
    F: Fn(&str, Option<&str>) -> Result<Vec<u8>, String>,
>(
    token: &str,
    verb: &str,
    home: Option<String>,
    registry: &Registry,
    probe: &P,
    fetch: &F,
) -> (r: Result<(String, String), String>)
    requires
        crate::source::can_look_up(*probe, token@, BareToken::Spec),
        forall|u: &str, a: Option<&str>| #[trigger] call_requires(*fetch, (u, a)),
    ensures
        adds(
            *probe,
            *fetch,
            *registry,
            token@,
            verb@,
            crate::text::optional_text(home),
            added_result(r),
        ),
{
    let parsed = Source::parse_with(token, BareToken::Spec, home, probe);
    let ghost read = parsed;
    assert(crate::source::is_parsed(
        token@,
        BareToken::Spec,
        crate::text::optional_text(home),
        *probe,
        read,
    ));
    match parsed {
        Err(message) => Err(message),
        Ok(source) => match source.into_spec(verb) {
            Err(message) => Err(message),
            Ok((name, Some(range))) => Ok((name, range)),
            Ok((name, None)) => {
                let latest = registry.resolve(name.as_str(), &Range::any(), fetch);
                let ghost newest = crate::registry::resolved_result(latest);
                assert(crate::registry::is_resolution(
                    *fetch,
                    *registry,
                    name@,
                    seq!["*"@],
                    newest,
                ));
                match latest {
                    Err(message) => Err(message),
                    Ok(package) => {
                        let mut range = "^".to_owned();
                        range.append(package.version.as_str());
                        Ok((name, range))
                    },
                }
            },
        },
    }
}

/// What the tokens add, in order, up to the first that is refused.
pub fn add_specs<
    P: Fn(&str) -> Result<PathKind, String>,
    F: Fn(&str, Option<&str>) -> Result<Vec<u8>, String>,
>(
    tokens: &Vec<String>,
    verb: &str,
    home: Option<String>,
    registry: &Registry,
    probe: &P,
    fetch: &F,
) -> (r: Added)
    requires
        forall|i: int|
            0 <= i < tokens@.len() ==> crate::source::can_look_up(
                *probe,
                (#[trigger] tokens@[i])@,
                BareToken::Spec,
            ),
        forall|u: &str, a: Option<&str>| #[trigger] call_requires(*fetch, (u, a)),
    ensures
        r.list@.len() <= tokens@.len(),
        forall|i: int|
            0 <= i < r.list@.len() ==> adds(
                *probe,
                *fetch,
                *registry,
                tokens@[i]@,
                verb@,
                crate::text::optional_text(home),
                Ok(((#[trigger] r.list@[i]).0@, r.list@[i].1@)),
            ),
        match r.fault {
            None => r.list@.len() == tokens@.len(),
            Some(message) => r.list@.len() < tokens@.len() && adds(
                *probe,
                *fetch,
                *registry,
                tokens@[r.list@.len() as int]@,
                verb@,
                crate::text::optional_text(home),
                Err(message@),
            ),
        },
{
    let mut list: Vec<(String, String)> = Vec::new();
    let mut i: usize = 0;
    while i < tokens.len()
        invariant
            i <= tokens@.len(),
            list@.len() == i,
            forall|k: int|
                0 <= k < i ==> adds(
                    *probe,
                    *fetch,
                    *registry,
                    tokens@[k]@,
                    verb@,
                    crate::text::optional_text(home),
                    Ok(((#[trigger] list@[k]).0@, list@[k].1@)),
                ),
            forall|k: int|
                0 <= k < tokens@.len() ==> crate::source::can_look_up(
                    *probe,
                    (#[trigger] tokens@[k])@,
                    BareToken::Spec,
                ),
            forall|u: &str, a: Option<&str>| #[trigger] call_requires(*fetch, (u, a)),
        decreases tokens@.len() - i,
    {
        match add_spec(tokens[i].as_str(), verb, home.clone(), registry, probe, fetch) {
            Err(message) => {
                return Added { list, fault: Some(message) };
            },
            Ok(pair) => {
                list.push(pair);
            },
        }
        i = i + 1;
    }
    Added { list, fault: None }
}

/// The line that reports a recorded package.
pub fn added_line(name: &str, range: &str) -> (r: String)
    ensures
        r@ == "+ "@ + name@ + "@"@ + range@,
{
    let mut out = "+ ".to_owned();
    out.append(name);
    out.append("@");
    out.append(range);
    out
}

// ---------------------------------------------------------------------------
// Laws
// ---------------------------------------------------------------------------

/// The host of a web address stands between the scheme and the first separator behind it; what has
/// no scheme starts with its host.
pub proof fn law_hosts(name: Text, rest: Text)
    requires
        !name.contains('/'),
    ensures
        host("https://"@ + name) == name,
        host("https://"@ + name + seq!['/'] + rest) == name,
        host("http://"@ + name) == name,
        host("http://"@ + name + seq!['/'] + rest) == name,
        name != "https:"@ && name != "http:"@ ==> host(name) == name && host(
            name + seq!['/'] + rest,
        ) == name,
{
    reveal_strlit("https://");
    reveal_strlit("http://");
    reveal_strlit("https:");
    reveal_strlit("http:");
    reveal_strlit("/");
    assert("/"@ =~= seq!['/']);
    let tail = name + seq!['/'] + rest;
    crate::text::lemma_no_separator(name, "/"@);
    crate::text::lemma_first_separator(name, "/"@, rest);
    assert(tail.take(name.len() as int) =~= name);
    assert("https://"@ + name + seq!['/'] + rest =~= "https://"@ + tail);
    assert("http://"@ + name + seq!['/'] + rest =~= "http://"@ + tail);
    lemma_without_scheme(name);
    lemma_without_scheme(tail);
    if crate::text::begins(name, "https://"@) {
        assert(name.take(8)[6] == name[6]);
        assert(name.contains(name[6]));
    }
    if crate::text::begins(name, "http://"@) {
        assert(name.take(7)[5] == name[5]);
        assert(name.contains(name[5]));
    }
    if name != "https:"@ && name != "http:"@ {
        assert("https://"@.take(6) =~= "https:"@);
        assert("http://"@.take(5) =~= "http:"@);
        lemma_no_scheme(name, rest, "https://"@, "https:"@);
        lemma_no_scheme(name, rest, "http://"@, "http:"@);
    }
}

/// Only a name that is the scheme makes an address of one with separators behind it.
proof fn lemma_no_scheme(name: Text, rest: Text, prefix: Text, scheme: Text)
    requires
        !name.contains('/'),
        prefix.len() == scheme.len() + 2,
        prefix.take(scheme.len() as int) == scheme,
        !scheme.contains('/'),
        prefix[scheme.len() as int] == '/',
        name != scheme,
    ensures
        !crate::text::begins(name + seq!['/'] + rest, prefix),
{
    let whole = name + seq!['/'] + rest;
    let n = name.len() as int;
    let k = scheme.len() as int;
    if crate::text::begins(whole, prefix) {
        let start = whole.take(prefix.len() as int);
        assert(start[k] == whole[k]);
        if n < k {
            assert(start[n] == whole[n] && prefix[n] == '/');
            assert(prefix.take(k)[n] == prefix[n]);
            assert(scheme.contains(scheme[n]));
        } else if n > k {
            assert(whole[k] == name[k]);
            assert(name.contains(name[k]));
        } else {
            assert forall|i: int| 0 <= i < n implies name[i] == scheme[i] by {
                assert(start[i] == whole[i] && prefix.take(k)[i] == prefix[i]);
            }
            assert(name =~= scheme);
        }
    }
}

proof fn lemma_without_scheme(rest: Text)
    ensures
        without_scheme("https://"@ + rest) == rest,
        without_scheme("http://"@ + rest) == rest,
{
    reveal_strlit("https://");
    reveal_strlit("http://");
    let secure = "https://"@ + rest;
    let plain = "http://"@ + rest;
    assert(secure.take(8) =~= "https://"@);
    assert(secure.skip(8) =~= rest);
    assert(plain.take(7) =~= "http://"@);
    assert(plain.skip(7) =~= rest);
    if crate::text::begins(plain, "https://"@) {
        assert(plain.take(8)[4] == plain[4]);
    }
}

/// A project is called as its directory is; where that has no name, `app`.
pub proof fn law_projects_are_called_as_their_directory(head: Text, name: Text)
    requires
        !name.contains('/'),
        name.len() > 0,
        name != seq!['.'],
        name != seq!['.', '.'],
    ensures
        project_name(Some(head + seq!['/'] + name)) == name,
        project_name(Some(seq!['/'])) == "app"@,
        project_name(None) == "app"@,
{
    crate::path::law_paths_are_called_by_their_end(head, name);
}

/// Up to three fetches are named; of more, the first three and how many there are besides.
pub proof fn law_fetches_are_named(a: Text, b: Text, c: Text, more: Seq<Text>)
    requires
        more.len() > 0,
    ensures
        in_flight_text(Seq::empty()).len() == 0,
        in_flight_text(seq![a]) == "fetching "@ + a,
        in_flight_text(seq![a, b]) == "fetching "@ + a + ", "@ + b,
        in_flight_text(seq![a, b, c]) == "fetching "@ + a + ", "@ + b + ", "@ + c,
        in_flight_text(seq![a, b, c] + more) == "fetching "@ + a + ", "@ + b + ", "@ + c + " (+"@
            + crate::text::decimal(more.len()) + " more)"@,
{
    let comma = ", "@;
    crate::text::law_joined_texts(seq![a], seq![b], comma, a);
    crate::text::law_joined_texts(seq![a], seq![b], comma, b);
    crate::text::law_joined_texts(seq![a, b], seq![c], comma, c);
    assert(seq![a] + seq![b] =~= seq![a, b]);
    assert(seq![a, b] + seq![c] =~= seq![a, b, c]);
    let all = seq![a, b, c] + more;
    assert(all.take(3) =~= seq![a, b, c]);
    assert(in_flight_text(seq![a, b]) =~= "fetching "@ + a + ", "@ + b);
    assert(in_flight_text(seq![a, b, c]) =~= "fetching "@ + a + ", "@ + b + ", "@ + c);
    assert(in_flight_text(all) =~= "fetching "@ + a + ", "@ + b + ", "@ + c + " (+"@
        + crate::text::decimal(more.len()) + " more)"@);
}

/// The report of an install counts the packages and lists every one of them, in order.
pub proof fn law_installs_are_reported_in_full(packages: Seq<ResolvedView>, i: int)
    requires
        0 <= i < packages.len(),
    ensures
        install_report(packages).len() == packages.len() + 1,
        install_report(packages)[0] == "installed "@ + crate::text::decimal(packages.len())
            + " package(s)"@,
        install_report(packages)[i + 1] == "  "@ + packages[i].name + "@"@ + packages[i].version,
{
}

/// The report of a removal lists every name that was removed, then every name that was asked for
/// and was not, and nothing else.
pub proof fn law_removals_are_reported_in_full(asked: Seq<Text>, removed: Seq<Text>)
    ensures
        removal_report(asked, removed) == removed.map_values(|name: Text| "- "@ + name)
            + asked.filter_map(
            |name: Text|
                if removed.contains(name) {
                    None
                } else {
                    Some(name + ": not a dependency (skipped)"@)
                },
        ),
{
    lemma_not_removed(asked, removed);
    assert(Seq::new(removed.len(), |i: int| "- "@ + removed[i]) =~= removed.map_values(
        |name: Text| "- "@ + name,
    ));
}

proof fn lemma_not_removed(asked: Seq<Text>, removed: Seq<Text>)
    ensures
        not_removed(asked, removed) == asked.filter_map(
            |name: Text|
                if removed.contains(name) {
                    None
                } else {
                    Some(name + ": not a dependency (skipped)"@)
                },
        ),
    decreases asked.len(),
{
    if asked.len() > 0 {
        lemma_not_removed(asked.drop_last(), removed);
    }
}

/// Of what is in flight, an event adds what begins, takes away what is done, and leaves the rest.
pub proof fn law_events_change_one_fetch(
    names: Seq<Text>,
    event: ResolveEvent,
    after: Seq<Text>,
    other: Text,
)
    requires
        flies(names, event, after),
    ensures
        event matches ResolveEvent::FetchBegin { name } ==> after.contains(name@) && (other
            != name@ ==> (after.contains(other) <==> names.contains(other))),
        event matches ResolveEvent::FetchDone { name } ==> !after.contains(name@) && (other
            != name@ ==> (after.contains(other) <==> names.contains(other))),
        event is Resolved ==> after == names,
{
    assert(after.contains(other) || !after.contains(other));
    match event {
        ResolveEvent::FetchBegin { name } => {
            assert(after.contains(name@));
        },
        ResolveEvent::FetchDone { name } => {
            assert(!after.contains(name@));
        },
        ResolveEvent::Resolved { .. } => {},
    }
}

/// A resolved package is counted by its name and version; anything else is shown by what is in
/// flight.
pub proof fn law_events_are_shown(tick: Tick, event: ResolveEvent, names: Seq<Text>)
    requires
        shows(tick, event, names),
    ensures
        match event {
            ResolveEvent::Resolved { name, version, .. } => tick matches Tick::Count(item) && item@
                == name@ + "@"@ + version@,
            ResolveEvent::FetchBegin { .. } => tick matches Tick::Detail(text) && text@
                == in_flight_text(names),
            ResolveEvent::FetchDone { .. } => tick matches Tick::Detail(text) && text@
                == in_flight_text(names),
        },
{
}

/// A resolve task that is open ends with how many packages were resolved; one that is not ends no
/// second time.
pub proof fn law_resolve_tasks_end_once(tasks: SyncTasks)
    ensures
        tasks.resolving ==> resolve_ends(tasks) == seq![
            SyncActionView::FinishResolve(
                crate::text::decimal(tasks.resolved as nat) + " packages"@,
            ),
        ],
        !tasks.resolving ==> resolve_ends(tasks).len() == 0,
{
}

/// A package is recorded with the range that was given; without one, with whatever is compatible
/// with its latest release, and not at all where that is not known.
pub proof fn law_packages_are_recorded_with_a_range<
    F: Fn(&str, Option<&str>) -> Result<Vec<u8>, String>,
>(fetch: F, registry: Registry, name: Text, range: Text, r: Result<(Text, Text), Text>)
    ensures
        is_recorded(fetch, registry, name, Some(range), r) ==> r == Ok::<(Text, Text), Text>(
            (name, range),
        ),
        is_recorded(fetch, registry, name, None, r) ==> exists|latest: Result<ResolvedView, Text>|
            #[trigger] crate::registry::is_resolution(
                fetch,
                registry,
                name,
                seq!["*"@],
                latest,
            ) && match latest {
                Ok(package) => r == Ok::<(Text, Text), Text>((name, seq!['^'] + package.version)),
                Err(message) => r == Err::<(Text, Text), Text>(message),
            },
{
    reveal_strlit("^");
    assert("^"@ =~= seq!['^']);
    if is_recorded(fetch, registry, name, None, r) {
        let latest = choose|latest: Result<ResolvedView, Text>|
            #[trigger] crate::registry::is_resolution(
                fetch,
                registry,
                name,
                seq!["*"@],
                latest,
            ) && r == (match latest {
                Ok(package) => Ok((name, "^"@ + package.version)),
                Err(message) => Err(message),
            });
        assert(crate::registry::is_resolution(fetch, registry, name, seq!["*"@], latest));
    }
}

/// A token that is a package is added as its name and its range; a directory, a file and what
/// cannot be read are refused.
pub proof fn law_only_packages_are_added<
    P: Fn(&str) -> Result<PathKind, String>,
    F: Fn(&str, Option<&str>) -> Result<Vec<u8>, String>,
>(
    probe: P,
    fetch: F,
    registry: Registry,
    token: Text,
    verb: Text,
    home: Option<Text>,
    r: Result<(Text, Text), Text>,
)
    requires
        adds(probe, fetch, registry, token, verb, home, r),
    ensures
        exists|parsed: Result<Source, String>|
            #[trigger] crate::source::is_parsed(token, BareToken::Spec, home, probe, parsed)
                && match parsed {
                Err(message) => r == Err::<(Text, Text), Text>(message@),
                Ok(Source::Spec { name, range }) => is_recorded(
                    fetch,
                    registry,
                    name@,
                    crate::text::optional_text(range),
                    r,
                ),
                Ok(_) => r is Err,
            },
{
    let parsed = choose|parsed: Result<Source, String>|
        #[trigger] crate::source::is_parsed(token, BareToken::Spec, home, probe, parsed) && (
        match parsed {
            Err(message) => r == Err::<(Text, Text), Text>(message@),
            Ok(source) => match source@ {
                crate::source::SourceView::Spec(name, range) => is_recorded(
                    fetch,
                    registry,
                    name,
                    range,
                    r,
                ),
                _ => r == Err::<(Text, Text), Text>(
                    crate::source::spec_refusal(source@, verb)->0,
                ),
            },
        });
    assert(crate::source::is_parsed(token, BareToken::Spec, home, probe, parsed));
}

/// The value of a list of actions holds every one of them, in order.
pub proof fn law_lists_hold_every_action(list: Seq<SyncAction>, i: int)
    requires
        0 <= i < list.len(),
    ensures
        action_views(list).len() == list.len(),
        action_views(list)[i] == list[i]@,
{
}

/// An upgrade is told by the name and both versions, the old one first.
pub proof fn law_upgrades_are_told(name: Text, from: Text, to: Text)
    ensures
        upgrade_text(name, from, to) == name + ": "@ + from + " → "@ + to,
        resolve_title_text(name) == "resolving dependency tree from "@ + name,
{
}

}
