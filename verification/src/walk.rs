//! The walk over a dependency graph.
//!
//! A walk holds a queue of edges, the package documents that it was given, and what it has
//! resolved so far. [`Walk::step`] takes one edge off the queue; [`Walk::missing`] says which
//! documents are still to be fetched, which makes a [`crate::round::Round`], and [`Walk::supply`]
//! hands one in. Fetching is the caller's: the outcome does not depend on when a document comes,
//! only on what it is.

use crate::common::ResolveEvent;
use crate::dependency::Range;
use crate::json::Json;
use crate::registry::{
    classify_dep, dependencies_of, no_match_message, push_unique, select_version, EdgeAction,
    Omission, OmissionView, Registry, Resolved, ResolvedView,
};
use crate::text::{before, is_listed, quoted, same, Text};
use vstd::prelude::*;
use vstd::string::*;

verus! {

/// What the walk does with the dependencies that an install cannot or should not follow.
#[derive(Clone, Copy, Debug, PartialEq, Eq)]
pub struct WalkPolicy {
    /// Keep one version per disagreeing range instead of failing on a conflict.
    pub nested: bool,
    /// Follow optional dependencies too.
    pub include_optional: bool,
    /// Record specs that are no registry ranges, and optional dependencies that fail, as
    /// omissions instead of failing.
    pub skip_unsupported: bool,
}

/// The install policy: one version per name, required dependencies only, every failure is final.
pub open spec fn flat_install() -> WalkPolicy {
    WalkPolicy { nested: false, include_optional: false, skip_unsupported: false }
}

/// The audit policy: a version per disagreeing range, optional dependencies included, what cannot
/// be followed recorded.
pub open spec fn nested_audit() -> WalkPolicy {
    WalkPolicy { nested: true, include_optional: true, skip_unsupported: true }
}

impl WalkPolicy {
    /// The install policy.
    pub fn flat() -> (r: WalkPolicy)
        ensures
            r == flat_install(),
    {
        WalkPolicy { nested: false, include_optional: false, skip_unsupported: false }
    }

    /// The audit policy.
    pub fn audit() -> (r: WalkPolicy)
        ensures
            r == nested_audit(),
    {
        WalkPolicy { nested: true, include_optional: true, skip_unsupported: true }
    }
}

/// A requirement on a package.
#[derive(Debug, Clone, PartialEq, Eq)]
pub struct Edge {
    pub name: String,
    pub range: Range,
    /// The walk goes on without it when it cannot be resolved, where the policy says so.
    pub optional: bool,
}

/// The mathematical value of an [`Edge`].
pub struct EdgeView {
    pub name: Text,
    pub range: Seq<Text>,
    pub optional: bool,
}

impl View for Edge {
    type V = EdgeView;

    open spec fn view(&self) -> EdgeView {
        EdgeView { name: self.name@, range: self.range@, optional: self.optional }
    }
}

/// The edges of a list.
pub open spec fn edge_views(list: Seq<Edge>) -> Seq<EdgeView> {
    Seq::new(list.len(), |i: int| list[i]@)
}

/// The packages of a list.
pub open spec fn package_views(list: Seq<Resolved>) -> Seq<ResolvedView> {
    Seq::new(list.len(), |i: int| list[i]@)
}

/// What was fetched for a package: its document, or why there is none.
pub type Reply = Result<crate::json::JsonView, Text>;

/// The mathematical value of a reply.
pub open spec fn reply_view(reply: Result<Json, String>) -> Reply {
    match reply {
        Ok(json) => Ok(json@),
        Err(message) => Err(message@),
    }
}

/// The replies of a list.
pub open spec fn reply_views(list: Seq<(String, Result<Json, String>)>) -> Seq<(Text, Reply)> {
    Seq::new(list.len(), |i: int| (list[i].0@, reply_view(list[i].1)))
}

/// The reply for `name`; the first counts.
pub open spec fn reply_for(known: Seq<(Text, Reply)>, name: Text) -> Option<Reply>
    decreases known.len(),
{
    if known.len() == 0 {
        None
    } else {
        match reply_for(known.drop_last(), name) {
            Some(reply) => Some(reply),
            None => if known.last().0 == name {
                Some(known.last().1)
            } else {
                None
            },
        }
    }
}

/// One of `resolved` satisfies the requirement of `range` on `name`.
pub open spec fn satisfied(resolved: Seq<ResolvedView>, name: Text, range: Seq<Text>) -> bool {
    exists|i: int|
        0 <= i < resolved.len() && (#[trigger] resolved[i]).name == name
            && crate::dependency::range_admits(range, resolved[i].version)
}

/// The first of `resolved` that is called `name`.
pub open spec fn first_named(resolved: Seq<ResolvedView>, name: Text) -> Option<int>
    decreases resolved.len(),
{
    if resolved.len() == 0 {
        None
    } else {
        match first_named(resolved.drop_last(), name) {
            Some(i) => Some(i),
            None => if resolved.last().name == name {
                Some(resolved.len() - 1)
            } else {
                None
            },
        }
    }
}

/// What is said when two requirements on a package disagree in a flat install.
pub open spec fn conflict_fault(name: Text, version: Text, range: Seq<Text>) -> Text {
    "version conflict for `"@ + name + "`: resolved "@ + version + " but also required `"@
        + crate::dependency::range_text(range)
        + "` (flat node_modules install resolves one version per package)"@
}

/// What is said when a dependency's spec is refused. `parent` is the package and its version.
pub open spec fn spec_fault(parent: Text, name: Text, spec: Text, cause: Text) -> Text {
    parent + " dependency `"@ + name + "`: unsupported version "@ + crate::text::quotation(spec)
        + ": "@ + cause
}

/// A package and its version.
pub open spec fn labelled(name: Text, version: Text) -> Text {
    name + "@"@ + version
}

/// What becomes of a dependency of a resolved package.
pub enum Child {
    Follow(EdgeView),
    Skip(OmissionView),
}

/// What becomes of the dependency `dep` of `parent`. Under a policy that records what it cannot
/// follow, a child of an optional package is itself optional.
pub open spec fn child(
    policy: WalkPolicy,
    parent: Text,
    optional: bool,
    dep: crate::registry::DependencyView,
) -> Result<Child, Text> {
    if policy.skip_unsupported {
        match crate::registry::edge_action(dep.0, dep.1) {
            Err(cause) => Err(spec_fault(parent, dep.0, dep.1, cause)),
            Ok(crate::registry::EdgeActionView::Resolve(name, range)) => Ok(
                Child::Follow(EdgeView { name, range, optional: optional || dep.2 }),
            ),
            Ok(crate::registry::EdgeActionView::Omit(omission)) => Ok(Child::Skip(omission)),
        }
    } else {
        match crate::dependency::range_of(dep.1) {
            Err(cause) => Err(spec_fault(parent, dep.0, dep.1, cause)),
            Ok(range) => Ok(Child::Follow(EdgeView { name: dep.0, range, optional: false })),
        }
    }
}

/// What becomes of all the dependencies of `parent`, in order; the first refused one decides.
pub open spec fn children(
    policy: WalkPolicy,
    parent: Text,
    optional: bool,
    deps: Seq<crate::registry::DependencyView>,
) -> Result<(Seq<EdgeView>, Seq<OmissionView>), Text>
    decreases deps.len(),
{
    if deps.len() == 0 {
        Ok((Seq::empty(), Seq::empty()))
    } else {
        match children(policy, parent, optional, deps.drop_last()) {
            Err(message) => Err(message),
            Ok((edges, skipped)) => match child(policy, parent, optional, deps.last()) {
                Err(message) => Err(message),
                Ok(Child::Follow(edge)) => Ok((edges.push(edge), skipped)),
                Ok(Child::Skip(omission)) => Ok((edges, skipped.push(omission))),
            },
        }
    }
}

/// The state of a walk.
pub struct WalkView {
    /// The registry's URL.
    pub base: Text,
    pub policy: WalkPolicy,
    /// Every edge that was ever queued, in order.
    pub edges: Seq<EdgeView>,
    /// How many of them have been taken.
    pub next: int,
    /// What was fetched.
    pub known: Seq<(Text, Reply)>,
    /// What was resolved, in order.
    pub resolved: Seq<ResolvedView>,
    /// What was not followed, in order.
    pub omissions: Seq<OmissionView>,
}

/// What the walk does with the edge at the front of the queue.
pub enum Decision {
    /// The queue is empty.
    Finished,
    /// The document of this package is needed first.
    Wanted(Text),
    /// A version that is already resolved satisfies the edge.
    Satisfied,
    /// The edge is optional and cannot be resolved.
    Omitted(OmissionView),
    /// The edge resolves to a package, which brings edges and omissions of its own.
    Added(ResolvedView, Seq<EdgeView>, Seq<OmissionView>),
    /// The walk fails.
    Failed(Text),
}

/// An optional edge that cannot be resolved is omitted where the policy says so; otherwise the
/// walk fails.
pub open spec fn omit_or_fail(
    policy: WalkPolicy,
    edge: EdgeView,
    reason: Text,
    fault: Text,
) -> Decision {
    if policy.skip_unsupported && edge.optional {
        Decision::Omitted(
            OmissionView {
                name: edge.name,
                spec: crate::dependency::range_text(edge.range),
                reason,
            },
        )
    } else {
        Decision::Failed(fault)
    }
}

/// What the walk does with `edge`, given its package's document.
pub open spec fn selection_decision(
    base: Text,
    policy: WalkPolicy,
    edge: EdgeView,
    doc: crate::json::JsonView,
) -> Decision {
    match crate::registry::selected(doc, edge.range) {
        None => omit_or_fail(
            policy,
            edge,
            "optional dependency: no published version matches"@,
            crate::registry::no_match_fault(edge.name, edge.range),
        ),
        Some(s) => match children(
            policy,
            labelled(edge.name, s.0),
            edge.optional,
            crate::registry::dependencies(doc, s.0, policy.include_optional),
        ) {
            Err(message) => Decision::Failed(message),
            Ok((edges, skipped)) => Decision::Added(
                crate::registry::resolved_package(base, edge.name, s),
                edges,
                skipped,
            ),
        },
    }
}

/// What the walk does next. An edge that a resolved version satisfies is done with; in a flat
/// install, another version of its package is a conflict; otherwise the package's document says
/// what the edge resolves to.
pub open spec fn decision(w: WalkView) -> Decision {
    if w.next >= w.edges.len() {
        Decision::Finished
    } else {
        let edge = w.edges[w.next];
        if satisfied(w.resolved, edge.name, edge.range) {
            Decision::Satisfied
        } else if !w.policy.nested && first_named(w.resolved, edge.name) is Some {
            Decision::Failed(
                conflict_fault(
                    edge.name,
                    w.resolved[first_named(w.resolved, edge.name)->0].version,
                    edge.range,
                ),
            )
        } else {
            match reply_for(w.known, edge.name) {
                None => Decision::Wanted(edge.name),
                Some(Err(cause)) => omit_or_fail(
                    w.policy,
                    edge,
                    "optional dependency failed to fetch: "@ + cause,
                    cause,
                ),
                Some(Ok(doc)) => selection_decision(w.base, w.policy, edge, doc),
            }
        }
    }
}

/// All of `omissions` recorded in `list`, identical ones once.
pub open spec fn with_omissions(
    list: Seq<OmissionView>,
    omissions: Seq<OmissionView>,
) -> Seq<OmissionView>
    decreases omissions.len(),
{
    if omissions.len() == 0 {
        list
    } else {
        crate::registry::with_omission(
            with_omissions(list, omissions.drop_last()),
            omissions.last(),
        )
    }
}

/// The walk after a decision.
pub open spec fn after(w: WalkView, d: Decision) -> WalkView {
    match d {
        Decision::Satisfied => WalkView { next: w.next + 1, ..w },
        Decision::Omitted(omission) => WalkView {
            next: w.next + 1,
            omissions: crate::registry::with_omission(w.omissions, omission),
            ..w
        },
        Decision::Added(package, edges, skipped) => WalkView {
            next: w.next + 1,
            edges: w.edges + edges,
            resolved: w.resolved.push(package),
            omissions: with_omissions(w.omissions, skipped),
            ..w
        },
        _ => w,
    }
}

/// The walk after its next step.
pub open spec fn stepped(w: WalkView) -> WalkView {
    after(w, decision(w))
}

/// A walk over a dependency graph.
pub struct Walk {
    registry: Registry,
    policy: WalkPolicy,
    edges: Vec<Edge>,
    next: usize,
    known: Vec<(String, Result<Json, String>)>,
    resolved: Vec<Resolved>,
    omissions: Vec<Omission>,
}

impl View for Walk {
    type V = WalkView;

    closed spec fn view(&self) -> WalkView {
        WalkView {
            base: self.registry.base_url@,
            policy: self.policy,
            edges: edge_views(self.edges@),
            next: self.next as int,
            known: reply_views(self.known@),
            resolved: package_views(self.resolved@),
            omissions: crate::registry::omission_views(self.omissions@),
        }
    }
}

/// What a step did.
#[derive(Debug, PartialEq, Eq)]
pub enum Step {
    /// The queue was empty.
    Finished,
    /// Nothing: the document of this package is needed first.
    Wanted(String),
    /// An edge was satisfied by a version that was already resolved.
    Satisfied,
    /// An optional edge was omitted.
    Omitted,
    /// A package was resolved; it is the last of [`Walk::resolved`].
    Resolved,
    /// Nothing: the walk fails.
    Failed(String),
}

/// `step` reports `d`.
pub open spec fn reports(step: Step, d: Decision) -> bool {
    match d {
        Decision::Finished => step is Finished,
        Decision::Wanted(name) => step matches Step::Wanted(wanted) && wanted@ == name,
        Decision::Satisfied => step is Satisfied,
        Decision::Omitted(_) => step is Omitted,
        Decision::Added(_, _, _) => step is Resolved,
        Decision::Failed(fault) => step matches Step::Failed(message) && message@ == fault,
    }
}

/// A decision in executable form.
enum Choice {
    Finished,
    Wanted(String),
    Satisfied,
    Omitted(Omission),
    Added(Resolved, Vec<Edge>, Vec<Omission>),
    Failed(String),
}

spec fn choice_view(choice: Choice) -> Decision {
    match choice {
        Choice::Finished => Decision::Finished,
        Choice::Wanted(name) => Decision::Wanted(name@),
        Choice::Satisfied => Decision::Satisfied,
        Choice::Omitted(omission) => Decision::Omitted(omission@),
        Choice::Added(package, edges, skipped) => Decision::Added(
            package@,
            edge_views(edges@),
            crate::registry::omission_views(skipped@),
        ),
        Choice::Failed(message) => Decision::Failed(message@),
    }
}

fn conflict_message(name: &str, version: &str, range: &Range) -> (r: String)
    ensures
        r@ == conflict_fault(name@, version@, range@),
{
    let mut message = "version conflict for `".to_owned();
    message.append(name);
    message.append("`: resolved ");
    message.append(version);
    message.append(" but also required `");
    message.append(range.to_string().as_str());
    message.append("` (flat node_modules install resolves one version per package)");
    message
}

fn spec_message(parent: &str, name: &str, spec: &str, cause: &str) -> (r: String)
    ensures
        r@ == spec_fault(parent@, name@, spec@, cause@),
{
    let mut message = parent.to_owned();
    message.append(" dependency `");
    message.append(name);
    message.append("`: unsupported version ");
    message.append(quoted(spec).as_str());
    message.append(": ");
    message.append(cause);
    message
}

fn omitted_or_failed(policy: WalkPolicy, edge: &Edge, reason: &str, fault: String) -> (r: Choice)
    ensures
        choice_view(r) == omit_or_fail(policy, edge@, reason@, fault@),
{
    if policy.skip_unsupported && edge.optional {
        Choice::Omitted(
            Omission::new(edge.name.as_str(), edge.range.to_string().as_str(), reason),
        )
    } else {
        Choice::Failed(fault)
    }
}

/// Follow or skip each of `deps`.
fn follow(
    policy: WalkPolicy,
    parent: &str,
    optional: bool,
    deps: &Vec<(String, String, bool)>,
) -> (r: Result<(Vec<Edge>, Vec<Omission>), String>)
    ensures
        match children(policy, parent@, optional, crate::registry::dependency_views(deps@)) {
            Ok((edges, skipped)) => r matches Ok((e, s)) && edge_views(e@) == edges
                && crate::registry::omission_views(s@) == skipped,
            Err(fault) => r matches Err(message) && message@ == fault,
        },
{
    let ghost all = crate::registry::dependency_views(deps@);
    let mut edges: Vec<Edge> = Vec::new();
    let mut skipped: Vec<Omission> = Vec::new();
    let mut i: usize = 0;
    assert(edge_views(edges@) == Seq::<EdgeView>::empty());
    assert(crate::registry::omission_views(skipped@) == Seq::<OmissionView>::empty());
    assert(all.take(0).len() == 0);
    while i < deps.len()
        invariant
            i <= deps@.len(),
            all == crate::registry::dependency_views(deps@),
            children(policy, parent@, optional, all.take(i as int)) == Ok::<
                (Seq<EdgeView>, Seq<OmissionView>),
                Text,
            >((edge_views(edges@), crate::registry::omission_views(skipped@))),
        decreases deps@.len() - i,
    {
        let name = deps[i].0.as_str();
        let spec = deps[i].1.as_str();
        let ghost edges_before = edges@;
        let ghost skipped_before = skipped@;
        assert(all.take(i + 1).drop_last() == all.take(i as int));
        assert(all.take(i + 1).last() == (name@, spec@, deps@[i as int].2));
        if policy.skip_unsupported {
            match classify_dep(name, spec) {
                Err(cause) => {
                    proof {
                        lemma_children_fail_early(policy, parent@, optional, all, i + 1);
                    }
                    return Err(spec_message(parent, name, spec, cause.as_str()));
                },
                Ok(EdgeAction::Resolve { name: target, range }) => {
                    let edge = Edge { name: target, range, optional: optional || deps[i].2 };
                    edges.push(edge);
                    assert(edge_views(edges@) == edge_views(edges_before).push(edge@));
                },
                Ok(EdgeAction::Omit(omission)) => {
                    skipped.push(omission);
                    assert(crate::registry::omission_views(skipped@)
                        == crate::registry::omission_views(skipped_before).push(omission@));
                },
            }
        } else {
            match Range::parse(spec) {
                Err(cause) => {
                    proof {
                        lemma_children_fail_early(policy, parent@, optional, all, i + 1);
                    }
                    return Err(spec_message(parent, name, spec, cause.as_str()));
                },
                Ok(range) => {
                    let edge = Edge { name: name.to_owned(), range, optional: false };
                    edges.push(edge);
                    assert(edge_views(edges@) == edge_views(edges_before).push(edge@));
                },
            }
        }
        i = i + 1;
    }
    assert(all.take(i as int) == all);
    Ok((edges, skipped))
}

/// A refused dependency decides, whatever comes after it.
proof fn lemma_children_fail_early(
    policy: WalkPolicy,
    parent: Text,
    optional: bool,
    deps: Seq<crate::registry::DependencyView>,
    n: int,
)
    requires
        0 <= n <= deps.len(),
        children(policy, parent, optional, deps.take(n)) is Err,
    ensures
        children(policy, parent, optional, deps) == children(
            policy,
            parent,
            optional,
            deps.take(n),
        ),
    decreases deps.len(),
{
    if n == deps.len() {
        assert(deps.take(n) == deps);
    } else {
        assert(deps.drop_last().take(n) == deps.take(n));
        lemma_children_fail_early(policy, parent, optional, deps.drop_last(), n);
    }
}

/// The walk's next decision, given the document of the package at the front.
fn choose_version(registry: &Registry, policy: WalkPolicy, edge: &Edge, doc: &Json) -> (r: Choice)
    ensures
        choice_view(r) == selection_decision(registry.base_url@, policy, edge@, doc@),
{
    match select_version(doc, &edge.range) {
        None => omitted_or_failed(
            policy,
            edge,
            "optional dependency: no published version matches",
            no_match_message(edge.name.as_str(), &edge.range),
        ),
        Some(s) => {
            let deps = dependencies_of(doc, &s.0, policy.include_optional);
            let mut parent = edge.name.clone();
            parent.append("@");
            parent.append(s.0.as_str());
            match follow(policy, parent.as_str(), edge.optional, &deps) {
                Err(message) => Choice::Failed(message),
                Ok((edges, skipped)) => Choice::Added(
                    registry.package(edge.name.clone(), s),
                    edges,
                    skipped,
                ),
            }
        },
    }
}

impl Walk {
    /// The walk is in order: no more edges are taken than were queued.
    pub open spec fn wf(&self) -> bool {
        0 <= self@.next <= self@.edges.len()
    }

    /// Whether a resolved version satisfies `edge`.
    fn is_satisfied(&self, edge: &Edge) -> (r: bool)
        ensures
            r == satisfied(self@.resolved, edge@.name, edge@.range),
    {
        let mut i: usize = 0;
        while i < self.resolved.len()
            invariant
                i <= self.resolved@.len(),
                forall|k: int|
                    0 <= k < i ==> !((#[trigger] self@.resolved[k]).name == edge@.name
                        && crate::dependency::range_admits(
                        edge@.range,
                        self@.resolved[k].version,
                    )),
            decreases self.resolved@.len() - i,
        {
            assert(self@.resolved[i as int] == self.resolved@[i as int]@);
            if same(self.resolved[i].name.as_str(), edge.name.as_str()) && edge.range.matches(
                &self.resolved[i].version,
            ) {
                return true;
            }
            i = i + 1;
        }
        false
    }

    /// The first resolved package called `name`.
    fn find_named(&self, name: &str) -> (r: Option<usize>)
        ensures
            first_named(self@.resolved, name@) == (match r {
                Some(i) => Some(i as int),
                None => None,
            }),
            r matches Some(i) ==> i < self.resolved@.len(),
    {
        let ghost all = self@.resolved;
        let mut found: Option<usize> = None;
        let mut i: usize = 0;
        while i < self.resolved.len()
            invariant
                i <= self.resolved@.len(),
                all == self@.resolved,
                first_named(all.take(i as int), name@) == (match found {
                    Some(at) => Some(at as int),
                    None => None,
                }),
                found matches Some(at) ==> at < i,
            decreases self.resolved@.len() - i,
        {
            assert(all.take(i + 1).drop_last() == all.take(i as int));
            assert(all.take(i + 1).last() == self.resolved@[i as int]@);
            if found.is_none() && same(self.resolved[i].name.as_str(), name) {
                found = Some(i);
            }
            i = i + 1;
        }
        assert(all.take(i as int) == all);
        found
    }

    /// Where the reply for `name` stands.
    fn find_reply(&self, name: &str) -> (r: Option<usize>)
        ensures
            match r {
                Some(i) => i < self.known@.len() && reply_for(self@.known, name@) == Some(
                    reply_view(self.known@[i as int].1),
                ),
                None => reply_for(self@.known, name@) is None,
            },
    {
        let ghost all = self@.known;
        let mut found: Option<usize> = None;
        let mut i: usize = 0;
        while i < self.known.len()
            invariant
                i <= self.known@.len(),
                all == self@.known,
                match found {
                    Some(at) => at < i && reply_for(all.take(i as int), name@) == Some(
                        reply_view(self.known@[at as int].1),
                    ),
                    None => reply_for(all.take(i as int), name@) is None,
                },
            decreases self.known@.len() - i,
        {
            assert(all.take(i + 1).drop_last() == all.take(i as int));
            assert(all.take(i + 1).last() == (
                self.known@[i as int].0@,
                reply_view(self.known@[i as int].1),
            ));
            if found.is_none() && same(self.known[i].0.as_str(), name) {
                found = Some(i);
            }
            i = i + 1;
        }
        assert(all.take(i as int) == all);
        found
    }

    fn decide(&self) -> (r: Choice)
        requires
            self.wf(),
        ensures
            choice_view(r) == decision(self@),
    {
        if self.next >= self.edges.len() {
            return Choice::Finished;
        }
        let edge = &self.edges[self.next];
        assert(self@.edges[self@.next] == edge@);
        if self.is_satisfied(edge) {
            return Choice::Satisfied;
        }
        if !self.policy.nested {
            if let Some(at) = self.find_named(edge.name.as_str()) {
                assert(self@.resolved[at as int] == self.resolved@[at as int]@);
                return Choice::Failed(
                    conflict_message(
                        edge.name.as_str(),
                        self.resolved[at].version.as_str(),
                        &edge.range,
                    ),
                );
            }
        }
        match self.find_reply(edge.name.as_str()) {
            None => Choice::Wanted(edge.name.clone()),
            Some(at) => match &self.known[at].1 {
                Err(cause) => {
                    let mut reason = "optional dependency failed to fetch: ".to_owned();
                    reason.append(cause.as_str());
                    omitted_or_failed(self.policy, edge, reason.as_str(), cause.clone())
                },
                Ok(doc) => choose_version(&self.registry, self.policy, edge, doc),
            },
        }
    }

    /// Take the edge at the front of the queue, unless its package's document is still needed or
    /// the walk fails.
    pub fn step(&mut self) -> (r: Step)
        requires
            old(self).wf(),
        ensures
            final(self).wf(),
            final(self)@ == stepped(old(self)@),
            reports(r, decision(old(self)@)),
    {
        let ghost w = self@;
        let end: usize = self.edges.len();
        match self.decide() {
            Choice::Finished => Step::Finished,
            Choice::Wanted(name) => Step::Wanted(name),
            Choice::Failed(message) => Step::Failed(message),
            Choice::Satisfied => {
                assert(self.next < end);
                self.next = self.next + 1;
                Step::Satisfied
            },
            Choice::Omitted(omission) => {
                push_unique(&mut self.omissions, omission);
                self.next = self.next + 1;
                Step::Omitted
            },
            Choice::Added(package, edges, skipped) => {
                self.next = self.next + 1;
                record(&mut self.omissions, skipped);
                let mut edges = edges;
                self.edges.append(&mut edges);
                self.resolved.push(package);
                proof {
                    assert(self@.resolved == w.resolved.push(package@));
                    assert(self@.edges == after(w, decision(w)).edges);
                }
                Step::Resolved
            },
        }
    }
}

/// Record all of `skipped`, identical ones once.
fn record(omissions: &mut Vec<Omission>, skipped: Vec<Omission>)
    ensures
        crate::registry::omission_views(final(omissions)@) == with_omissions(
            crate::registry::omission_views(old(omissions)@),
            crate::registry::omission_views(skipped@),
        ),
{
    let ghost base = crate::registry::omission_views(omissions@);
    let ghost all = crate::registry::omission_views(skipped@);
    let mut i: usize = 0;
    assert(all.take(0).len() == 0);
    while i < skipped.len()
        invariant
            i <= skipped@.len(),
            all == crate::registry::omission_views(skipped@),
            crate::registry::omission_views(omissions@) == with_omissions(
                base,
                all.take(i as int),
            ),
        decreases skipped@.len() - i,
    {
        assert(all.take(i + 1).drop_last() == all.take(i as int));
        assert(all.take(i + 1).last() == skipped@[i as int]@);
        let omission = Omission::new(
            skipped[i].name.as_str(),
            skipped[i].spec.as_str(),
            skipped[i].reason.as_str(),
        );
        push_unique(omissions, omission);
        i = i + 1;
    }
    assert(all.take(i as int) == all);
}

// ---------------------------------------------------------------------------
// Fetching
// ---------------------------------------------------------------------------

/// The distinct packages of `queue` for which nothing was fetched yet, in the order in which they
/// first appear.
pub open spec fn unfetched(known: Seq<(Text, Reply)>, queue: Seq<EdgeView>) -> Seq<Text>
    decreases queue.len(),
{
    if queue.len() == 0 {
        Seq::empty()
    } else {
        let names = unfetched(known, queue.drop_last());
        let name = queue.last().name;
        if reply_for(known, name) is Some || names.contains(name) {
            names
        } else {
            names.push(name)
        }
    }
}

impl Walk {
    /// A walk that starts at `roots`.
    pub fn new(registry: &Registry, roots: Vec<Edge>, policy: WalkPolicy) -> (r: Walk)
        ensures
            r.wf(),
            r@ == (WalkView {
                base: registry.base_url@,
                policy,
                edges: edge_views(roots@),
                next: 0,
                known: Seq::empty(),
                resolved: Seq::empty(),
                omissions: Seq::empty(),
            }),
    {
        let walk = Walk {
            registry: Registry { base_url: registry.base_url.clone(), detail: registry.detail },
            policy,
            edges: roots,
            next: 0,
            known: Vec::new(),
            resolved: Vec::new(),
            omissions: Vec::new(),
        };
        proof {
            assert(walk@.known == Seq::<(Text, Reply)>::empty());
            assert(walk@.resolved == Seq::<ResolvedView>::empty());
            assert(walk@.omissions == Seq::<OmissionView>::empty());
        }
        walk
    }

    /// How many edges wait in the queue.
    pub fn pending(&self) -> (r: usize)
        requires
            self.wf(),
        ensures
            r == self@.edges.len() - self@.next,
    {
        self.edges.len() - self.next
    }

    /// What has been resolved, in order.
    pub fn resolved(&self) -> (r: &Vec<Resolved>)
        ensures
            package_views(r@) == self@.resolved,
    {
        &self.resolved
    }

    /// The packages of the queue whose documents are still to be fetched, each once.
    pub fn missing(&self) -> (r: Vec<String>)
        requires
            self.wf(),
        ensures
            crate::text::texts(r@) == unfetched(self@.known, self@.edges.skip(self@.next)),
    {
        let ghost queue = self@.edges.skip(self@.next);
        let end: usize = self.edges.len();
        let mut names: Vec<String> = Vec::new();
        let mut i: usize = self.next;
        assert(queue.take(0).len() == 0);
        assert(crate::text::texts(names@) == Seq::<Text>::empty());
        while i < self.edges.len()
            invariant
                self.next <= i <= self.edges@.len(),
                end == self.edges@.len(),
                queue == self@.edges.skip(self@.next),
                crate::text::texts(names@) == unfetched(
                    self@.known,
                    queue.take(i - self.next),
                ),
            decreases self.edges@.len() - i,
        {
            let name = self.edges[i].name.as_str();
            let ghost before = names@;
            assert(queue.take(i - self.next + 1).drop_last() == queue.take(i - self.next));
            assert(queue.take(i - self.next + 1).last() == self.edges@[i as int]@);
            if self.find_reply(name).is_none() && !is_listed(&names, name) {
                names.push(name.to_owned());
                assert(crate::text::texts(names@) == crate::text::texts(before).push(name@));
            }
            i = i + 1;
        }
        assert(queue.take(i - self.next) == queue);
        names
    }

    /// The event that tells of the package that was resolved last, with how many there are.
    pub fn latest(&self) -> (r: Option<ResolveEvent>)
        ensures
            match r {
                None => self@.resolved.len() == 0,
                Some(event) => self@.resolved.len() > 0 && (
                event matches ResolveEvent::Resolved { count, name, version } && count
                    == self@.resolved.len() && name@ == self@.resolved.last().name && version@
                    == self@.resolved.last().version),
            },
    {
        let count: usize = self.resolved.len();
        if count == 0 {
            return None;
        }
        let package = &self.resolved[count - 1];
        assert(self@.resolved.last() == package@);
        Some(
            ResolveEvent::Resolved {
                count,
                name: package.name.clone(),
                version: package.version.as_str().to_owned(),
            },
        )
    }

    /// Hand in what was fetched for `name`.
    pub fn supply(&mut self, name: String, reply: Result<Json, String>)
        ensures
            final(self)@ == (WalkView {
                known: old(self)@.known.push((name@, reply_view(reply))),
                ..old(self)@
            }),
    {
        let ghost before = self@.known;
        self.known.push((name, reply));
        assert(self@.known == before.push((name@, reply_view(reply))));
    }
}

impl Walk {
    /// Hand in what a round of fetching gave, in order. A failure is recorded like a document;
    /// what it means is decided when an edge needs it.
    pub fn supply_all(&mut self, replies: Vec<(String, Result<Json, String>)>)
        ensures
            final(self)@ == (WalkView {
                known: old(self)@.known + reply_views(replies@),
                ..old(self)@
            }),
    {
        let ghost before = self@.known;
        let ghost added = reply_views(replies@);
        let mut replies = replies;
        self.known.append(&mut replies);
        assert(self@.known == before + added);
    }
}

// ---------------------------------------------------------------------------
// The result
// ---------------------------------------------------------------------------

/// `a` comes before `b` in a result: by name, then by version.
pub open spec fn package_before(a: ResolvedView, b: ResolvedView) -> bool {
    crate::text::precedes(a.name, b.name) || a.name == b.name && crate::version::older(
        a.version,
        b.version,
    )
}

/// `a` comes before `b` in a report: by name, then by spec.
pub open spec fn omission_before(a: OmissionView, b: OmissionView) -> bool {
    crate::text::precedes(a.name, b.name) || a.name == b.name && crate::text::precedes(
        a.spec,
        b.spec,
    )
}

/// Where `item` belongs in `list`: before the first package that it comes before.
pub open spec fn package_place(list: Seq<ResolvedView>, item: ResolvedView) -> int
    decreases list.len(),
{
    if list.len() == 0 {
        0
    } else {
        let place = package_place(list.drop_last(), item);
        if place < list.len() - 1 || package_before(item, list.last()) {
            place
        } else {
            list.len() as int
        }
    }
}

/// The packages by name, then by version.
pub open spec fn packages_in_order(list: Seq<ResolvedView>) -> Seq<ResolvedView>
    decreases list.len(),
{
    if list.len() == 0 {
        Seq::empty()
    } else {
        let rest = packages_in_order(list.drop_last());
        rest.insert(package_place(rest, list.last()), list.last())
    }
}

/// Where `item` belongs in `list`: before the first omission that it comes before.
pub open spec fn omission_place(list: Seq<OmissionView>, item: OmissionView) -> int
    decreases list.len(),
{
    if list.len() == 0 {
        0
    } else {
        let place = omission_place(list.drop_last(), item);
        if place < list.len() - 1 || omission_before(item, list.last()) {
            place
        } else {
            list.len() as int
        }
    }
}

/// The omissions by name, then by spec; those that agree in both keep their order.
pub open spec fn omissions_in_order(list: Seq<OmissionView>) -> Seq<OmissionView>
    decreases list.len(),
{
    if list.len() == 0 {
        Seq::empty()
    } else {
        let rest = omissions_in_order(list.drop_last());
        rest.insert(omission_place(rest, list.last()), list.last())
    }
}

fn goes_before(a: &Resolved, b: &Resolved) -> (r: bool)
    ensures
        r == package_before(a@, b@),
        r ==> !package_before(b@, a@),
        r ==> forall|c: ResolvedView| #[trigger] package_before(c, a@) ==> package_before(c, b@),
{
    proof {
        crate::text::law_text_order_is_total(a.name@, b.name@, a.name@);
        assert forall|c: ResolvedView|
            crate::text::precedes(a.name@, b.name@) && #[trigger] package_before(
                c,
                a@,
            ) implies package_before(c, b@) by {
            crate::text::law_text_order_is_total(c.name, a.name@, b.name@);
        }
    }
    before(a.name.as_str(), b.name.as_str()) || same(a.name.as_str(), b.name.as_str())
        && a.version.older_than(&b.version)
}

fn is_reported_before(a: &Omission, b: &Omission) -> (r: bool)
    ensures
        r == omission_before(a@, b@),
{
    before(a.name.as_str(), b.name.as_str()) || same(a.name.as_str(), b.name.as_str()) && before(
        a.spec.as_str(),
        b.spec.as_str(),
    )
}

fn find_package_place(list: &Vec<Resolved>, item: &Resolved) -> (r: usize)
    ensures
        r == package_place(package_views(list@), item@),
        r <= list@.len(),
        forall|k: int| 0 <= k < r ==> !package_before(item@, (#[trigger] list@[k])@),
        r < list@.len() ==> !package_before(list@[r as int]@, item@),
        r < list@.len() ==> forall|c: ResolvedView| #[trigger]
            package_before(c, item@) ==> package_before(c, list@[r as int]@),
{
    let ghost all = package_views(list@);
    let mut place: usize = 0;
    let mut i: usize = 0;
    while i < list.len()
        invariant
            place <= i <= list@.len(),
            all == package_views(list@),
            place == package_place(all.take(i as int), item@),
            forall|k: int| 0 <= k < place ==> !package_before(item@, (#[trigger] list@[k])@),
            place < i ==> !package_before(list@[place as int]@, item@),
            place < i ==> forall|c: ResolvedView| #[trigger]
                package_before(c, item@) ==> package_before(c, list@[place as int]@),
        decreases list@.len() - i,
    {
        assert(all.take(i + 1).drop_last() == all.take(i as int));
        assert(all.take(i + 1).last() == list@[i as int]@);
        if place == i && !goes_before(item, &list[i]) {
            place = i + 1;
        }
        i = i + 1;
    }
    assert(all.take(i as int) == all);
    place
}

fn find_omission_place(list: &Vec<Omission>, item: &Omission) -> (r: usize)
    ensures
        r == omission_place(crate::registry::omission_views(list@), item@),
        r <= list@.len(),
{
    let ghost all = crate::registry::omission_views(list@);
    let mut place: usize = 0;
    let mut i: usize = 0;
    while i < list.len()
        invariant
            place <= i <= list@.len(),
            all == crate::registry::omission_views(list@),
            place == omission_place(all.take(i as int), item@),
        decreases list@.len() - i,
    {
        assert(all.take(i + 1).drop_last() == all.take(i as int));
        assert(all.take(i + 1).last() == list@[i as int]@);
        if place == i && !is_reported_before(item, &list[i]) {
            place = i + 1;
        }
        i = i + 1;
    }
    assert(all.take(i as int) == all);
    place
}

/// No package comes before an earlier one.
pub open spec fn packages_are_ordered(list: Seq<ResolvedView>) -> bool {
    forall|i: int, j: int|
        #![trigger list[i], list[j]]
        0 <= i < j < list.len() ==> !package_before(list[j], list[i])
}

/// Sort packages by name, then by version.
fn sort_packages(list: Vec<Resolved>) -> (r: Vec<Resolved>)
    ensures
        package_views(r@) == packages_in_order(package_views(list@)),
        packages_are_ordered(package_views(r@)),
{
    let ghost whole = list@;
    let ghost all = package_views(whole);
    let mut rest = list;
    let mut out: Vec<Resolved> = Vec::new();
    let ghost mut done: int = 0;
    assert(all.take(0).len() == 0);
    assert(package_views(out@) == Seq::<ResolvedView>::empty());
    while rest.len() > 0
        invariant
            0 <= done <= whole.len(),
            all == package_views(whole),
            rest@ == whole.skip(done),
            package_views(out@) == packages_in_order(all.take(done)),
            packages_are_ordered(package_views(out@)),
        decreases rest@.len(),
    {
        let ghost earlier = package_views(out@);
        assert(all.take(done + 1).drop_last() == all.take(done));
        assert(all.take(done + 1).last() == rest@[0]@);
        let item = rest.remove(0);
        let place = find_package_place(&out, &item);
        let ghost placed = item@;
        let ghost listed = out@;
        out.insert(place, item);
        assert(package_views(out@) == earlier.insert(place as int, placed));
        proof {
            let later = package_views(out@);
            assert forall|i: int, j: int|
                #![trigger later[i], later[j]]
                0 <= i < j < later.len() implies !package_before(later[j], later[i]) by {
                if j == place {
                    assert(later[i] == listed[i]@);
                } else if i == place {
                    assert(later[j] == earlier[j - 1]);
                    assert(earlier[place as int] == listed[place as int]@);
                } else {
                    let a = if i < place { i } else { i - 1 };
                    let b = if j < place { j } else { j - 1 };
                    assert(later[i] == earlier[a] && later[j] == earlier[b]);
                }
            }
            done = done + 1;
        }
    }
    assert(all.take(done) == all);
    out
}

/// Sort omissions by name, then by spec.
fn sort_omissions(list: Vec<Omission>) -> (r: Vec<Omission>)
    ensures
        crate::registry::omission_views(r@) == omissions_in_order(
            crate::registry::omission_views(list@),
        ),
{
    let ghost whole = list@;
    let ghost all = crate::registry::omission_views(whole);
    let mut rest = list;
    let mut out: Vec<Omission> = Vec::new();
    let ghost mut done: int = 0;
    assert(all.take(0).len() == 0);
    assert(crate::registry::omission_views(out@) == Seq::<OmissionView>::empty());
    while rest.len() > 0
        invariant
            0 <= done <= whole.len(),
            all == crate::registry::omission_views(whole),
            rest@ == whole.skip(done),
            crate::registry::omission_views(out@) == omissions_in_order(all.take(done)),
        decreases rest@.len(),
    {
        let ghost earlier = crate::registry::omission_views(out@);
        assert(all.take(done + 1).drop_last() == all.take(done));
        assert(all.take(done + 1).last() == rest@[0]@);
        let item = rest.remove(0);
        let place = find_omission_place(&out, &item);
        let ghost placed = item@;
        out.insert(place, item);
        assert(crate::registry::omission_views(out@) == earlier.insert(place as int, placed));
        proof {
            done = done + 1;
        }
    }
    assert(all.take(done) == all);
    out
}

impl Walk {
    /// What the walk found: the packages by name and version, the omissions by name and spec.
    pub fn finish(self) -> (r: (Vec<Resolved>, Vec<Omission>))
        ensures
            package_views(r.0@) == packages_in_order(self@.resolved),
            packages_are_ordered(package_views(r.0@)),
            crate::registry::omission_views(r.1@) == omissions_in_order(self@.omissions),
    {
        (sort_packages(self.resolved), sort_omissions(self.omissions))
    }
}

// ---------------------------------------------------------------------------
// Whole walks
// ---------------------------------------------------------------------------

/// The walk after `n` steps.
pub open spec fn walked(w: WalkView, n: nat) -> WalkView
    decreases n,
{
    if n == 0 {
        w
    } else {
        stepped(walked(w, (n - 1) as nat))
    }
}

/// What a walk gives, once it is over: its packages and omissions in order, or why it failed. A
/// package without a document fails it.
pub open spec fn walk_result(w: WalkView) -> Option<
    Result<(Seq<ResolvedView>, Seq<OmissionView>), Text>,
> {
    match decision(w) {
        Decision::Finished => Some(
            Ok((packages_in_order(w.resolved), omissions_in_order(w.omissions))),
        ),
        Decision::Wanted(name) => Some(Err("no packument for "@ + name)),
        Decision::Failed(fault) => Some(Err(fault)),
        _ => None,
    }
}

/// A walk at its roots, with all documents at hand.
pub open spec fn at_roots(
    base: Text,
    policy: WalkPolicy,
    roots: Seq<EdgeView>,
    documents: Seq<(Text, Reply)>,
) -> WalkView {
    WalkView {
        base,
        policy,
        edges: roots,
        next: 0,
        known: documents,
        resolved: Seq::empty(),
        omissions: Seq::empty(),
    }
}

/// `r` is what the walk from `start` gives.
pub open spec fn is_walk_result(
    start: WalkView,
    r: Result<(Vec<Resolved>, Vec<Omission>), String>,
) -> bool {
    exists|n: nat|
        #![trigger walked(start, n)]
        walk_result(walked(start, n)) == Some(
            match r {
                Ok((packages, omissions)) => Ok::<
                    (Seq<ResolvedView>, Seq<OmissionView>),
                    Text,
                >(
                    (
                        package_views(packages@),
                        crate::registry::omission_views(omissions@),
                    ),
                ),
                Err(message) => Err(message@),
            },
        )
}

/// `r` is what the walk from `start` gives, the omissions left out.
pub open spec fn is_package_result(start: WalkView, r: Result<Vec<Resolved>, String>) -> bool {
    exists|n: nat|
        #![trigger walked(start, n)]
        match walk_result(walked(start, n)) {
            Some(Ok((packages, _))) => r matches Ok(list) && package_views(list@) == packages,
            Some(Err(fault)) => r matches Err(message) && message@ == fault,
            None => false,
        }
}

/// Plain roots as required edges.
pub open spec fn required(roots: Seq<(String, Range)>) -> Seq<EdgeView> {
    Seq::new(
        roots.len(),
        |i: int| EdgeView { name: roots[i].0@, range: roots[i].1@, optional: false },
    )
}

/// Plain roots as required edges.
pub fn required_roots(roots: &Vec<(String, Range)>) -> (r: Vec<Edge>)
    ensures
        edge_views(r@) == required(roots@),
{
    let mut edges: Vec<Edge> = Vec::new();
    let mut i: usize = 0;
    while i < roots.len()
        invariant
            i <= roots@.len(),
            edge_views(edges@) == required(roots@).take(i as int),
        decreases roots@.len() - i,
    {
        let ghost before = edges@;
        let edge = Edge { name: roots[i].0.clone(), range: roots[i].1.clone(), optional: false };
        edges.push(edge);
        assert(edge_views(edges@) == edge_views(before).push(edge@));
        assert(edge@ == required(roots@)[i as int]);
        i = i + 1;
    }
    assert(required(roots@).take(i as int) == required(roots@));
    edges
}

impl Registry {
    /// Walk the dependency graph of `roots` with all documents at hand.
    pub fn resolve_walk(
        &self,
        roots: Vec<Edge>,
        documents: Vec<(String, Result<Json, String>)>,
        policy: WalkPolicy,
    ) -> (r: Result<(Vec<Resolved>, Vec<Omission>), String>)
        ensures
            is_walk_result(
                at_roots(self.base_url@, policy, edge_views(roots@), reply_views(documents@)),
                r,
            ),
            r matches Ok((packages, _)) ==> packages_are_ordered(package_views(packages@)),
    {
        let mut walk = Walk::new(self, roots, policy);
        walk.supply_all(documents);
        let ghost start = walk@;
        assert(start.known == reply_views(documents@));
        let ghost mut n: nat = 0;
        proof {
            crate::soundness::law_new_walks_are_sound(
                start.base,
                policy,
                start.edges,
                start.known,
            );
        }
        loop
            invariant
                walk.wf(),
                crate::soundness::sound(walk@),
                walk@ == walked(start, n),
                start == at_roots(
                    self.base_url@,
                    policy,
                    edge_views(roots@),
                    reply_views(documents@),
                ),
            decreases crate::soundness::room(walk@), walk@.edges.len() - walk@.next,
        {
            let ghost w = walk@;
            proof {
                crate::soundness::law_steps_keep_walks_sound(w);
                crate::soundness::law_steps_make_progress(w);
                crate::soundness::law_walks_are_bounded(w);
            }
            match walk.step() {
                Step::Finished => {
                    assert(walk_result(walked(start, n)) is Some);
                    return Ok(walk.finish());
                },
                Step::Wanted(name) => {
                    let mut message = "no packument for ".to_owned();
                    message.append(name.as_str());
                    assert(walk_result(walked(start, n)) == Some(
                        Err::<(Seq<ResolvedView>, Seq<OmissionView>), Text>(message@),
                    ));
                    return Err(message);
                },
                Step::Failed(message) => {
                    assert(walk_result(walked(start, n)) == Some(
                        Err::<(Seq<ResolvedView>, Seq<OmissionView>), Text>(message@),
                    ));
                    return Err(message);
                },
                _ => {},
            }
            proof {
                n = n + 1;
            }
        }
    }

    /// Resolve the dependency graph of `roots` into a flat set: one version per package, sorted
    /// by name. Requirements that disagree are an error.
    pub fn resolve_tree(
        &self,
        roots: &Vec<(String, Range)>,
        documents: Vec<(String, Result<Json, String>)>,
    ) -> (r: Result<Vec<Resolved>, String>)
        ensures
            is_package_result(
                at_roots(
                    self.base_url@,
                    flat_install(),
                    required(roots@),
                    reply_views(documents@),
                ),
                r,
            ),
            r matches Ok(packages) ==> packages_are_ordered(package_views(packages@)),
    {
        match self.resolve_walk(required_roots(roots), documents, WalkPolicy::flat()) {
            Ok((packages, _)) => Ok(packages),
            Err(message) => Err(message),
        }
    }

    /// Resolve the dependency graph of `roots` as nested `node_modules` would: a version per
    /// disagreeing range, optional dependencies included, sorted by name and version.
    pub fn resolve_tree_nested(
        &self,
        roots: &Vec<(String, Range)>,
        documents: Vec<(String, Result<Json, String>)>,
    ) -> (r: Result<Vec<Resolved>, String>)
        ensures
            is_package_result(
                at_roots(
                    self.base_url@,
                    nested_audit(),
                    required(roots@),
                    reply_views(documents@),
                ),
                r,
            ),
            r matches Ok(packages) ==> packages_are_ordered(package_views(packages@)),
    {
        match self.resolve_tree_nested_observed(required_roots(roots), documents) {
            Ok((packages, _)) => Ok(packages),
            Err(message) => Err(message),
        }
    }

    /// [`Registry::resolve_tree_nested`] from roots that may be optional, with what was not
    /// followed.
    pub fn resolve_tree_nested_observed(
        &self,
        roots: Vec<Edge>,
        documents: Vec<(String, Result<Json, String>)>,
    ) -> (r: Result<(Vec<Resolved>, Vec<Omission>), String>)
        ensures
            is_walk_result(
                at_roots(
                    self.base_url@,
                    nested_audit(),
                    edge_views(roots@),
                    reply_views(documents@),
                ),
                r,
            ),
            r matches Ok((packages, _)) ==> packages_are_ordered(package_views(packages@)),
    {
        self.resolve_walk(roots, documents, WalkPolicy::audit())
    }
}

}
