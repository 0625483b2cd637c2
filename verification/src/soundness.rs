//! What holds of every walk, however it was driven.

use crate::registry::{DependencyView, OmissionView, ResolvedView};
use crate::text::Text;
use crate::walk::{Child, Decision, EdgeView, Reply, WalkView};
use vstd::prelude::*;

verus! {

// ---------------------------------------------------------------------------
// The invariant
// ---------------------------------------------------------------------------

/// No package version is resolved twice.
pub open spec fn versions_are_distinct(w: WalkView) -> bool {
    forall|i: int, j: int|
        #![trigger w.resolved[i], w.resolved[j]]
        0 <= i < j < w.resolved.len() ==> w.resolved[i].name != w.resolved[j].name
            || w.resolved[i].version != w.resolved[j].version
}

/// A flat walk resolves each package once.
pub open spec fn names_are_distinct(w: WalkView) -> bool {
    forall|i: int, j: int|
        #![trigger w.resolved[i], w.resolved[j]]
        0 <= i < j < w.resolved.len() ==> w.resolved[i].name != w.resolved[j].name
}

/// `package` is a version that the fetched document of its name publishes.
pub open spec fn is_known(known: Seq<(Text, Reply)>, package: ResolvedView) -> bool {
    &&& crate::version::is_version(package.version)
    &&& crate::walk::reply_for(known, package.name) matches Some(Ok(doc))
    &&& crate::registry::published(doc) matches Some(list)
    &&& exists|k: int| 0 <= k < list.len() && (#[trigger] list[k]).0 == package.version
}

/// An omission of `edge` is recorded.
pub open spec fn omits(omissions: Seq<OmissionView>, edge: EdgeView) -> bool {
    exists|i: int|
        0 <= i < omissions.len() && (#[trigger] omissions[i]).name == edge.name
            && omissions[i].spec == crate::dependency::range_text(edge.range)
}

/// `edge` is settled: a resolved version satisfies it, or it is optional and recorded as omitted.
pub open spec fn is_settled(w: WalkView, edge: EdgeView) -> bool {
    ||| crate::walk::satisfied(w.resolved, edge.name, edge.range)
    ||| w.policy.skip_unsupported && edge.optional && omits(w.omissions, edge)
}

/// The dependency `dep` of `package` is queued as an edge, or recorded as an omission.
pub open spec fn is_accounted_for(
    w: WalkView,
    package: ResolvedView,
    dep: DependencyView,
) -> bool {
    exists|optional: bool| #[trigger] accounted_as(w, package, dep, optional)
}

/// [`is_accounted_for`], where `optional` says whether the package itself was optional.
pub open spec fn accounted_as(
    w: WalkView,
    package: ResolvedView,
    dep: DependencyView,
    optional: bool,
) -> bool {
    match crate::walk::child(
        w.policy,
        crate::walk::labelled(package.name, package.version),
        optional,
        dep,
    ) {
        Ok(Child::Follow(edge)) => w.edges.contains(edge),
        Ok(Child::Skip(omission)) => w.omissions.contains(omission),
        Err(_) => false,
    }
}

/// The dependencies that the walk reads for `package`.
pub open spec fn dependencies_read(w: WalkView, package: ResolvedView) -> Seq<DependencyView> {
    match crate::walk::reply_for(w.known, package.name) {
        Some(Ok(doc)) => crate::registry::dependencies(
            doc,
            package.version,
            w.policy.include_optional,
        ),
        _ => Seq::empty(),
    }
}

/// What holds of every walk.
pub open spec fn sound(w: WalkView) -> bool {
    &&& 0 <= w.next <= w.edges.len()
    &&& versions_are_distinct(w)
    &&& !w.policy.nested ==> names_are_distinct(w)
    &&& forall|i: int| 0 <= i < w.resolved.len() ==> is_known(w.known, #[trigger] w.resolved[i])
    &&& forall|k: int| 0 <= k < w.next ==> is_settled(w, #[trigger] w.edges[k])
    &&& forall|i: int, d: int|
        #![trigger dependencies_read(w, w.resolved[i])[d]]
        0 <= i < w.resolved.len() && 0 <= d < dependencies_read(w, w.resolved[i]).len()
            ==> is_accounted_for(w, w.resolved[i], dependencies_read(w, w.resolved[i])[d])
    &&& w.omissions.no_duplicates()
    &&& !w.policy.skip_unsupported ==> w.omissions.len() == 0
}

// ---------------------------------------------------------------------------
// Lemmas
// ---------------------------------------------------------------------------

/// The newest candidate is a candidate.
pub proof fn lemma_newest_is_candidate(
    list: Seq<(Text, crate::json::JsonView)>,
    requirements: Seq<Text>,
)
    ensures
        crate::registry::newest(list, requirements) matches Some(i) ==> 0 <= i < list.len()
            && crate::registry::is_candidate(list[i], requirements),
    decreases list.len(),
{
    if list.len() > 0 {
        lemma_newest_is_candidate(list.drop_last(), requirements);
    }
}

/// A document handed in later does not change what is known already.
pub proof fn lemma_reply_stays(known: Seq<(Text, Reply)>, entry: (Text, Reply), name: Text)
    ensures
        crate::walk::reply_for(known, name) matches Some(reply) ==> crate::walk::reply_for(
            known.push(entry),
            name,
        ) == Some(reply),
        entry.0 != name ==> crate::walk::reply_for(known.push(entry), name)
            == crate::walk::reply_for(known, name),
        crate::walk::reply_for(known.push(entry), entry.0) is Some,
{
    assert(known.push(entry).drop_last() == known);
}

/// No package is called `name` exactly when there is no first one.
proof fn lemma_first_named(resolved: Seq<ResolvedView>, name: Text)
    ensures
        crate::walk::first_named(resolved, name) is None ==> forall|i: int|
            0 <= i < resolved.len() ==> (#[trigger] resolved[i]).name != name,
        crate::walk::first_named(resolved, name) matches Some(i) ==> 0 <= i < resolved.len()
            && resolved[i].name == name,
    decreases resolved.len(),
{
    if resolved.len() > 0 {
        lemma_first_named(resolved.drop_last(), name);
        assert forall|i: int|
            crate::walk::first_named(resolved, name) is None && 0 <= i
                < resolved.len() implies (#[trigger] resolved[i]).name != name by {
            if i < resolved.len() - 1 {
                assert(resolved.drop_last()[i] == resolved[i]);
            }
        }
    }
}

/// Every dependency of a package becomes one of its edges or one of its omissions.
proof fn lemma_children_account(
    policy: crate::walk::WalkPolicy,
    parent: Text,
    optional: bool,
    deps: Seq<DependencyView>,
    d: int,
)
    requires
        0 <= d < deps.len(),
        crate::walk::children(policy, parent, optional, deps) is Ok,
    ensures
        ({
            let (edges, skipped) = crate::walk::children(policy, parent, optional, deps)->Ok_0;
            match crate::walk::child(policy, parent, optional, deps[d]) {
                Ok(Child::Follow(edge)) => edges.contains(edge),
                Ok(Child::Skip(omission)) => skipped.contains(omission),
                Err(_) => false,
            }
        }),
    decreases deps.len(),
{
    let (edges, skipped) = crate::walk::children(policy, parent, optional, deps)->Ok_0;
    let (e, s) = crate::walk::children(policy, parent, optional, deps.drop_last())->Ok_0;
    if d == deps.len() - 1 {
        match crate::walk::child(policy, parent, optional, deps[d]) {
            Ok(Child::Follow(edge)) => {
                assert(edges[e.len() as int] == edge);
            },
            Ok(Child::Skip(omission)) => {
                assert(skipped[s.len() as int] == omission);
            },
            Err(_) => {},
        }
    } else {
        lemma_children_account(policy, parent, optional, deps.drop_last(), d);
        match crate::walk::child(policy, parent, optional, deps[d]) {
            Ok(Child::Follow(edge)) => {
                let k = choose|k: int| 0 <= k < e.len() && e[k] == edge;
                assert(edges[k] == edge);
            },
            Ok(Child::Skip(omission)) => {
                let k = choose|k: int| 0 <= k < s.len() && s[k] == omission;
                assert(skipped[k] == omission);
            },
            Err(_) => {},
        }
    }
}

/// Without a policy that skips, no dependency becomes an omission.
proof fn lemma_children_skip_nothing(
    policy: crate::walk::WalkPolicy,
    parent: Text,
    optional: bool,
    deps: Seq<DependencyView>,
)
    requires
        !policy.skip_unsupported,
    ensures
        crate::walk::children(policy, parent, optional, deps) matches Ok((_, skipped))
            ==> skipped.len() == 0,
    decreases deps.len(),
{
    if deps.len() > 0 {
        lemma_children_skip_nothing(policy, parent, optional, deps.drop_last());
    }
}

/// Recording keeps what was recorded, records what is new, and records nothing twice.
proof fn lemma_recording(list: Seq<OmissionView>, omission: OmissionView)
    requires
        list.no_duplicates(),
    ensures
        crate::registry::with_omission(list, omission).no_duplicates(),
        crate::registry::with_omission(list, omission).contains(omission),
        list.is_prefix_of(crate::registry::with_omission(list, omission)),
{
    if !list.contains(omission) {
        let longer = list.push(omission);
        assert(longer[list.len() as int] == omission);
        assert(longer.subrange(0, list.len() as int) == list);
        assert forall|i: int, j: int|
            0 <= i < longer.len() && 0 <= j < longer.len() && i != j implies longer[i]
            != longer[j] by {
            if i == list.len() {
                assert(list[j] == longer[j]);
                assert(list.contains(list[j]));
            } else if j == list.len() {
                assert(list[i] == longer[i]);
                assert(list.contains(list[i]));
            }
        }
    } else {
        assert(list.subrange(0, list.len() as int) == list);
    }
}

/// [`lemma_recording`] for several omissions.
proof fn lemma_recording_all(list: Seq<OmissionView>, omissions: Seq<OmissionView>)
    requires
        list.no_duplicates(),
    ensures
        crate::walk::with_omissions(list, omissions).no_duplicates(),
        list.is_prefix_of(crate::walk::with_omissions(list, omissions)),
        forall|i: int|
            0 <= i < omissions.len() ==> crate::walk::with_omissions(list, omissions).contains(
                #[trigger] omissions[i],
            ),
    decreases omissions.len(),
{
    if omissions.len() == 0 {
        assert(list.subrange(0, list.len() as int) == list);
    } else {
        let inner = crate::walk::with_omissions(list, omissions.drop_last());
        lemma_recording_all(list, omissions.drop_last());
        lemma_recording(inner, omissions.last());
        let outer = crate::walk::with_omissions(list, omissions);
        assert(inner == outer.subrange(0, inner.len() as int));
        assert(list == inner.subrange(0, list.len() as int));
        assert(list == outer.subrange(0, list.len() as int));
        assert forall|i: int| 0 <= i < omissions.len() implies outer.contains(
            #[trigger] omissions[i],
        ) by {
            if i < omissions.len() - 1 {
                assert(omissions.drop_last()[i] == omissions[i]);
                let k = choose|k: int| 0 <= k < inner.len() && inner[k] == omissions[i];
                assert(outer[k] == inner[k]);
            }
        }
    }
}

/// A longer record contains what a shorter one does.
proof fn lemma_prefix_contains(short: Seq<OmissionView>, long: Seq<OmissionView>)
    requires
        short.is_prefix_of(long),
    ensures
        forall|o: OmissionView| short.contains(o) ==> #[trigger] long.contains(o),
        forall|i: int| 0 <= i < short.len() ==> #[trigger] long[i] == short[i],
{
    assert forall|i: int| 0 <= i < short.len() implies #[trigger] long[i] == short[i] by {
        assert(long.subrange(0, short.len() as int)[i] == long[i]);
    }
    assert forall|o: OmissionView| short.contains(o) implies #[trigger] long.contains(o) by {
        let k = choose|k: int| 0 <= k < short.len() && short[k] == o;
        assert(long[k] == o);
    }
}

/// What holds of settled edges and accounted dependencies stays so when the walk only grows.
proof fn lemma_growing(w: WalkView, v: WalkView)
    requires
        v.policy == w.policy,
        w.edges.len() <= v.edges.len(),
        forall|k: int| 0 <= k < w.edges.len() ==> #[trigger] v.edges[k] == w.edges[k],
        w.resolved.len() <= v.resolved.len(),
        forall|i: int| 0 <= i < w.resolved.len() ==> #[trigger] v.resolved[i] == w.resolved[i],
        w.omissions.is_prefix_of(v.omissions),
    ensures
        forall|edge: EdgeView| #[trigger] is_settled(w, edge) ==> is_settled(v, edge),
        forall|package: ResolvedView, dep: DependencyView|
            is_accounted_for(w, package, dep) ==> #[trigger] is_accounted_for(v, package, dep),
{
    lemma_prefix_contains(w.omissions, v.omissions);
    assert forall|edge: EdgeView| #[trigger] is_settled(w, edge) implies is_settled(v, edge) by {
        if crate::walk::satisfied(w.resolved, edge.name, edge.range) {
            let i = choose|i: int|
                0 <= i < w.resolved.len() && (#[trigger] w.resolved[i]).name == edge.name
                    && crate::dependency::range_admits(edge.range, w.resolved[i].version);
            assert(v.resolved[i] == w.resolved[i]);
        } else {
            let i = choose|i: int|
                0 <= i < w.omissions.len() && (#[trigger] w.omissions[i]).name == edge.name
                    && w.omissions[i].spec == crate::dependency::range_text(edge.range);
            assert(v.omissions[i] == w.omissions[i]);
        }
    }
    assert forall|package: ResolvedView, dep: DependencyView|
        is_accounted_for(w, package, dep) implies #[trigger] is_accounted_for(
        v,
        package,
        dep,
    ) by {
        let optional = choose|optional: bool| #[trigger] accounted_as(w, package, dep, optional);
        match crate::walk::child(
            w.policy,
            crate::walk::labelled(package.name, package.version),
            optional,
            dep,
        ) {
            Ok(Child::Follow(edge)) => {
                let k = choose|k: int| 0 <= k < w.edges.len() && w.edges[k] == edge;
                assert(v.edges[k] == edge);
            },
            _ => {},
        }
        assert(accounted_as(v, package, dep, optional));
    }
}

// ---------------------------------------------------------------------------
// Laws
// ---------------------------------------------------------------------------

/// A walk that has not begun is sound.
pub proof fn law_new_walks_are_sound(
    base: Text,
    policy: crate::walk::WalkPolicy,
    roots: Seq<EdgeView>,
    known: Seq<(Text, Reply)>,
)
    ensures
        sound(
            WalkView {
                base,
                policy,
                edges: roots,
                next: 0,
                known,
                resolved: Seq::empty(),
                omissions: Seq::empty(),
            },
        ),
{
}

/// Handing in a document keeps a walk sound.
pub proof fn law_supply_keeps_walks_sound(w: WalkView, name: Text, reply: Reply)
    requires
        sound(w),
    ensures
        sound(WalkView { known: w.known.push((name, reply)), ..w }),
{
    let v = WalkView { known: w.known.push((name, reply)), ..w };
    assert(w.omissions.subrange(0, w.omissions.len() as int) == w.omissions);
    lemma_growing(w, v);
    assert forall|i: int| 0 <= i < v.resolved.len() implies is_known(
        v.known,
        #[trigger] v.resolved[i],
    ) && dependencies_read(v, v.resolved[i]) == dependencies_read(w, w.resolved[i]) by {
        assert(is_known(w.known, w.resolved[i]));
        lemma_reply_stays(w.known, (name, reply), w.resolved[i].name);
    }
    assert forall|i: int, d: int|
        #![trigger dependencies_read(v, v.resolved[i])[d]]
        0 <= i < v.resolved.len() && 0 <= d < dependencies_read(
            v,
            v.resolved[i],
        ).len() implies is_accounted_for(
        v,
        v.resolved[i],
        dependencies_read(v, v.resolved[i])[d],
    ) by {
        assert(is_known(v.known, v.resolved[i]));
        assert(is_accounted_for(w, w.resolved[i], dependencies_read(w, w.resolved[i])[d]));
    }
    assert forall|k: int| 0 <= k < v.next implies is_settled(v, #[trigger] v.edges[k]) by {
        assert(is_settled(w, w.edges[k]));
    }
}

/// A step keeps a walk sound: no version is resolved twice and in a flat walk no name, whatever
/// is resolved is published by a fetched document, every edge that was taken is satisfied or
/// recorded, and so is every dependency of a resolved package. Nothing is dropped silently.
pub proof fn law_steps_keep_walks_sound(w: WalkView)
    requires
        sound(w),
    ensures
        sound(crate::walk::stepped(w)),
{
    let v = crate::walk::stepped(w);
    match crate::walk::decision(w) {
        Decision::Satisfied => {
            assert(w.omissions.subrange(0, w.omissions.len() as int) == w.omissions);
            lemma_growing(w, v);
            lemma_step_rest(w, v);
        },
        Decision::Omitted(omission) => {
            lemma_recording(w.omissions, omission);
            lemma_growing(w, v);
            let at = choose|at: int| 0 <= at < v.omissions.len() && v.omissions[at] == omission;
            assert(v.omissions[at].name == w.edges[w.next].name);
            assert(omits(v.omissions, w.edges[w.next]));
            assert(is_settled(v, w.edges[w.next]));
            lemma_step_rest(w, v);
        },
        Decision::Added(package, edges, skipped) => {
            lemma_added(w, package, edges, skipped);
        },
        _ => {
            assert(v == w);
        },
    }
}

/// The parts of soundness that a step which resolves nothing leaves alone.
proof fn lemma_step_rest(w: WalkView, v: WalkView)
    requires
        sound(w),
        w.next < w.edges.len(),
        v == (WalkView { next: w.next + 1, omissions: v.omissions, ..w }),
        v.omissions.no_duplicates(),
        !w.policy.skip_unsupported ==> v.omissions.len() == 0,
        is_settled(v, w.edges[w.next]),
        forall|edge: EdgeView| #[trigger] is_settled(w, edge) ==> is_settled(v, edge),
        forall|package: ResolvedView, dep: DependencyView|
            is_accounted_for(w, package, dep) ==> #[trigger] is_accounted_for(v, package, dep),
    ensures
        sound(v),
{
    assert forall|k: int| 0 <= k < v.next implies is_settled(v, #[trigger] v.edges[k]) by {
        if k < w.next {
            assert(is_settled(w, w.edges[k]));
        }
    }
    assert forall|i: int, d: int|
        #![trigger dependencies_read(v, v.resolved[i])[d]]
        0 <= i < v.resolved.len() && 0 <= d < dependencies_read(
            v,
            v.resolved[i],
        ).len() implies is_accounted_for(
        v,
        v.resolved[i],
        dependencies_read(v, v.resolved[i])[d],
    ) by {
        assert(dependencies_read(w, w.resolved[i]) == dependencies_read(v, v.resolved[i]));
        assert(is_accounted_for(w, w.resolved[i], dependencies_read(w, w.resolved[i])[d]));
    }
}

/// A step that resolves a package keeps a walk sound.
proof fn lemma_added(
    w: WalkView,
    package: ResolvedView,
    edges: Seq<EdgeView>,
    skipped: Seq<OmissionView>,
)
    requires
        sound(w),
        crate::walk::decision(w) == Decision::Added(package, edges, skipped),
    ensures
        sound(crate::walk::stepped(w)),
{
    let v = crate::walk::stepped(w);
    let edge = w.edges[w.next];
    let doc = crate::walk::reply_for(w.known, edge.name)->0->Ok_0;
    let s = crate::registry::selected(doc, edge.range)->0;
    let list = crate::registry::published(doc)->0;
    let at = crate::registry::newest(list, edge.range)->0;
    lemma_newest_is_candidate(list, edge.range);
    assert(list[at].0 == package.version);
    assert(is_known(v.known, package));
    lemma_first_named(w.resolved, edge.name);
    lemma_recording_all(w.omissions, skipped);
    lemma_growing(w, v);
    let deps = crate::registry::dependencies(doc, s.0, w.policy.include_optional);
    let parent = crate::walk::labelled(edge.name, s.0);
    if !w.policy.skip_unsupported {
        lemma_children_skip_nothing(w.policy, parent, edge.optional, deps);
        assert(v.omissions == w.omissions);
    }
    let last = w.resolved.len() as int;
    assert(v.resolved[last] == package);
    assert(crate::walk::satisfied(v.resolved, edge.name, edge.range));
    assert forall|i: int| 0 <= i < v.resolved.len() implies is_known(
        v.known,
        #[trigger] v.resolved[i],
    ) by {
        if i < last {
            assert(is_known(w.known, w.resolved[i]));
        }
    }
    assert forall|k: int| 0 <= k < v.next implies is_settled(v, #[trigger] v.edges[k]) by {
        if k < w.next {
            assert(is_settled(w, w.edges[k]));
        }
    }
    assert forall|i: int, j: int|
        #![trigger v.resolved[i], v.resolved[j]]
        0 <= i < j < v.resolved.len() implies v.resolved[i].name != v.resolved[j].name
        || v.resolved[i].version != v.resolved[j].version by {
        if j == last {
            if w.resolved[i].name == package.name && w.resolved[i].version == package.version {
                assert(crate::walk::satisfied(w.resolved, edge.name, edge.range));
            }
        } else {
            assert(w.resolved[i] == v.resolved[i] && w.resolved[j] == v.resolved[j]);
        }
    }
    assert(!w.policy.nested ==> names_are_distinct(v)) by {
        if !w.policy.nested {
            assert forall|i: int, j: int|
                #![trigger v.resolved[i], v.resolved[j]]
                0 <= i < j < v.resolved.len() implies v.resolved[i].name
                != v.resolved[j].name by {
                assert(w.resolved[i] == v.resolved[i]);
                if j < last {
                    assert(w.resolved[j] == v.resolved[j]);
                }
            }
        }
    }
    assert forall|i: int, d: int|
        #![trigger dependencies_read(v, v.resolved[i])[d]]
        0 <= i < v.resolved.len() && 0 <= d < dependencies_read(
            v,
            v.resolved[i],
        ).len() implies is_accounted_for(
        v,
        v.resolved[i],
        dependencies_read(v, v.resolved[i])[d],
    ) by {
        if i < last {
            assert(dependencies_read(w, w.resolved[i]) == dependencies_read(v, v.resolved[i]));
            assert(is_accounted_for(w, w.resolved[i], dependencies_read(w, w.resolved[i])[d]));
        } else {
            assert(dependencies_read(v, package) == deps);
            lemma_children_account(w.policy, parent, edge.optional, deps, d);
            match crate::walk::child(w.policy, parent, edge.optional, deps[d]) {
                Ok(Child::Follow(e)) => {
                    let k = choose|k: int| 0 <= k < edges.len() && edges[k] == e;
                    assert(v.edges[w.edges.len() + k] == e);
                },
                Ok(Child::Skip(o)) => {
                    let k = choose|k: int| 0 <= k < skipped.len() && skipped[k] == o;
                    assert(v.omissions.contains(skipped[k]));
                },
                Err(_) => {},
            }
            assert(accounted_as(v, package, deps[d], edge.optional));
        }
    }
}

// ---------------------------------------------------------------------------
// Termination
// ---------------------------------------------------------------------------

/// The versions that a reply publishes, each with the package's name.
pub open spec fn versions_in(name: Text, reply: Reply) -> Seq<(Text, Text)> {
    match reply {
        Ok(doc) => match crate::registry::published(doc) {
            Some(list) => Seq::new(list.len(), |i: int| (name, list[i].0)),
            None => Seq::empty(),
        },
        Err(_) => Seq::empty(),
    }
}

/// All versions that the fetched documents publish.
pub open spec fn all_versions(known: Seq<(Text, Reply)>) -> Seq<(Text, Text)>
    decreases known.len(),
{
    if known.len() == 0 {
        Seq::empty()
    } else {
        all_versions(known.drop_last()) + versions_in(known.last().0, known.last().1)
    }
}

/// How many steps a walk can still make that resolve something.
pub open spec fn room(w: WalkView) -> int {
    all_versions(w.known).len() - w.resolved.len()
}

proof fn lemma_known_is_listed(known: Seq<(Text, Reply)>, package: ResolvedView)
    requires
        is_known(known, package),
    ensures
        all_versions(known).contains((package.name, package.version)),
    decreases known.len(),
{
    let earlier = all_versions(known.drop_last());
    let here = versions_in(known.last().0, known.last().1);
    let all = all_versions(known);
    if crate::walk::reply_for(known.drop_last(), package.name) is Some {
        assert(is_known(known.drop_last(), package));
        lemma_known_is_listed(known.drop_last(), package);
        let k = choose|k: int|
            0 <= k < earlier.len() && earlier[k] == (package.name, package.version);
        assert(all[k] == earlier[k]);
    } else {
        let doc = crate::walk::reply_for(known, package.name)->0->Ok_0;
        let list = crate::registry::published(doc)->0;
        let k = choose|k: int| 0 <= k < list.len() && (#[trigger] list[k]).0 == package.version;
        assert(here[k] == (package.name, package.version));
        assert(all[earlier.len() + k] == here[k]);
    }
}

/// A walk never resolves more versions than the fetched documents publish.
pub proof fn law_walks_are_bounded(w: WalkView)
    requires
        sound(w),
    ensures
        0 <= room(w),
{
    let pairs = Seq::new(w.resolved.len(), |i: int| (w.resolved[i].name, w.resolved[i].version));
    let all = all_versions(w.known);
    assert(pairs.no_duplicates()) by {
        assert forall|i: int, j: int|
            0 <= i < pairs.len() && 0 <= j < pairs.len() && i != j implies pairs[i]
            != pairs[j] by {
            if i < j {
                assert(w.resolved[i].name != w.resolved[j].name || w.resolved[i].version
                    != w.resolved[j].version);
            } else {
                assert(w.resolved[j].name != w.resolved[i].name || w.resolved[j].version
                    != w.resolved[i].version);
            }
        }
    }
    assert(pairs.to_set().subset_of(all.to_set())) by {
        assert forall|p: (Text, Text)| pairs.to_set().contains(p) implies all.to_set().contains(
            p,
        ) by {
            let i = choose|i: int| 0 <= i < pairs.len() && pairs[i] == p;
            assert(is_known(w.known, w.resolved[i]));
            lemma_known_is_listed(w.known, w.resolved[i]);
        }
    }
    pairs.unique_seq_to_set();
    all.lemma_cardinality_of_set();
    vstd::seq_lib::seq_to_set_is_finite(all);
    vstd::set_lib::lemma_len_subset(pairs.to_set(), all.to_set());
}

/// Walks terminate: with the documents at hand, each step that takes an edge either resolves a
/// version, of which there is a bounded number, or shortens the queue.
pub proof fn law_steps_make_progress(w: WalkView)
    requires
        sound(w),
    ensures
        ({
            let v = crate::walk::stepped(w);
            ||| v == w && (crate::walk::decision(w) matches Decision::Finished
                || crate::walk::decision(w) matches Decision::Wanted(_)
                || crate::walk::decision(w) matches Decision::Failed(_))
            ||| 0 <= room(v) < room(w)
            ||| room(v) == room(w) && v.edges == w.edges && v.next == w.next + 1
        }),
{
    law_steps_keep_walks_sound(w);
    law_walks_are_bounded(w);
    law_walks_are_bounded(crate::walk::stepped(w));
}

// ---------------------------------------------------------------------------
// Fetching
// ---------------------------------------------------------------------------

/// When a document is handed in does not matter: a step that did not ask for one does the same
/// with more documents at hand.
pub proof fn law_documents_can_come_early(w: WalkView, name: Text, reply: Reply)
    requires
        !(crate::walk::decision(w) is Wanted),
    ensures
        ({
            let early = WalkView { known: w.known.push((name, reply)), ..w };
            let late = crate::walk::stepped(w);
            &&& crate::walk::decision(early) == crate::walk::decision(w)
            &&& crate::walk::stepped(early) == (WalkView {
                known: late.known.push((name, reply)),
                ..late
            })
        }),
{
    if w.next < w.edges.len() {
        lemma_reply_stays(w.known, (name, reply), w.edges[w.next].name);
    }
}

/// Whatever `known` has is what `table` has.
pub open spec fn agrees(known: Seq<(Text, Reply)>, table: Seq<(Text, Reply)>) -> bool {
    forall|name: Text|
        (#[trigger] crate::walk::reply_for(known, name)) is Some ==> crate::walk::reply_for(
            table,
            name,
        ) == crate::walk::reply_for(known, name)
}

/// Fetching in rounds, several documents at a time, gives what a sequential walk gives: a step
/// with only some of the documents of `table` is the step with all of them.
pub proof fn law_rounds_do_not_matter(w: WalkView, table: Seq<(Text, Reply)>)
    requires
        agrees(w.known, table),
        !(crate::walk::decision(w) is Wanted),
    ensures
        ({
            let whole = WalkView { known: table, ..w };
            let next = crate::walk::stepped(w);
            &&& crate::walk::decision(whole) == crate::walk::decision(w)
            &&& crate::walk::stepped(whole) == (WalkView { known: table, ..next })
            &&& agrees(next.known, table)
        }),
{
}

/// What a caller does with a walk.
pub enum Move {
    /// Make a step.
    Step,
    /// Hand in what was fetched for a package.
    Supply(Text, Reply),
}

/// The walk after one move.
pub open spec fn moved(w: WalkView, move_made: Move) -> WalkView {
    match move_made {
        Move::Step => crate::walk::stepped(w),
        Move::Supply(name, reply) => WalkView { known: w.known.push((name, reply)), ..w },
    }
}

/// The walk after all of `moves`.
pub open spec fn after_moves(w: WalkView, moves: Seq<Move>) -> WalkView
    decreases moves.len(),
{
    if moves.len() == 0 {
        w
    } else {
        moved(after_moves(w, moves.drop_last()), moves.last())
    }
}

/// How many of `moves` are steps.
pub open spec fn steps_in(moves: Seq<Move>) -> nat
    decreases moves.len(),
{
    if moves.len() == 0 {
        0
    } else {
        steps_in(moves.drop_last()) + if moves.last() is Step {
            1nat
        } else {
            0
        }
    }
}

/// `moves` drive the walk against a registry that answers as `table` does: what is handed in is
/// its answer, and no step is made before the document that it asks for came.
pub open spec fn drives(w: WalkView, table: Seq<(Text, Reply)>, moves: Seq<Move>) -> bool
    decreases moves.len(),
{
    moves.len() > 0 ==> {
        &&& drives(w, table, moves.drop_last())
        &&& match moves.last() {
            Move::Step => !(crate::walk::decision(
                after_moves(w, moves.drop_last()),
            ) is Wanted),
            Move::Supply(name, reply) => crate::walk::reply_for(table, name) == Some(reply),
        }
    }
}

/// Fetching in rounds, early or late, one document at a time or many, gives what a sequential
/// walk with all documents at hand gives: the same packages, omissions and queue after as many
/// steps, and in the end the same result.
pub proof fn law_fetching_does_not_change_the_walk(
    w: WalkView,
    table: Seq<(Text, Reply)>,
    moves: Seq<Move>,
)
    requires
        agrees(w.known, table),
        drives(w, table, moves),
    ensures
        ({
            let fetched = after_moves(w, moves);
            let sequential = crate::walk::walked(WalkView { known: table, ..w }, steps_in(moves));
            &&& sequential == (WalkView { known: table, ..fetched })
            &&& agrees(fetched.known, table)
            &&& !(crate::walk::decision(fetched) is Wanted) ==> crate::walk::walk_result(fetched)
                == crate::walk::walk_result(sequential)
        }),
    decreases moves.len(),
{
    let fetched = after_moves(w, moves);
    if moves.len() > 0 {
        law_fetching_does_not_change_the_walk(w, table, moves.drop_last());
        let earlier = after_moves(w, moves.drop_last());
        match moves.last() {
            Move::Step => {
                law_rounds_do_not_matter(earlier, table);
            },
            Move::Supply(name, reply) => {
                assert(fetched.known.drop_last() == earlier.known);
                assert forall|other: Text|
                    (#[trigger] crate::walk::reply_for(fetched.known, other)) is Some implies
                    crate::walk::reply_for(table, other) == crate::walk::reply_for(
                    fetched.known,
                    other,
                ) by {
                    assert(crate::walk::reply_for(earlier.known, other) is Some || other == name);
                }
            },
        }
    } else {
        assert(WalkView { known: table, ..fetched } == WalkView { known: table, ..w });
    }
    if !(crate::walk::decision(fetched) is Wanted) {
        law_rounds_do_not_matter(fetched, table);
    }
}

/// Each package is asked for once: the packages to fetch are distinct, nothing was fetched for
/// them, and no package that is already resolved is among them.
pub proof fn law_each_package_is_fetched_once(w: WalkView)
    requires
        sound(w),
    ensures
        ({
            let names = crate::walk::unfetched(w.known, w.edges.skip(w.next));
            &&& names.no_duplicates()
            &&& forall|i: int|
                0 <= i < names.len() ==> crate::walk::reply_for(
                    w.known,
                    #[trigger] names[i],
                ) is None
            &&& forall|i: int, r: int|
                0 <= i < names.len() && 0 <= r < w.resolved.len() ==> #[trigger] names[i] != (
                #[trigger] w.resolved[r]).name
        }),
{
    lemma_unfetched(w.known, w.edges.skip(w.next));
    let names = crate::walk::unfetched(w.known, w.edges.skip(w.next));
    assert forall|i: int, r: int|
        0 <= i < names.len() && 0 <= r < w.resolved.len() implies #[trigger] names[i] != (
    #[trigger] w.resolved[r]).name by {
        assert(is_known(w.known, w.resolved[r]));
        assert(crate::walk::reply_for(w.known, names[i]) is None);
    }
}

/// Once everything to fetch was handed in, no edge of the queue asks for a document.
pub proof fn law_a_round_has_what_it_needs(
    known: Seq<(Text, Reply)>,
    queue: Seq<EdgeView>,
    k: int,
)
    requires
        crate::walk::unfetched(known, queue).len() == 0,
        0 <= k < queue.len(),
    ensures
        crate::walk::reply_for(known, queue[k].name) is Some,
{
    lemma_unfetched(known, queue);
}

proof fn lemma_unfetched(known: Seq<(Text, Reply)>, queue: Seq<EdgeView>)
    ensures
        crate::walk::unfetched(known, queue).no_duplicates(),
        forall|i: int|
            0 <= i < crate::walk::unfetched(known, queue).len() ==> crate::walk::reply_for(
                known,
                #[trigger] crate::walk::unfetched(known, queue)[i],
            ) is None,
        forall|k: int|
            0 <= k < queue.len() ==> crate::walk::reply_for(
                known,
                (#[trigger] queue[k]).name,
            ) is Some || crate::walk::unfetched(known, queue).contains(queue[k].name),
    decreases queue.len(),
{
    if queue.len() > 0 {
        let inner = crate::walk::unfetched(known, queue.drop_last());
        let names = crate::walk::unfetched(known, queue);
        let name = queue.last().name;
        lemma_unfetched(known, queue.drop_last());
        if names != inner {
            assert(names == inner.push(name));
            assert(names[inner.len() as int] == name);
            assert forall|i: int, j: int|
                0 <= i < names.len() && 0 <= j < names.len() && i != j implies names[i]
                != names[j] by {
                if i < inner.len() {
                    assert(inner.contains(inner[i]));
                }
                if j < inner.len() {
                    assert(inner.contains(inner[j]));
                }
            }
        }
        assert forall|k: int| 0 <= k < queue.len() implies crate::walk::reply_for(
            known,
            (#[trigger] queue[k]).name,
        ) is Some || names.contains(queue[k].name) by {
            if k < queue.len() - 1 {
                assert(queue.drop_last()[k] == queue[k]);
                if inner.contains(queue[k].name) {
                    let i = choose|i: int| 0 <= i < inner.len() && inner[i] == queue[k].name;
                    assert(names[i] == inner[i]);
                }
            }
        }
    }
}

// ---------------------------------------------------------------------------
// Whole walks
// ---------------------------------------------------------------------------

/// However many steps it makes, a sound walk stays sound.
pub proof fn law_walks_stay_sound(w: WalkView, n: nat)
    requires
        sound(w),
    ensures
        sound(crate::walk::walked(w, n)),
    decreases n,
{
    if n > 0 {
        law_walks_stay_sound(w, (n - 1) as nat);
        law_steps_keep_walks_sound(crate::walk::walked(w, (n - 1) as nat));
    }
}

/// A walk that is over stays as it is.
proof fn lemma_over_stays_over(w: WalkView, n: nat, m: nat)
    requires
        n <= m,
        crate::walk::walk_result(crate::walk::walked(w, n)) is Some,
    ensures
        crate::walk::walked(w, m) == crate::walk::walked(w, n),
    decreases m - n,
{
    if n < m {
        lemma_over_stays_over(w, n, (m - 1) as nat);
    }
}

/// A walk has one result: it depends on the roots, the policy and the documents alone.
pub proof fn law_walks_have_one_result(w: WalkView, n: nat, m: nat)
    requires
        crate::walk::walk_result(crate::walk::walked(w, n)) is Some,
        crate::walk::walk_result(crate::walk::walked(w, m)) is Some,
    ensures
        crate::walk::walk_result(crate::walk::walked(w, n)) == crate::walk::walk_result(
            crate::walk::walked(w, m),
        ),
{
    if n <= m {
        lemma_over_stays_over(w, n, m);
    } else {
        lemma_over_stays_over(w, m, n);
    }
}

/// A walk that finishes has settled every edge that was ever queued, the roots among them.
pub proof fn law_finished_walks_settle_every_edge(w: WalkView, k: int)
    requires
        sound(w),
        crate::walk::decision(w) is Finished,
        0 <= k < w.edges.len(),
    ensures
        is_settled(w, w.edges[k]),
{
}

/// A walk keeps its roots, its policy and its registry.
pub proof fn law_walks_keep_their_roots(w: WalkView, n: nat)
    ensures
        ({
            let v = crate::walk::walked(w, n);
            &&& v.policy == w.policy
            &&& v.base == w.base
            &&& v.known == w.known
            &&& w.edges.len() <= v.edges.len()
            &&& forall|k: int| 0 <= k < w.edges.len() ==> #[trigger] v.edges[k] == w.edges[k]
        }),
    decreases n,
{
    if n > 0 {
        law_walks_keep_their_roots(w, (n - 1) as nat);
    }
}

/// In an install, nothing is left out: a walk that finishes satisfies every edge.
pub proof fn law_installs_satisfy_every_edge(w: WalkView, k: int)
    requires
        sound(w),
        w.policy == crate::walk::flat_install(),
        crate::walk::decision(w) is Finished,
        0 <= k < w.edges.len(),
    ensures
        crate::walk::satisfied(w.resolved, w.edges[k].name, w.edges[k].range),
        w.omissions.len() == 0,
{
    assert(is_settled(w, w.edges[k]));
}

/// A required edge is never omitted: a walk that finishes satisfies it.
pub proof fn law_required_edges_are_satisfied(w: WalkView, k: int)
    requires
        sound(w),
        crate::walk::decision(w) is Finished,
        0 <= k < w.edges.len(),
        !w.edges[k].optional,
    ensures
        crate::walk::satisfied(w.resolved, w.edges[k].name, w.edges[k].range),
{
    assert(is_settled(w, w.edges[k]));
}

// ---------------------------------------------------------------------------
// Order
// ---------------------------------------------------------------------------

proof fn lemma_package_place(list: Seq<ResolvedView>, item: ResolvedView)
    ensures
        0 <= crate::walk::package_place(list, item) <= list.len(),
    decreases list.len(),
{
    if list.len() > 0 {
        lemma_package_place(list.drop_last(), item);
    }
}

/// Sorting packages loses none and adds none.
pub proof fn law_sorting_packages_permutes(list: Seq<ResolvedView>)
    ensures
        crate::walk::packages_in_order(list).to_multiset() == list.to_multiset(),
    decreases list.len(),
{
    if list.len() > 0 {
        let rest = crate::walk::packages_in_order(list.drop_last());
        law_sorting_packages_permutes(list.drop_last());
        lemma_package_place(rest, list.last());
        vstd::seq_lib::to_multiset_insert(
            rest,
            crate::walk::package_place(rest, list.last()),
            list.last(),
        );
        vstd::seq_lib::to_multiset_build(list.drop_last(), list.last());
        assert(list.drop_last().push(list.last()) == list);
    } else {
        assert(crate::walk::packages_in_order(list) == list);
    }
}

/// Where `item` goes among omissions: after those that do not come after it, before the rest.
proof fn lemma_omission_place(list: Seq<OmissionView>, item: OmissionView)
    ensures
        ({
            let place = crate::walk::omission_place(list, item);
            &&& 0 <= place <= list.len()
            &&& forall|k: int|
                0 <= k < place ==> !crate::walk::omission_before(item, #[trigger] list[k])
            &&& place < list.len() ==> crate::walk::omission_before(item, list[place])
        }),
    decreases list.len(),
{
    if list.len() > 0 {
        let shorter = list.drop_last();
        lemma_omission_place(shorter, item);
        let place = crate::walk::omission_place(list, item);
        assert forall|k: int| 0 <= k < place implies !crate::walk::omission_before(
            item,
            #[trigger] list[k],
        ) by {
            if k < shorter.len() {
                assert(shorter[k] == list[k]);
            }
        }
        if place < shorter.len() {
            assert(shorter[place] == list[place]);
        }
    }
}

/// Sorting omissions loses none and adds none.
pub proof fn law_sorting_omissions_permutes(list: Seq<OmissionView>)
    ensures
        crate::walk::omissions_in_order(list).to_multiset() == list.to_multiset(),
    decreases list.len(),
{
    if list.len() > 0 {
        let rest = crate::walk::omissions_in_order(list.drop_last());
        law_sorting_omissions_permutes(list.drop_last());
        lemma_omission_place(rest, list.last());
        vstd::seq_lib::to_multiset_insert(
            rest,
            crate::walk::omission_place(rest, list.last()),
            list.last(),
        );
        vstd::seq_lib::to_multiset_build(list.drop_last(), list.last());
        assert(list.drop_last().push(list.last()) == list);
    } else {
        assert(crate::walk::omissions_in_order(list) == list);
    }
}

proof fn lemma_omission_order(a: OmissionView, b: OmissionView, c: OmissionView)
    ensures
        crate::walk::omission_before(a, b) ==> !crate::walk::omission_before(b, a),
        crate::walk::omission_before(a, b) && crate::walk::omission_before(b, c)
            ==> crate::walk::omission_before(a, c),
{
    crate::text::law_text_order_is_total(a.name, b.name, c.name);
    crate::text::law_text_order_is_total(a.spec, b.spec, c.spec);
    crate::text::law_text_order_is_total(a.name, b.name, a.name);
    crate::text::law_text_order_is_total(a.spec, b.spec, a.spec);
}

/// Omissions are reported by name, then by spec.
pub proof fn law_omissions_are_ordered(list: Seq<OmissionView>)
    ensures
        ({
            let sorted = crate::walk::omissions_in_order(list);
            forall|i: int, j: int|
                #![trigger sorted[i], sorted[j]]
                0 <= i < j < sorted.len() ==> !crate::walk::omission_before(sorted[j], sorted[i])
        }),
    decreases list.len(),
{
    if list.len() > 0 {
        let rest = crate::walk::omissions_in_order(list.drop_last());
        let item = list.last();
        law_omissions_are_ordered(list.drop_last());
        lemma_omission_place(rest, item);
        let place = crate::walk::omission_place(rest, item);
        let sorted = crate::walk::omissions_in_order(list);
        assert(sorted == rest.insert(place, item));
        assert forall|i: int, j: int|
            #![trigger sorted[i], sorted[j]]
            0 <= i < j < sorted.len() implies !crate::walk::omission_before(
            sorted[j],
            sorted[i],
        ) by {
            if j == place {
                assert(sorted[i] == rest[i]);
            } else if i == place {
                assert(sorted[j] == rest[j - 1]);
                lemma_omission_order(item, rest[place], item);
                lemma_omission_order(rest[j - 1], item, rest[place]);
            } else {
                let a = if i < place { i } else { i - 1 };
                let b = if j < place { j } else { j - 1 };
                assert(sorted[i] == rest[a] && sorted[j] == rest[b]);
            }
        }
    }
}

/// A flat result has one version per package.
pub proof fn law_flat_results_have_one_version_per_package(w: WalkView)
    requires
        sound(w),
        !w.policy.nested,
    ensures
        ({
            let packages = crate::walk::packages_in_order(w.resolved);
            forall|i: int, j: int|
                #![trigger packages[i], packages[j]]
                0 <= i < j < packages.len() ==> packages[i].name != packages[j].name
        }),
{
    lemma_sorted_names(w.resolved);
}

proof fn lemma_sorted_names(list: Seq<ResolvedView>)
    requires
        forall|i: int, j: int|
            #![trigger list[i], list[j]]
            0 <= i < j < list.len() ==> list[i].name != list[j].name,
    ensures
        ({
            let packages = crate::walk::packages_in_order(list);
            &&& forall|i: int, j: int|
                #![trigger packages[i], packages[j]]
                0 <= i < j < packages.len() ==> packages[i].name != packages[j].name
            &&& forall|i: int|
                0 <= i < packages.len() ==> list.contains(#[trigger] packages[i])
        }),
    decreases list.len(),
{
    if list.len() > 0 {
        let shorter = list.drop_last();
        let item = list.last();
        assert forall|i: int, j: int|
            #![trigger shorter[i], shorter[j]]
            0 <= i < j < shorter.len() implies shorter[i].name != shorter[j].name by {
            assert(shorter[i] == list[i] && shorter[j] == list[j]);
        }
        lemma_sorted_names(shorter);
        let rest = crate::walk::packages_in_order(shorter);
        lemma_package_place(rest, item);
        let place = crate::walk::package_place(rest, item);
        let packages = crate::walk::packages_in_order(list);
        assert(packages == rest.insert(place, item));
        assert(packages[place] == item);
        assert forall|i: int| 0 <= i < rest.len() implies (#[trigger] rest[i]).name != item.name
            && list.contains(rest[i]) by {
            assert(shorter.contains(rest[i]));
            let k = choose|k: int| 0 <= k < shorter.len() && shorter[k] == rest[i];
            assert(list[k] == rest[i]);
            assert(list[list.len() - 1] == item);
        }
        assert forall|i: int| 0 <= i < packages.len() implies list.contains(
            #[trigger] packages[i],
        ) by {
            if i == place {
                assert(list[list.len() - 1] == item);
            } else {
                let a = if i < place { i } else { i - 1 };
                assert(packages[i] == rest[a]);
            }
        }
        assert forall|i: int, j: int|
            #![trigger packages[i], packages[j]]
            0 <= i < j < packages.len() implies packages[i].name != packages[j].name by {
            if i != place {
                let a = if i < place { i } else { i - 1 };
                assert(packages[i] == rest[a]);
            }
            if j != place {
                let b = if j < place { j } else { j - 1 };
                assert(packages[j] == rest[b]);
            }
        }
    }
}

// ---------------------------------------------------------------------------
// Dependencies
// ---------------------------------------------------------------------------

/// No name occurs twice.
pub open spec fn one_per_name(list: Seq<DependencyView>) -> bool {
    forall|i: int, j: int|
        #![trigger list[i], list[j]]
        0 <= i < j < list.len() ==> list[i].0 != list[j].0
}

proof fn lemma_position(list: Seq<DependencyView>, name: Text)
    ensures
        match crate::registry::position_of(list, name) {
            Some(i) => 0 <= i < list.len() && list[i].0 == name,
            None => forall|i: int| 0 <= i < list.len() ==> (#[trigger] list[i]).0 != name,
        },
    decreases list.len(),
{
    if list.len() > 0 {
        lemma_position(list.drop_last(), name);
        if crate::registry::position_of(list, name) is None {
            assert forall|i: int| 0 <= i < list.len() implies (#[trigger] list[i]).0 != name by {
                if i < list.len() - 1 {
                    assert(list.drop_last()[i] == list[i]);
                }
            }
        }
    }
}

/// An optional dependency takes the place of a required one of its name, so that each name
/// occurs once: where the required ones have distinct names, so has the whole.
pub proof fn law_one_dependency_per_name(
    required: Seq<DependencyView>,
    optional: Seq<DependencyView>,
)
    requires
        one_per_name(required),
    ensures
        one_per_name(crate::registry::all_overlaid(required, optional)),
        forall|i: int|
            0 <= i < required.len() ==> (#[trigger] crate::registry::all_overlaid(
                required,
                optional,
            )[i]).0 == required[i].0,
        required.len() <= crate::registry::all_overlaid(required, optional).len(),
    decreases optional.len(),
{
    if optional.len() > 0 {
        law_one_dependency_per_name(required, optional.drop_last());
        let inner = crate::registry::all_overlaid(required, optional.drop_last());
        let outer = crate::registry::all_overlaid(required, optional);
        let entry = optional.last();
        lemma_position(inner, entry.0);
        assert forall|i: int, j: int|
            #![trigger outer[i], outer[j]]
            0 <= i < j < outer.len() implies outer[i].0 != outer[j].0 by {
            if j < inner.len() {
                assert(inner[i].0 != inner[j].0);
            } else {
                assert(outer[i] == inner[i]);
            }
        }
    }
}

/// The dependencies of a version whose metadata names each required dependency once name each
/// dependency once.
pub proof fn law_versions_have_one_dependency_per_name(
    doc: crate::json::JsonView,
    version: Text,
    include_optional: bool,
)
    requires
        one_per_name(
            crate::registry::declared_at(
                crate::registry::version_meta(doc, version),
                "dependencies"@,
                false,
            ),
        ),
    ensures
        one_per_name(crate::registry::dependencies(doc, version, include_optional)),
{
    let meta = crate::registry::version_meta(doc, version);
    law_one_dependency_per_name(
        crate::registry::declared_at(meta, "dependencies"@, false),
        crate::registry::declared_at(meta, "optionalDependencies"@, true),
    );
}

// ---------------------------------------------------------------------------
// Failures
// ---------------------------------------------------------------------------

/// A failed fetch is fatal to a required edge and to every edge of an install, with the error of
/// the fetch; an optional edge of an audit is recorded as an omission that says why.
pub proof fn law_failed_fetches_decide(w: WalkView, cause: Text)
    requires
        sound(w),
        w.next < w.edges.len(),
        crate::walk::reply_for(w.known, w.edges[w.next].name) == Some(
            Err::<crate::json::JsonView, Text>(cause),
        ),
    ensures
        ({
            let edge = w.edges[w.next];
            crate::walk::decision(w) == (if w.policy.skip_unsupported && edge.optional {
                Decision::Omitted(
                    OmissionView {
                        name: edge.name,
                        spec: crate::dependency::range_text(edge.range),
                        reason: "optional dependency failed to fetch: "@ + cause,
                    },
                )
            } else {
                Decision::Failed(cause)
            })
        }),
{
    let edge = w.edges[w.next];
    assert forall|i: int| 0 <= i < w.resolved.len() implies (#[trigger] w.resolved[i]).name
        != edge.name by {
        assert(is_known(w.known, w.resolved[i]));
    }
    lemma_first_named(w.resolved, edge.name);
}

/// An edge that a resolved version satisfies changes nothing but the queue: nothing is fetched,
/// resolved or recorded for it.
pub proof fn law_satisfied_edges_change_nothing(w: WalkView)
    requires
        w.next < w.edges.len(),
        crate::walk::satisfied(w.resolved, w.edges[w.next].name, w.edges[w.next].range),
    ensures
        crate::walk::stepped(w) == (WalkView { next: w.next + 1, ..w }),
{
}

/// What disagrees with a resolved version fails an install and is resolved beside it in an audit.
pub proof fn law_conflicts(w: WalkView)
    requires
        w.next < w.edges.len(),
        !crate::walk::satisfied(w.resolved, w.edges[w.next].name, w.edges[w.next].range),
        crate::walk::first_named(w.resolved, w.edges[w.next].name) is Some,
    ensures
        !w.policy.nested ==> crate::walk::decision(w) is Failed,
        w.policy.nested ==> (crate::walk::decision(w) matches Decision::Added(package, _, _)
            ==> forall|i: int|
            0 <= i < w.resolved.len() ==> (#[trigger] w.resolved[i]).name != package.name
                || w.resolved[i].version != package.version),
{
    let edge = w.edges[w.next];
    if let Decision::Added(package, _, _) = crate::walk::decision(w) {
        let doc = crate::walk::reply_for(w.known, edge.name)->0->Ok_0;
        let list = crate::registry::published(doc)->0;
        lemma_newest_is_candidate(list, edge.range);
        assert forall|i: int| 0 <= i < w.resolved.len() implies (#[trigger] w.resolved[i]).name
            != package.name || w.resolved[i].version != package.version by {
            if w.resolved[i].name == package.name && w.resolved[i].version == package.version {
                assert(crate::walk::satisfied(w.resolved, edge.name, edge.range));
            }
        }
    }
}

// ---------------------------------------------------------------------------
// Flat and nested walks
// ---------------------------------------------------------------------------

/// `dep` is required and its spec is a registry range, neither an alias nor another protocol.
pub open spec fn is_plain(dep: DependencyView) -> bool {
    let spec = crate::text::trimmed(dep.1);
    &&& !dep.2
    &&& !crate::text::begins(spec, "workspace:"@)
    &&& !crate::text::begins(spec, "link:"@)
    &&& crate::dependency::spec_of(spec) == crate::dependency::SpecView::Registry(spec)
}

/// The version has no optional dependencies, and each required one is plain.
pub open spec fn has_plain_dependencies(doc: crate::json::JsonView, version: Text) -> bool {
    let deps = crate::registry::dependencies(doc, version, false);
    &&& crate::registry::dependencies(doc, version, true) == deps
    &&& forall|d: int| 0 <= d < deps.len() ==> is_plain(#[trigger] deps[d])
}

/// The version of the package has plain dependencies, where its document was fetched.
pub open spec fn is_plain_at(known: Seq<(Text, Reply)>, name: Text, version: Text) -> bool {
    match crate::walk::reply_for(known, name) {
        Some(Ok(doc)) => has_plain_dependencies(doc, version),
        _ => true,
    }
}

/// Every version of every fetched package has plain dependencies.
pub open spec fn is_plain_graph(known: Seq<(Text, Reply)>) -> bool {
    forall|name: Text, version: Text| #[trigger] is_plain_at(known, name, version)
}

/// The edges lead alike: to the same ranges of the same packages.
pub open spec fn lead_alike(a: Seq<EdgeView>, b: Seq<EdgeView>) -> bool {
    &&& a.len() == b.len()
    &&& forall|i: int|
        #![trigger a[i]]
        #![trigger b[i]]
        0 <= i < a.len() ==> a[i].name == b[i].name && a[i].range == b[i].range
}

/// The walk `v` is the install `w` under the audit policy. Only what is optional may differ: an
/// install does not ask.
pub open spec fn is_audit_of(v: WalkView, w: WalkView) -> bool {
    &&& v == WalkView { policy: crate::walk::nested_audit(), edges: v.edges, ..w }
    &&& lead_alike(v.edges, w.edges)
}

/// Plain dependencies are followed alike by an install and an audit.
proof fn lemma_plain_children(parent: Text, optional: bool, deps: Seq<DependencyView>)
    requires
        forall|d: int| 0 <= d < deps.len() ==> is_plain(#[trigger] deps[d]),
    ensures
        crate::walk::children(
            crate::walk::flat_install(),
            parent,
            optional,
            deps,
        ) matches Ok((edges, skipped)) ==> skipped.len() == 0 && (crate::walk::children(
            crate::walk::nested_audit(),
            parent,
            optional,
            deps,
        ) matches Ok((audited, left_out)) && left_out.len() == 0 && lead_alike(audited, edges)),
    decreases deps.len(),
{
    if deps.len() > 0 {
        let shorter = deps.drop_last();
        let dep = deps.last();
        assert forall|d: int| 0 <= d < shorter.len() implies is_plain(#[trigger] shorter[d]) by {
            assert(shorter[d] == deps[d]);
        }
        lemma_plain_children(parent, optional, shorter);
        assert(is_plain(deps[deps.len() - 1]));
        crate::dependency::law_white_space_around_a_range_does_not_count(dep.1);
    }
}

/// One step of an install that does not fail is a step of the audit.
proof fn lemma_plain_step(w: WalkView, v: WalkView)
    requires
        w.policy == crate::walk::flat_install(),
        is_plain_graph(w.known),
        is_audit_of(v, w),
        w.omissions.len() == 0,
        !(crate::walk::decision(w) is Failed),
        0 <= w.next,
    ensures
        crate::walk::decision(v) is Finished <==> crate::walk::decision(w) is Finished,
        !(crate::walk::decision(v) is Failed),
        is_audit_of(crate::walk::stepped(v), crate::walk::stepped(w)),
        ({
            let u = crate::walk::stepped(w);
            &&& u.policy == w.policy
            &&& u.known == w.known
            &&& u.omissions.len() == 0
            &&& 0 <= u.next
        }),
{
    if w.next < w.edges.len() {
        let edge = w.edges[w.next];
        let other = v.edges[w.next];
        assert(other.name == edge.name && other.range == edge.range);
        if !crate::walk::satisfied(w.resolved, edge.name, edge.range) {
            if let Some(Ok(doc)) = crate::walk::reply_for(w.known, edge.name) {
                if let Some(s) = crate::registry::selected(doc, edge.range) {
                    assert(is_plain_at(w.known, edge.name, s.0));
                    let parent = crate::walk::labelled(edge.name, s.0);
                    let deps = crate::registry::dependencies(doc, s.0, false);
                    lemma_flat_children(parent, edge.optional, other.optional, deps);
                    lemma_plain_children(parent, other.optional, deps);
                    let flat = crate::walk::children(w.policy, parent, edge.optional, deps);
                    let nested = crate::walk::children(v.policy, parent, other.optional, deps);
                    assert(lead_alike(v.edges + nested->Ok_0.0, w.edges + flat->Ok_0.0));
                }
            }
        }
    }
}

/// An install does not ask what is optional.
proof fn lemma_flat_children(parent: Text, a: bool, b: bool, deps: Seq<DependencyView>)
    ensures
        crate::walk::children(crate::walk::flat_install(), parent, a, deps)
            == crate::walk::children(crate::walk::flat_install(), parent, b, deps),
    decreases deps.len(),
{
    if deps.len() > 0 {
        lemma_flat_children(parent, a, b, deps.drop_last());
    }
}

/// A failure stays.
proof fn lemma_failure_stays(w: WalkView, m: nat, n: nat)
    requires
        m <= n,
        crate::walk::decision(crate::walk::walked(w, m)) is Failed,
    ensures
        crate::walk::walked(w, n) == crate::walk::walked(w, m),
    decreases n,
{
    if m < n {
        lemma_failure_stays(w, m, (n - 1) as nat);
    }
}

proof fn lemma_plain_walk(w: WalkView, v: WalkView, m: nat, n: nat)
    requires
        m <= n,
        w.policy == crate::walk::flat_install(),
        is_plain_graph(w.known),
        is_audit_of(v, w),
        w.omissions.len() == 0,
        0 <= w.next,
        !(crate::walk::decision(crate::walk::walked(w, n)) is Failed),
    ensures
        is_audit_of(crate::walk::walked(v, m), crate::walk::walked(w, m)),
        ({
            let u = crate::walk::walked(w, m);
            &&& u.policy == w.policy
            &&& u.known == w.known
            &&& u.omissions.len() == 0
            &&& 0 <= u.next
        }),
    decreases m,
{
    if m > 0 {
        let before = (m - 1) as nat;
        lemma_plain_walk(w, v, before, n);
        let u = crate::walk::walked(w, before);
        if crate::walk::decision(u) is Failed {
            lemma_failure_stays(w, before, n);
        }
        lemma_plain_step(u, crate::walk::walked(v, before));
    }
}

/// Nesting changes only what conflicts: where no version has optional dependencies and every
/// dependency is a plain registry range, an install that succeeds gives, package by package, what
/// the audit of the same roots gives, and neither leaves anything out. Roots may be optional.
pub proof fn law_plain_installs_are_audits(
    base: Text,
    roots: Seq<EdgeView>,
    documents: Seq<(Text, Reply)>,
    n: nat,
)
    requires
        is_plain_graph(documents),
        crate::walk::walk_result(
            crate::walk::walked(
                crate::walk::at_roots(base, crate::walk::flat_install(), roots, documents),
                n,
            ),
        ) matches Some(Ok(_)),
    ensures
        ({
            let flat = crate::walk::walk_result(
                crate::walk::walked(
                    crate::walk::at_roots(base, crate::walk::flat_install(), roots, documents),
                    n,
                ),
            );
            let nested = crate::walk::walk_result(
                crate::walk::walked(
                    crate::walk::at_roots(base, crate::walk::nested_audit(), roots, documents),
                    n,
                ),
            );
            &&& nested == flat
            &&& flat matches Some(Ok((_, omissions))) && omissions.len() == 0
        }),
{
    let w = crate::walk::at_roots(base, crate::walk::flat_install(), roots, documents);
    let v = crate::walk::at_roots(base, crate::walk::nested_audit(), roots, documents);
    assert(is_audit_of(v, w));
    lemma_plain_walk(w, v, n, n);
    let end = crate::walk::walked(w, n);
    lemma_plain_step(end, crate::walk::walked(v, n));
    assert(end.omissions == Seq::<OmissionView>::empty());
}

}
