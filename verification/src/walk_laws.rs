//! What holds of every result of a walk, said in terms of the roots and documents that come in and
//! of the packages and omissions that come out.

use crate::registry::{DependencyView, EdgeActionView, OmissionView, ResolvedView};
use crate::text::Text;
use crate::walk::{Child, Decision, EdgeView, Reply, WalkPolicy, WalkView};
use vstd::prelude::*;

verus! {

/// One of `packages` is a version of `name` that one of the requirements of `range` admits.
pub open spec fn has_version(packages: Seq<ResolvedView>, name: Text, range: Seq<Text>) -> bool {
    exists|i: int, k: int|
        #![trigger packages[i], range[k]]
        0 <= i < packages.len() && 0 <= k < range.len() && packages[i].name == name
            && crate::version::admits(range[k], packages[i].version)
}

/// One of `omissions` is of `name`.
pub open spec fn has_omission(omissions: Seq<OmissionView>, name: Text) -> bool {
    exists|i: int| 0 <= i < omissions.len() && (#[trigger] omissions[i]).name == name
}

/// The walk of the roots gives these packages and omissions.
pub open spec fn gives(
    start: WalkView,
    n: nat,
    packages: Seq<ResolvedView>,
    omissions: Seq<OmissionView>,
) -> bool {
    crate::walk::walk_result(crate::walk::walked(start, n)) == Some(
        Ok::<(Seq<ResolvedView>, Seq<OmissionView>), Text>((packages, omissions)),
    )
}

/// The first reply for a package counts, and one that is there is found.
pub proof fn law_replies_are_found_by_name(known: Seq<(Text, Reply)>, name: Text)
    ensures
        match crate::walk::reply_for(known, name) {
            Some(reply) => exists|i: int|
                0 <= i < known.len() && #[trigger] known[i] == (name, reply) && (forall|j: int|
                    0 <= j < i ==> (#[trigger] known[j]).0 != name),
            None => forall|i: int| 0 <= i < known.len() ==> (#[trigger] known[i]).0 != name,
        },
    decreases known.len(),
{
    if known.len() > 0 {
        let shorter = known.drop_last();
        law_replies_are_found_by_name(shorter, name);
        match crate::walk::reply_for(shorter, name) {
            Some(reply) => {
                let i = choose|i: int|
                    0 <= i < shorter.len() && #[trigger] shorter[i] == (name, reply) && (forall|
                        j: int,
                    |
                        0 <= j < i ==> (#[trigger] shorter[j]).0 != name);
                assert(known[i] == shorter[i]);
                assert forall|j: int| 0 <= j < i implies (#[trigger] known[j]).0 != name by {
                    assert(known[j] == shorter[j]);
                }
            },
            None => {
                assert forall|j: int| 0 <= j < shorter.len() implies (#[trigger] known[j]).0
                    != name by {
                    assert(known[j] == shorter[j]);
                }
                if known.last().0 == name {
                    assert(known[known.len() - 1] == (name, known.last().1));
                }
            },
        }
    }
}

/// What is still to be fetched are packages that wait in the queue.
pub proof fn law_only_queued_packages_are_fetched(
    known: Seq<(Text, Reply)>,
    queue: Seq<EdgeView>,
    i: int,
)
    requires
        0 <= i < crate::walk::unfetched(known, queue).len(),
    ensures
        exists|k: int|
            0 <= k < queue.len() && (#[trigger] queue[k]).name == crate::walk::unfetched(
                known,
                queue,
            )[i],
    decreases queue.len(),
{
    let shorter = queue.drop_last();
    let earlier = crate::walk::unfetched(known, shorter);
    if i < earlier.len() {
        law_only_queued_packages_are_fetched(known, shorter, i);
        let k = choose|k: int| 0 <= k < shorter.len() && (#[trigger] shorter[k]).name == earlier[i];
        assert(queue[k] == shorter[k]);
    } else {
        assert(queue[queue.len() - 1].name == crate::walk::unfetched(known, queue)[i]);
    }
}

/// An install follows every required dependency under its own name and range, and refuses a spec
/// that is no range. An audit follows what reads as a range or an alias to one, where a dependency
/// of an optional package is optional too, records what it cannot follow, and refuses a range that
/// is none.
pub proof fn law_dependencies_become_edges(
    policy: WalkPolicy,
    parent: Text,
    optional: bool,
    dep: DependencyView,
)
    ensures
        ({
            let child = crate::walk::child(policy, parent, optional, dep);
            if policy.skip_unsupported {
                match crate::registry::edge_action(dep.0, dep.1) {
                    Ok(EdgeActionView::Resolve(name, range)) => child matches Ok(
                        Child::Follow(edge),
                    ) && edge.name == name && edge.range == range && (edge.optional <==> optional
                        || dep.2),
                    Ok(EdgeActionView::Omit(omission)) => child == Ok::<Child, Text>(
                        Child::Skip(omission),
                    ),
                    Err(_) => child is Err,
                }
            } else {
                match crate::dependency::range_of(dep.1) {
                    Ok(range) => child matches Ok(Child::Follow(edge)) && edge.name == dep.0
                        && edge.range == range && !edge.optional,
                    Err(_) => child is Err,
                }
            }
        }),
{
}

/// The dependencies of a package all count, in order: unless one is refused, each becomes an edge
/// or an omission; and the first that is refused is what is said.
pub proof fn law_every_dependency_counts(
    policy: WalkPolicy,
    parent: Text,
    optional: bool,
    deps: Seq<DependencyView>,
)
    ensures
        match crate::walk::children(policy, parent, optional, deps) {
            Ok((edges, skipped)) => {
                &&& forall|d: int|
                    0 <= d < deps.len() ==> crate::walk::child(
                        policy,
                        parent,
                        optional,
                        #[trigger] deps[d],
                    ) is Ok
                &&& edges == deps.filter_map(
                    |dep: DependencyView|
                        match crate::walk::child(policy, parent, optional, dep) {
                            Ok(Child::Follow(edge)) => Some(edge),
                            _ => None,
                        },
                )
                &&& skipped == deps.filter_map(
                    |dep: DependencyView|
                        match crate::walk::child(policy, parent, optional, dep) {
                            Ok(Child::Skip(omission)) => Some(omission),
                            _ => None,
                        },
                )
            },
            Err(message) => exists|d: int|
                0 <= d < deps.len() && crate::walk::child(
                    policy,
                    parent,
                    optional,
                    #[trigger] deps[d],
                ) == Err::<Child, Text>(message) && (forall|e: int|
                    0 <= e < d ==> crate::walk::child(
                        policy,
                        parent,
                        optional,
                        #[trigger] deps[e],
                    ) is Ok),
        },
    decreases deps.len(),
{
    if deps.len() > 0 {
        let shorter = deps.drop_last();
        law_every_dependency_counts(policy, parent, optional, shorter);
        match crate::walk::children(policy, parent, optional, shorter) {
            Err(message) => {
                let d = choose|d: int|
                    0 <= d < shorter.len() && crate::walk::child(
                        policy,
                        parent,
                        optional,
                        #[trigger] shorter[d],
                    ) == Err::<Child, Text>(message) && (forall|e: int|
                        0 <= e < d ==> crate::walk::child(
                            policy,
                            parent,
                            optional,
                            #[trigger] shorter[e],
                        ) is Ok);
                assert(deps[d] == shorter[d]);
                assert forall|e: int| 0 <= e < d implies crate::walk::child(
                    policy,
                    parent,
                    optional,
                    #[trigger] deps[e],
                ) is Ok by {
                    assert(deps[e] == shorter[e]);
                }
            },
            Ok(_) => {
                assert forall|e: int| 0 <= e < shorter.len() implies crate::walk::child(
                    policy,
                    parent,
                    optional,
                    #[trigger] deps[e],
                ) is Ok by {
                    assert(deps[e] == shorter[e]);
                }
                assert(deps[deps.len() - 1] == deps.last());
            },
        }
    }
}

/// Sorting keeps which packages and omissions there are.
proof fn lemma_results_hold(resolved: Seq<ResolvedView>, omissions: Seq<OmissionView>)
    ensures
        forall|p: ResolvedView| #[trigger]
            crate::walk::packages_in_order(resolved).contains(p) <==> resolved.contains(p),
        forall|o: OmissionView| #[trigger]
            crate::walk::omissions_in_order(omissions).contains(o) <==> omissions.contains(o),
{
    let a = crate::walk::packages_in_order(resolved);
    let b = crate::walk::omissions_in_order(omissions);
    crate::soundness::law_sorting_packages_permutes(resolved);
    crate::soundness::law_sorting_omissions_permutes(omissions);
    a.to_multiset_ensures();
    resolved.to_multiset_ensures();
    b.to_multiset_ensures();
    omissions.to_multiset_ensures();
    assert forall|p: ResolvedView| #[trigger] a.contains(p) <==> resolved.contains(p) by {
        assert(a.contains(p) <==> a.to_multiset().count(p) > 0);
        assert(resolved.contains(p) <==> resolved.to_multiset().count(p) > 0);
    }
    assert forall|o: OmissionView| #[trigger] b.contains(o) <==> omissions.contains(o) by {
        assert(b.contains(o) <==> b.to_multiset().count(o) > 0);
        assert(omissions.contains(o) <==> omissions.to_multiset().count(o) > 0);
    }
}

/// A settled edge has its version among the packages, or is optional and omitted.
proof fn lemma_settled(w: WalkView, edge: EdgeView)
    requires
        crate::soundness::is_settled(w, edge),
    ensures
        has_version(crate::walk::packages_in_order(w.resolved), edge.name, edge.range) || (
        w.policy.skip_unsupported && edge.optional && has_omission(
            crate::walk::omissions_in_order(w.omissions),
            edge.name,
        )),
{
    lemma_results_hold(w.resolved, w.omissions);
    let packages = crate::walk::packages_in_order(w.resolved);
    let omissions = crate::walk::omissions_in_order(w.omissions);
    if crate::walk::satisfied(w.resolved, edge.name, edge.range) {
        let i = choose|i: int|
            0 <= i < w.resolved.len() && (#[trigger] w.resolved[i]).name == edge.name
                && crate::dependency::range_admits(edge.range, w.resolved[i].version);
        let k = choose|k: int|
            0 <= k < edge.range.len() && crate::version::admits(
                #[trigger] edge.range[k],
                w.resolved[i].version,
            );
        assert(w.resolved.contains(w.resolved[i]));
        assert(packages.contains(w.resolved[i]));
        let m = choose|m: int| 0 <= m < packages.len() && packages[m] == w.resolved[i];
        assert(packages[m].name == edge.name && crate::version::admits(
            edge.range[k],
            packages[m].version,
        ));
    } else {
        let i = choose|i: int|
            0 <= i < w.omissions.len() && (#[trigger] w.omissions[i]).name == edge.name
                && w.omissions[i].spec == crate::dependency::range_text(edge.range);
        assert(w.omissions.contains(w.omissions[i]));
        assert(omissions.contains(w.omissions[i]));
        let m = choose|m: int| 0 <= m < omissions.len() && omissions[m] == w.omissions[i];
        assert(omissions[m].name == edge.name);
    }
}

/// Every root is in the result: a version that its range admits, or, for an optional root of an
/// audit, an omission.
pub proof fn law_roots_are_in_the_result(
    base: Text,
    policy: WalkPolicy,
    roots: Seq<EdgeView>,
    documents: Seq<(Text, Reply)>,
    n: nat,
    packages: Seq<ResolvedView>,
    omissions: Seq<OmissionView>,
    k: int,
)
    requires
        gives(crate::walk::at_roots(base, policy, roots, documents), n, packages, omissions),
        0 <= k < roots.len(),
    ensures
        has_version(packages, roots[k].name, roots[k].range) || (policy.skip_unsupported
            && roots[k].optional && has_omission(omissions, roots[k].name)),
{
    let start = crate::walk::at_roots(base, policy, roots, documents);
    let end = crate::walk::walked(start, n);
    crate::soundness::law_new_walks_are_sound(base, policy, roots, documents);
    crate::soundness::law_walks_stay_sound(start, n);
    crate::soundness::law_walks_keep_their_roots(start, n);
    assert(end.edges[k] == roots[k]);
    crate::soundness::law_finished_walks_settle_every_edge(end, k);
    lemma_settled(end, end.edges[k]);
}

/// Every dependency of a package in the result is in the result. In an install each is a version
/// that its spec admits as a range. In an audit the optional ones count too; each is a version of
/// what its spec leads to, or, where it or its package is optional, an omission; and what cannot
/// be followed is an omission.
pub proof fn law_dependencies_are_in_the_result(
    base: Text,
    policy: WalkPolicy,
    roots: Seq<EdgeView>,
    documents: Seq<(Text, Reply)>,
    n: nat,
    packages: Seq<ResolvedView>,
    omissions: Seq<OmissionView>,
    i: int,
    doc: crate::json::JsonView,
    d: int,
)
    requires
        gives(crate::walk::at_roots(base, policy, roots, documents), n, packages, omissions),
        0 <= i < packages.len(),
        crate::walk::reply_for(documents, packages[i].name) == Some(
            Ok::<crate::json::JsonView, Text>(doc),
        ),
        0 <= d < crate::registry::dependencies(
            doc,
            packages[i].version,
            policy.include_optional,
        ).len(),
    ensures
        ({
            let dep = crate::registry::dependencies(
                doc,
                packages[i].version,
                policy.include_optional,
            )[d];
            if policy.skip_unsupported {
                match crate::registry::edge_action(dep.0, dep.1) {
                    Ok(EdgeActionView::Resolve(name, range)) => has_version(packages, name, range)
                        || has_omission(omissions, name),
                    Ok(EdgeActionView::Omit(omission)) => omissions.contains(omission),
                    Err(_) => false,
                }
            } else {
                crate::dependency::range_of(dep.1) matches Ok(range) && has_version(
                    packages,
                    dep.0,
                    range,
                )
            }
        }),
{
    let start = crate::walk::at_roots(base, policy, roots, documents);
    let end = crate::walk::walked(start, n);
    crate::soundness::law_new_walks_are_sound(base, policy, roots, documents);
    crate::soundness::law_walks_stay_sound(start, n);
    crate::soundness::law_walks_keep_their_roots(start, n);
    lemma_results_hold(end.resolved, end.omissions);
    assert(packages.contains(packages[i]));
    let r = choose|r: int| 0 <= r < end.resolved.len() && end.resolved[r] == packages[i];
    let deps = crate::soundness::dependencies_read(end, end.resolved[r]);
    let dep = deps[d];
    assert(crate::soundness::is_accounted_for(end, end.resolved[r], deps[d]));
    let optional = choose|optional: bool| #[trigger]
        crate::soundness::accounted_as(end, end.resolved[r], dep, optional);
    match crate::walk::child(
        policy,
        crate::walk::labelled(end.resolved[r].name, end.resolved[r].version),
        optional,
        dep,
    ) {
        Ok(Child::Follow(edge)) => {
            let k = choose|k: int| 0 <= k < end.edges.len() && end.edges[k] == edge;
            crate::soundness::law_finished_walks_settle_every_edge(end, k);
            lemma_settled(end, edge);
        },
        Ok(Child::Skip(omission)) => {
            assert(omissions.contains(omission));
        },
        Err(_) => {},
    }
}

/// Where a resolved package comes from: an edge that was taken, whose package's document resolves
/// its range to just this.
pub open spec fn is_from_edge(w: WalkView, package: ResolvedView) -> bool {
    exists|k: int|
        0 <= k < w.next && (#[trigger] w.edges[k]).name == package.name
            && resolves_to(w, w.edges[k].range, package)
}

/// The document of `package` resolves `range` to it.
pub open spec fn resolves_to(w: WalkView, range: Seq<Text>, package: ResolvedView) -> bool {
    crate::walk::reply_for(w.known, package.name) matches Some(Ok(doc))
        && crate::registry::resolution(w.base, package.name, range, doc) == Ok::<
        ResolvedView,
        Text,
    >(package)
}

/// Where an edge comes from: a root, or a dependency of a resolved package.
pub open spec fn is_from_somewhere(w: WalkView, roots: Seq<EdgeView>, edge: EdgeView) -> bool {
    ||| roots.contains(edge)
    ||| exists|i: int, d: int, optional: bool|
        #![trigger is_child_edge(w, edge, i, d, optional)]
        is_child_edge(w, edge, i, d, optional)
}

/// `edge` is what dependency `d` of resolved package `i` leads to.
pub open spec fn is_child_edge(
    w: WalkView,
    edge: EdgeView,
    i: int,
    d: int,
    optional: bool,
) -> bool {
    &&& 0 <= i < w.resolved.len()
    &&& 0 <= d < crate::soundness::dependencies_read(w, w.resolved[i]).len()
    &&& crate::walk::child(
        w.policy,
        crate::walk::labelled(w.resolved[i].name, w.resolved[i].version),
        optional,
        crate::soundness::dependencies_read(w, w.resolved[i])[d],
    ) == Ok::<Child, Text>(Child::Follow(edge))
}

/// Everything in a walk comes from somewhere.
pub open spec fn is_grounded(w: WalkView, roots: Seq<EdgeView>) -> bool {
    &&& 0 <= w.next
    &&& forall|i: int| 0 <= i < w.resolved.len() ==> is_from_edge(w, #[trigger] w.resolved[i])
    &&& forall|k: int|
        0 <= k < w.edges.len() ==> is_from_somewhere(w, roots, #[trigger] w.edges[k])
}

/// Every walk comes from its roots: it stays grounded however many steps it makes.
pub proof fn law_walks_stay_grounded(
    base: Text,
    policy: WalkPolicy,
    roots: Seq<EdgeView>,
    documents: Seq<(Text, Reply)>,
    n: nat,
)
    ensures
        is_grounded(
            crate::walk::walked(crate::walk::at_roots(base, policy, roots, documents), n),
            roots,
        ),
    decreases n,
{
    let start = crate::walk::at_roots(base, policy, roots, documents);
    if n == 0 {
        assert forall|k: int| 0 <= k < roots.len() implies is_from_somewhere(
            start,
            roots,
            #[trigger] start.edges[k],
        ) by {
            assert(roots.contains(roots[k]));
        }
    } else {
        let before = (n - 1) as nat;
        law_walks_stay_grounded(base, policy, roots, documents, before);
        lemma_step_is_grounded(crate::walk::walked(start, before), roots);
    }
}

proof fn lemma_step_is_grounded(w: WalkView, roots: Seq<EdgeView>)
    requires
        is_grounded(w, roots),
    ensures
        is_grounded(crate::walk::stepped(w), roots),
{
    let v = crate::walk::stepped(w);
    assert forall|i: int| 0 <= i < w.resolved.len() implies is_from_edge(
        v,
        #[trigger] v.resolved[i],
    ) by {
        assert(v.resolved[i] == w.resolved[i]);
        assert(is_from_edge(w, w.resolved[i]));
        let k = choose|k: int|
            0 <= k < w.next && (#[trigger] w.edges[k]).name == w.resolved[i].name
                && resolves_to(w, w.edges[k].range, w.resolved[i]);
        assert(k < w.edges.len() ==> v.edges[k] == w.edges[k]);
        if k >= w.edges.len() {
            assert(w.next > w.edges.len());
            assert(crate::walk::decision(w) is Finished);
        }
    }
    assert forall|k: int| 0 <= k < w.edges.len() implies is_from_somewhere(
        v,
        roots,
        #[trigger] v.edges[k],
    ) by {
        assert(v.edges[k] == w.edges[k]);
        assert(is_from_somewhere(w, roots, w.edges[k]));
        if !roots.contains(w.edges[k]) {
            let (i, d, optional) = choose|i: int, d: int, optional: bool|
                #![trigger is_child_edge(w, w.edges[k], i, d, optional)]
                is_child_edge(w, w.edges[k], i, d, optional);
            assert(v.resolved[i] == w.resolved[i]);
            assert(is_child_edge(v, v.edges[k], i, d, optional));
        }
    }
    if let Decision::Added(package, edges, skipped) = crate::walk::decision(w) {
        let edge = w.edges[w.next];
        let doc = crate::walk::reply_for(w.known, edge.name)->0->Ok_0;
        let s = crate::registry::selected(doc, edge.range)->0;
        let last = w.resolved.len() as int;
        assert(v.resolved[last] == package);
        assert(v.edges[w.next] == edge);
        assert(is_from_edge(v, v.resolved[last]));
        let deps = crate::registry::dependencies(doc, s.0, w.policy.include_optional);
        assert(crate::soundness::dependencies_read(v, package) == deps);
        assert forall|k: int| w.edges.len() <= k < v.edges.len() implies is_from_somewhere(
            v,
            roots,
            #[trigger] v.edges[k],
        ) by {
            let m = k - w.edges.len();
            assert(v.edges[k] == edges[m]);
            lemma_edges_are_children(
                w.policy,
                crate::walk::labelled(edge.name, s.0),
                edge.optional,
                deps,
                m,
            );
            let d = choose|d: int|
                0 <= d < deps.len() && crate::walk::child(
                    w.policy,
                    crate::walk::labelled(edge.name, s.0),
                    edge.optional,
                    #[trigger] deps[d],
                ) == Ok::<Child, Text>(Child::Follow(edges[m]));
            assert(is_child_edge(v, v.edges[k], last, d, edge.optional));
        }
    }
}

/// Each edge of a package comes from one of its dependencies.
proof fn lemma_edges_are_children(
    policy: WalkPolicy,
    parent: Text,
    optional: bool,
    deps: Seq<DependencyView>,
    m: int,
)
    requires
        crate::walk::children(policy, parent, optional, deps) matches Ok((edges, _)) && 0 <= m
            < edges.len(),
    ensures
        exists|d: int|
            0 <= d < deps.len() && crate::walk::child(
                policy,
                parent,
                optional,
                #[trigger] deps[d],
            ) == Ok::<Child, Text>(
                Child::Follow(crate::walk::children(policy, parent, optional, deps)->Ok_0.0[m]),
            ),
    decreases deps.len(),
{
    let (edges, _) = crate::walk::children(policy, parent, optional, deps)->Ok_0;
    let shorter = deps.drop_last();
    let (earlier, _) = crate::walk::children(policy, parent, optional, shorter)->Ok_0;
    if m < earlier.len() {
        lemma_edges_are_children(policy, parent, optional, shorter, m);
        let d = choose|d: int|
            0 <= d < shorter.len() && crate::walk::child(
                policy,
                parent,
                optional,
                #[trigger] shorter[d],
            ) == Ok::<Child, Text>(Child::Follow(earlier[m]));
        assert(deps[d] == shorter[d]);
        assert(edges[m] == earlier[m]);
    } else {
        assert(crate::walk::child(policy, parent, optional, deps[deps.len() - 1]) == Ok::<
            Child,
            Text,
        >(Child::Follow(edges[m])));
    }
}

/// Nothing is in a result that was not asked for: each package is what its document resolves some
/// range to, and that range is one of a root or of a dependency of a package in the result.
pub proof fn law_results_were_asked_for(
    base: Text,
    policy: WalkPolicy,
    roots: Seq<EdgeView>,
    documents: Seq<(Text, Reply)>,
    n: nat,
    packages: Seq<ResolvedView>,
    omissions: Seq<OmissionView>,
    i: int,
)
    requires
        gives(crate::walk::at_roots(base, policy, roots, documents), n, packages, omissions),
        0 <= i < packages.len(),
    ensures
        crate::walk::reply_for(documents, packages[i].name) matches Some(Ok(doc)) && exists|
            range: Seq<Text>,
        |
            #[trigger] crate::registry::resolution(base, packages[i].name, range, doc) == Ok::<
                ResolvedView,
                Text,
            >(packages[i]) && is_asked_for(
                policy,
                roots,
                documents,
                packages,
                packages[i].name,
                range,
            ),
{
    let start = crate::walk::at_roots(base, policy, roots, documents);
    let end = crate::walk::walked(start, n);
    crate::soundness::law_new_walks_are_sound(base, policy, roots, documents);
    crate::soundness::law_walks_stay_sound(start, n);
    crate::soundness::law_walks_keep_their_roots(start, n);
    law_walks_stay_grounded(base, policy, roots, documents, n);
    lemma_results_hold(end.resolved, end.omissions);
    assert(packages.contains(packages[i]));
    let r = choose|r: int| 0 <= r < end.resolved.len() && end.resolved[r] == packages[i];
    assert(is_from_edge(end, end.resolved[r]));
    let doc = crate::walk::reply_for(documents, packages[i].name)->0->Ok_0;
    let k = choose|k: int|
        0 <= k < end.next && (#[trigger] end.edges[k]).name == packages[i].name
            && resolves_to(end, end.edges[k].range, packages[i]);
    let edge = end.edges[k];
    assert(is_from_somewhere(end, roots, edge));
    lemma_edges_were_asked_for(end, roots, edge, packages);
    assert(is_asked_for(policy, roots, documents, packages, packages[i].name, edge.range));
}

/// A root, or a dependency of one of `packages`, asks for `range` of `name`.
pub open spec fn is_asked_for(
    policy: WalkPolicy,
    roots: Seq<EdgeView>,
    documents: Seq<(Text, Reply)>,
    packages: Seq<ResolvedView>,
    name: Text,
    range: Seq<Text>,
) -> bool {
    ||| exists|m: int|
        0 <= m < roots.len() && (#[trigger] roots[m]).name == name && roots[m].range == range
    ||| exists|b: int, d: int|
        #![trigger leads_to(policy, documents, packages[b], d, name, range)]
        0 <= b < packages.len() && leads_to(policy, documents, packages[b], d, name, range)
}

/// Dependency `d` of `package` leads to `range` of `name`.
pub open spec fn leads_to(
    policy: WalkPolicy,
    documents: Seq<(Text, Reply)>,
    package: ResolvedView,
    d: int,
    name: Text,
    range: Seq<Text>,
) -> bool {
    crate::walk::reply_for(documents, package.name) matches Some(Ok(doc)) && {
        let deps = crate::registry::dependencies(doc, package.version, policy.include_optional);
        0 <= d < deps.len() && (if policy.skip_unsupported {
            crate::registry::edge_action(deps[d].0, deps[d].1) == Ok::<EdgeActionView, Text>(
                EdgeActionView::Resolve(name, range),
            )
        } else {
            deps[d].0 == name && crate::dependency::range_of(deps[d].1) == Ok::<Seq<Text>, Text>(
                range,
            )
        })
    }
}

/// The policies: an install has one version of a package, follows no optional dependencies and
/// skips nothing; an audit does all three.
pub proof fn law_policies()
    ensures
        ({
            let flat = crate::walk::flat_install();
            let audit = crate::walk::nested_audit();
            &&& !flat.nested && !flat.include_optional && !flat.skip_unsupported
            &&& audit.nested && audit.include_optional && audit.skip_unsupported
        }),
{
}

/// Plain roots are all required, each under its name and range.
pub proof fn law_plain_roots_are_required(roots: Seq<(String, crate::dependency::Range)>, i: int)
    requires
        0 <= i < roots.len(),
    ensures
        crate::walk::required(roots).len() == roots.len(),
        crate::walk::required(roots)[i].name == roots[i].0@,
        crate::walk::required(roots)[i].range == roots[i].1@,
        !crate::walk::required(roots)[i].optional,
{
}

/// A result is by name, and by version within a name.
pub proof fn law_results_are_by_name(a: ResolvedView, b: ResolvedView)
    ensures
        crate::text::precedes(a.name, b.name) ==> crate::walk::package_before(a, b)
            && !crate::walk::package_before(b, a),
        a.name == b.name ==> (crate::walk::package_before(a, b) <==> crate::version::older(
            a.version,
            b.version,
        )),
{
    crate::text::law_text_order_is_total(a.name, b.name, a.name);
    crate::text::law_text_order_is_total(b.name, a.name, b.name);
}

/// A walk fails for a reason: a required edge, or any of an install, has a package whose fetch
/// failed, or no published version in its range; a dependency's spec is refused; or in an install
/// another version of the package was resolved before. It asks for a document only where there is
/// none.
pub proof fn law_walks_fail_for_a_reason(w: WalkView)
    requires
        0 <= w.next < w.edges.len(),
    ensures
        ({
            let edge = w.edges[w.next];
            let required = !(w.policy.skip_unsupported && edge.optional);
            match crate::walk::decision(w) {
                Decision::Finished => false,
                Decision::Wanted(name) => name == edge.name && crate::walk::reply_for(
                    w.known,
                    name,
                ) is None,
                Decision::Failed(message) => {
                    ||| !w.policy.nested && exists|i: int|
                        0 <= i < w.resolved.len() && (#[trigger] w.resolved[i]).name == edge.name
                    ||| required && crate::walk::reply_for(w.known, edge.name) == Some(
                        Err::<crate::json::JsonView, Text>(message),
                    )
                    ||| required && message == "no published version of "@ + edge.name
                        + " matches "@ + crate::dependency::range_text(edge.range)
                    ||| refuses_a_dependency(w, edge, message)
                },
                _ => true,
            }
        }),
{
    let edge = w.edges[w.next];
    lemma_first_named(w.resolved, edge.name);
    if let Some(Ok(doc)) = crate::walk::reply_for(w.known, edge.name) {
        if let Some(s) = crate::registry::selected(doc, edge.range) {
            law_every_dependency_counts(
                w.policy,
                crate::walk::labelled(edge.name, s.0),
                edge.optional,
                crate::registry::dependencies(doc, s.0, w.policy.include_optional),
            );
        }
    }
}

/// The version that `edge` selects has a dependency that is refused, with this message.
pub open spec fn refuses_a_dependency(w: WalkView, edge: EdgeView, message: Text) -> bool {
    crate::walk::reply_for(w.known, edge.name) matches Some(Ok(doc))
        && crate::registry::selected(doc, edge.range) matches Some(s) && exists|d: int|
        0 <= d < crate::registry::dependencies(doc, s.0, w.policy.include_optional).len()
            && crate::walk::child(
            w.policy,
            crate::walk::labelled(edge.name, s.0),
            edge.optional,
            #[trigger] crate::registry::dependencies(doc, s.0, w.policy.include_optional)[d],
        ) == Err::<Child, Text>(message)
}

proof fn lemma_first_named(resolved: Seq<ResolvedView>, name: Text)
    ensures
        crate::walk::first_named(resolved, name) matches Some(i) ==> 0 <= i < resolved.len()
            && resolved[i].name == name,
    decreases resolved.len(),
{
    if resolved.len() > 0 {
        lemma_first_named(resolved.drop_last(), name);
    }
}

/// Every package that waits in the queue and was not fetched yet is to be fetched.
pub proof fn law_every_queued_package_is_fetched(
    known: Seq<(Text, Reply)>,
    queue: Seq<EdgeView>,
    k: int,
)
    requires
        0 <= k < queue.len(),
    ensures
        crate::walk::reply_for(known, queue[k].name) is Some || crate::walk::unfetched(
            known,
            queue,
        ).contains(queue[k].name),
    decreases queue.len(),
{
    let shorter = queue.drop_last();
    let earlier = crate::walk::unfetched(known, shorter);
    let names = crate::walk::unfetched(known, queue);
    let name = queue[k].name;
    if k < shorter.len() {
        law_every_queued_package_is_fetched(known, shorter, k);
        assert(shorter[k] == queue[k]);
        if earlier.contains(name) {
            let i = choose|i: int| 0 <= i < earlier.len() && earlier[i] == name;
            assert(names[i] == name);
        }
    } else if crate::walk::reply_for(known, name) is None && !earlier.contains(name) {
        assert(names[names.len() - 1] == name);
    }
}

/// Packages are fetched in the order in which the queue names them: what it names first comes
/// first, however it goes on.
pub proof fn law_fetches_follow_the_queue(
    known: Seq<(Text, Reply)>,
    queue: Seq<EdgeView>,
    more: Seq<EdgeView>,
)
    ensures
        crate::walk::unfetched(known, queue).is_prefix_of(
            crate::walk::unfetched(known, queue + more),
        ),
    decreases more.len(),
{
    let names = crate::walk::unfetched(known, queue);
    if more.len() == 0 {
        assert(queue + more =~= queue);
        assert(names.subrange(0, names.len() as int) =~= names);
    } else {
        let shorter = more.drop_last();
        law_fetches_follow_the_queue(known, queue, shorter);
        assert((queue + more).drop_last() =~= queue + shorter);
        let before = crate::walk::unfetched(known, queue + shorter);
        let after = crate::walk::unfetched(known, queue + more);
        assert(after.subrange(0, names.len() as int) =~= before.subrange(0, names.len() as int));
    }
}

/// Where an omission comes from: a dependency of a resolved package that cannot be followed, or an
/// optional edge whose package could not be fetched or has no version in range.
pub open spec fn is_omitted_for_a_reason(w: WalkView, omission: OmissionView) -> bool {
    ||| exists|i: int, d: int, optional: bool|
        #![trigger is_skipped_child(w, omission, i, d, optional)]
        is_skipped_child(w, omission, i, d, optional)
    ||| exists|k: int|
        0 <= k < w.next && k < w.edges.len() && #[trigger] is_given_up(w, w.edges[k], omission)
}

/// `omission` is of dependency `d` of resolved package `i`.
pub open spec fn is_skipped_child(
    w: WalkView,
    omission: OmissionView,
    i: int,
    d: int,
    optional: bool,
) -> bool {
    &&& 0 <= i < w.resolved.len()
    &&& 0 <= d < crate::soundness::dependencies_read(w, w.resolved[i]).len()
    &&& crate::walk::child(
        w.policy,
        crate::walk::labelled(w.resolved[i].name, w.resolved[i].version),
        optional,
        crate::soundness::dependencies_read(w, w.resolved[i])[d],
    ) == Ok::<Child, Text>(Child::Skip(omission))
}

/// `omission` is of the optional `edge`, and says why.
pub open spec fn is_given_up(w: WalkView, edge: EdgeView, omission: OmissionView) -> bool {
    &&& w.policy.skip_unsupported
    &&& edge.optional
    &&& omission.name == edge.name
    &&& omission.spec == crate::dependency::range_text(edge.range)
    &&& match crate::walk::reply_for(w.known, edge.name) {
        Some(Err(cause)) => omission.reason == "optional dependency failed to fetch: "@ + cause,
        Some(Ok(doc)) => crate::registry::selected(doc, edge.range) is None && omission.reason
            == "optional dependency: no published version matches"@,
        None => false,
    }
}

/// However far a walk has got, nothing is omitted without a reason.
pub proof fn law_omissions_have_a_reason(
    base: Text,
    policy: WalkPolicy,
    roots: Seq<EdgeView>,
    documents: Seq<(Text, Reply)>,
    n: nat,
    o: int,
)
    requires
        0 <= o < crate::walk::walked(
            crate::walk::at_roots(base, policy, roots, documents),
            n,
        ).omissions.len(),
    ensures
        ({
            let w = crate::walk::walked(crate::walk::at_roots(base, policy, roots, documents), n);
            is_omitted_for_a_reason(w, w.omissions[o])
        }),
    decreases n,
{
    let start = crate::walk::at_roots(base, policy, roots, documents);
    if n > 0 {
        let before = (n - 1) as nat;
        let w = crate::walk::walked(start, before);
        let v = crate::walk::walked(start, n);
        law_walks_stay_grounded(base, policy, roots, documents, before);
        if let Decision::Added(package, edges, skipped) = crate::walk::decision(w) {
            let edge = w.edges[w.next];
            let doc = crate::walk::reply_for(w.known, edge.name)->0->Ok_0;
            let s = crate::registry::selected(doc, edge.range)->0;
            let deps = crate::registry::dependencies(doc, s.0, w.policy.include_optional);
            lemma_omissions_come_from(w.omissions, skipped, o);
            let omission = v.omissions[o];
            if !w.omissions.contains(omission) {
                let m = choose|m: int| 0 <= m < skipped.len() && skipped[m] == omission;
                lemma_skips_are_children(
                    w.policy,
                    crate::walk::labelled(edge.name, s.0),
                    edge.optional,
                    deps,
                    m,
                );
                let d = choose|d: int|
                    0 <= d < deps.len() && crate::walk::child(
                        w.policy,
                        crate::walk::labelled(edge.name, s.0),
                        edge.optional,
                        #[trigger] deps[d],
                    ) == Ok::<Child, Text>(Child::Skip(omission));
                let last = w.resolved.len() as int;
                assert(v.resolved[last] == package);
                assert(crate::soundness::dependencies_read(v, package) == deps);
                assert(is_skipped_child(v, omission, last, d, edge.optional));
            } else {
                let i = choose|i: int| 0 <= i < w.omissions.len() && w.omissions[i] == omission;
                law_omissions_have_a_reason(base, policy, roots, documents, before, i);
                lemma_reasons_stay(w, omission);
            }
        } else if w.omissions.contains(v.omissions[o]) {
            let omission = v.omissions[o];
            let i = choose|i: int| 0 <= i < w.omissions.len() && w.omissions[i] == omission;
            law_omissions_have_a_reason(base, policy, roots, documents, before, i);
            lemma_reasons_stay(w, omission);
        } else {
            assert(crate::walk::decision(w) is Omitted) by {
                if !(crate::walk::decision(w) is Omitted) {
                    assert(v.omissions == w.omissions);
                    assert(w.omissions.contains(w.omissions[o]));
                }
            }
            assert(is_given_up(v, v.edges[w.next], v.omissions[o]));
        }
    }
}

/// A reason stays one when the walk goes on.
proof fn lemma_reasons_stay(w: WalkView, omission: OmissionView)
    requires
        0 <= w.next,
        is_omitted_for_a_reason(w, omission),
    ensures
        is_omitted_for_a_reason(crate::walk::stepped(w), omission),
{
    let v = crate::walk::stepped(w);
    if exists|i: int, d: int, optional: bool|
        #![trigger is_skipped_child(w, omission, i, d, optional)]
        is_skipped_child(w, omission, i, d, optional) {
        let (i, d, optional) = choose|i: int, d: int, optional: bool|
            #![trigger is_skipped_child(w, omission, i, d, optional)]
            is_skipped_child(w, omission, i, d, optional);
        assert(v.resolved[i] == w.resolved[i]);
        assert(is_skipped_child(v, omission, i, d, optional));
    } else {
        let k = choose|k: int|
            0 <= k < w.next && k < w.edges.len() && #[trigger] is_given_up(
                w,
                w.edges[k],
                omission,
            );
        assert(v.edges[k] == w.edges[k]);
        assert(is_given_up(v, v.edges[k], omission));
    }
}

/// What is recorded was recorded before, or is one of those that came.
proof fn lemma_omissions_come_from(list: Seq<OmissionView>, more: Seq<OmissionView>, o: int)
    requires
        0 <= o < crate::walk::with_omissions(list, more).len(),
    ensures
        list.contains(crate::walk::with_omissions(list, more)[o]) || more.contains(
            crate::walk::with_omissions(list, more)[o],
        ),
    decreases more.len(),
{
    if more.len() == 0 {
        assert(list.contains(list[o]));
    } else {
        let shorter = more.drop_last();
        let before = crate::walk::with_omissions(list, shorter);
        let omission = crate::walk::with_omissions(list, more)[o];
        if o < before.len() {
            lemma_omissions_come_from(list, shorter, o);
            if shorter.contains(omission) {
                let i = choose|i: int| 0 <= i < shorter.len() && shorter[i] == omission;
                assert(more[i] == omission);
            }
        } else {
            assert(more[more.len() - 1] == omission);
        }
    }
}

/// Each omission of a package comes from one of its dependencies.
proof fn lemma_skips_are_children(
    policy: WalkPolicy,
    parent: Text,
    optional: bool,
    deps: Seq<DependencyView>,
    m: int,
)
    requires
        crate::walk::children(policy, parent, optional, deps) matches Ok((_, skipped)) && 0 <= m
            < skipped.len(),
    ensures
        exists|d: int|
            0 <= d < deps.len() && crate::walk::child(
                policy,
                parent,
                optional,
                #[trigger] deps[d],
            ) == Ok::<Child, Text>(
                Child::Skip(crate::walk::children(policy, parent, optional, deps)->Ok_0.1[m]),
            ),
    decreases deps.len(),
{
    let (_, skipped) = crate::walk::children(policy, parent, optional, deps)->Ok_0;
    let shorter = deps.drop_last();
    let (_, earlier) = crate::walk::children(policy, parent, optional, shorter)->Ok_0;
    if m < earlier.len() {
        lemma_skips_are_children(policy, parent, optional, shorter, m);
        let d = choose|d: int|
            0 <= d < shorter.len() && crate::walk::child(
                policy,
                parent,
                optional,
                #[trigger] shorter[d],
            ) == Ok::<Child, Text>(Child::Skip(earlier[m]));
        assert(deps[d] == shorter[d]);
        assert(skipped[m] == earlier[m]);
    } else {
        assert(crate::walk::child(policy, parent, optional, deps[deps.len() - 1]) == Ok::<
            Child,
            Text,
        >(Child::Skip(skipped[m])));
    }
}

/// What a result leaves out, it leaves out for a reason, and says it: a dependency of a package in
/// the result that cannot be followed; or an optional one, or an optional root, whose package could
/// not be fetched or has no version in range.
pub proof fn law_results_say_what_they_omit(
    base: Text,
    policy: WalkPolicy,
    roots: Seq<EdgeView>,
    documents: Seq<(Text, Reply)>,
    n: nat,
    packages: Seq<ResolvedView>,
    omissions: Seq<OmissionView>,
    o: int,
)
    requires
        gives(crate::walk::at_roots(base, policy, roots, documents), n, packages, omissions),
        0 <= o < omissions.len(),
    ensures
        policy.skip_unsupported,
        ({
            ||| exists|b: int, d: int|
                #![trigger cannot_follow(policy, documents, packages[b], d, omissions[o])]
                0 <= b < packages.len() && cannot_follow(
                    policy,
                    documents,
                    packages[b],
                    d,
                    omissions[o],
                )
            ||| exists|range: Seq<Text>|
                #[trigger] is_asked_for(
                    policy,
                    roots,
                    documents,
                    packages,
                    omissions[o].name,
                    range,
                ) && cannot_resolve(documents, range, omissions[o])
        }),
{
    let start = crate::walk::at_roots(base, policy, roots, documents);
    let end = crate::walk::walked(start, n);
    crate::soundness::law_new_walks_are_sound(base, policy, roots, documents);
    crate::soundness::law_walks_stay_sound(start, n);
    crate::soundness::law_walks_keep_their_roots(start, n);
    law_walks_stay_grounded(base, policy, roots, documents, n);
    lemma_results_hold(end.resolved, end.omissions);
    let omission = omissions[o];
    assert(omissions.contains(omission));
    let e = choose|e: int| 0 <= e < end.omissions.len() && end.omissions[e] == omission;
    law_omissions_have_a_reason(base, policy, roots, documents, n, e);
    if exists|i: int, d: int, optional: bool|
        #![trigger is_skipped_child(end, omission, i, d, optional)]
        is_skipped_child(end, omission, i, d, optional) {
        let (i, d, optional) = choose|i: int, d: int, optional: bool|
            #![trigger is_skipped_child(end, omission, i, d, optional)]
            is_skipped_child(end, omission, i, d, optional);
        assert(end.resolved.contains(end.resolved[i]));
        assert(packages.contains(end.resolved[i]));
        let b = choose|b: int| 0 <= b < packages.len() && packages[b] == end.resolved[i];
        assert(cannot_follow(policy, documents, packages[b], d, omission));
    } else {
        let k = choose|k: int|
            0 <= k < end.next && k < end.edges.len() && #[trigger] is_given_up(
                end,
                end.edges[k],
                omission,
            );
        let edge = end.edges[k];
        assert(is_from_somewhere(end, roots, edge));
        lemma_edges_were_asked_for(end, roots, edge, packages);
        assert(is_asked_for(policy, roots, documents, packages, omission.name, edge.range));
        assert(cannot_resolve(documents, edge.range, omission));
    }
}

/// An edge that comes from somewhere was asked for, in terms of what the walk gives.
proof fn lemma_edges_were_asked_for(
    end: WalkView,
    roots: Seq<EdgeView>,
    edge: EdgeView,
    packages: Seq<ResolvedView>,
)
    requires
        is_from_somewhere(end, roots, edge),
        packages == crate::walk::packages_in_order(end.resolved),
    ensures
        is_asked_for(end.policy, roots, end.known, packages, edge.name, edge.range),
{
    lemma_results_hold(end.resolved, end.omissions);
    if roots.contains(edge) {
        let m = choose|m: int| 0 <= m < roots.len() && roots[m] == edge;
        assert(roots[m].name == edge.name);
    } else {
        let (a, d, optional) = choose|a: int, d: int, optional: bool|
            #![trigger is_child_edge(end, edge, a, d, optional)]
            is_child_edge(end, edge, a, d, optional);
        assert(end.resolved.contains(end.resolved[a]));
        assert(packages.contains(end.resolved[a]));
        let b = choose|b: int| 0 <= b < packages.len() && packages[b] == end.resolved[a];
        assert(leads_to(end.policy, end.known, packages[b], d, edge.name, edge.range));
    }
}

/// Dependency `d` of `package` cannot be followed, and `omission` says so.
pub open spec fn cannot_follow(
    policy: WalkPolicy,
    documents: Seq<(Text, Reply)>,
    package: ResolvedView,
    d: int,
    omission: OmissionView,
) -> bool {
    crate::walk::reply_for(documents, package.name) matches Some(Ok(doc)) && {
        let deps = crate::registry::dependencies(doc, package.version, policy.include_optional);
        0 <= d < deps.len() && crate::registry::edge_action(deps[d].0, deps[d].1) == Ok::<
            EdgeActionView,
            Text,
        >(EdgeActionView::Omit(omission))
    }
}

/// `omission` says that its package could not be fetched, or has no version in `range`; and so it
/// is.
pub open spec fn cannot_resolve(
    documents: Seq<(Text, Reply)>,
    range: Seq<Text>,
    omission: OmissionView,
) -> bool {
    &&& omission.spec == crate::dependency::range_text(range)
    &&& match crate::walk::reply_for(documents, omission.name) {
        Some(Err(cause)) => omission.reason == "optional dependency failed to fetch: "@ + cause,
        Some(Ok(doc)) => crate::registry::selected(doc, range) is None && omission.reason
            == "optional dependency: no published version matches"@,
        None => false,
    }
}

/// A result is over, in order, and has no version twice.
pub proof fn law_results_have_no_version_twice(
    base: Text,
    policy: WalkPolicy,
    roots: Seq<EdgeView>,
    documents: Seq<(Text, Reply)>,
    n: nat,
    packages: Seq<ResolvedView>,
    omissions: Seq<OmissionView>,
    i: int,
    j: int,
)
    requires
        gives(crate::walk::at_roots(base, policy, roots, documents), n, packages, omissions),
        0 <= i < j < packages.len(),
    ensures
        packages[i].name != packages[j].name || policy.nested && packages[i].version
            != packages[j].version,
{
    let start = crate::walk::at_roots(base, policy, roots, documents);
    let end = crate::walk::walked(start, n);
    crate::soundness::law_new_walks_are_sound(base, policy, roots, documents);
    crate::soundness::law_walks_stay_sound(start, n);
    crate::soundness::law_walks_keep_their_roots(start, n);
    if !policy.nested {
        crate::soundness::law_flat_results_have_one_version_per_package(end);
    }
    lemma_sorted_versions(end.resolved);
}

proof fn lemma_sorted_versions(list: Seq<ResolvedView>)
    requires
        forall|i: int, j: int|
            #![trigger list[i], list[j]]
            0 <= i < j < list.len() ==> list[i].name != list[j].name || list[i].version
                != list[j].version,
    ensures
        ({
            let packages = crate::walk::packages_in_order(list);
            forall|i: int, j: int|
                #![trigger packages[i], packages[j]]
                0 <= i < j < packages.len() ==> packages[i].name != packages[j].name
                    || packages[i].version != packages[j].version
        }),
    decreases list.len(),
{
    if list.len() > 0 {
        let shorter = list.drop_last();
        let item = list.last();
        assert forall|i: int, j: int|
            #![trigger shorter[i], shorter[j]]
            0 <= i < j < shorter.len() implies shorter[i].name != shorter[j].name
            || shorter[i].version != shorter[j].version by {
            assert(shorter[i] == list[i] && shorter[j] == list[j]);
        }
        lemma_sorted_versions(shorter);
        lemma_results_hold(shorter, Seq::empty());
        let rest = crate::walk::packages_in_order(shorter);
        let place = crate::walk::package_place(rest, item);
        lemma_place(rest, item);
        let packages = rest.insert(place, item);
        assert forall|k: int| 0 <= k < rest.len() implies (#[trigger] rest[k]).name != item.name
            || rest[k].version != item.version by {
            assert(rest.contains(rest[k]));
            assert(shorter.contains(rest[k]));
            let m = choose|m: int| 0 <= m < shorter.len() && shorter[m] == rest[k];
            assert(list[m] == rest[k] && list[list.len() - 1] == item);
        }
        assert forall|i: int, j: int|
            #![trigger packages[i], packages[j]]
            0 <= i < j < packages.len() implies packages[i].name != packages[j].name
            || packages[i].version != packages[j].version by {
            if i == place {
                assert(packages[j] == rest[j - 1]);
            } else if j == place {
                assert(packages[i] == rest[i]);
            } else {
                let a = if i < place {
                    i
                } else {
                    i - 1
                };
                let b = if j < place {
                    j
                } else {
                    j - 1
                };
                assert(packages[i] == rest[a] && packages[j] == rest[b]);
            }
        }
    }
}

proof fn lemma_place(list: Seq<ResolvedView>, item: ResolvedView)
    ensures
        0 <= crate::walk::package_place(list, item) <= list.len(),
    decreases list.len(),
{
    if list.len() > 0 {
        lemma_place(list.drop_last(), item);
    }
}

/// The values of lists of edges, packages and replies hold the value of every item, in order.
pub proof fn law_lists_hold_every_item(
    edges: Seq<crate::walk::Edge>,
    packages: Seq<crate::registry::Resolved>,
    replies: Seq<(String, Result<crate::json::Json, String>)>,
    i: int,
)
    ensures
        crate::walk::edge_views(edges).len() == edges.len(),
        0 <= i < edges.len() ==> crate::walk::edge_views(edges)[i] == (EdgeView {
            name: edges[i].name@,
            range: edges[i].range@,
            optional: edges[i].optional,
        }),
        crate::walk::package_views(packages).len() == packages.len(),
        0 <= i < packages.len() ==> crate::walk::package_views(packages)[i] == packages[i]@,
        crate::walk::reply_views(replies).len() == replies.len(),
        0 <= i < replies.len() ==> crate::walk::reply_views(replies)[i].0 == replies[i].0@,
        0 <= i < replies.len() ==> match replies[i].1 {
            Ok(doc) => crate::walk::reply_views(replies)[i].1 == Ok::<
                crate::json::JsonView,
                Text,
            >(doc@),
            Err(message) => crate::walk::reply_views(replies)[i].1 == Err::<
                crate::json::JsonView,
                Text,
            >(message@),
        },
{
}

/// What resolving gives is what a walk from the roots gives, once it is over: its packages and
/// omissions, or why it failed.
pub proof fn law_resolving_is_walking(
    start: WalkView,
    r: Result<(Vec<crate::registry::Resolved>, Vec<crate::registry::Omission>), String>,
)
    requires
        crate::walk::is_walk_result(start, r),
    ensures
        exists|n: nat|
            #![trigger crate::walk::walked(start, n)]
            match crate::walk::decision(crate::walk::walked(start, n)) {
                Decision::Finished => r matches Ok((packages, omissions))
                    && crate::walk::package_views(packages@).to_multiset()
                    == crate::walk::walked(start, n).resolved.to_multiset()
                    && crate::registry::omission_views(omissions@).to_multiset()
                    == crate::walk::walked(start, n).omissions.to_multiset(),
                Decision::Failed(fault) => r matches Err(message) && message@ == fault,
                Decision::Wanted(name) => r matches Err(message) && message@
                    == "no packument for "@ + name,
                _ => false,
            },
{
    let n = choose|n: nat|
        #![trigger crate::walk::walked(start, n)]
        crate::walk::walk_result(crate::walk::walked(start, n)) == Some(
            match r {
                Ok((packages, omissions)) => Ok::<
                    (Seq<ResolvedView>, Seq<OmissionView>),
                    Text,
                >(
                    (
                        crate::walk::package_views(packages@),
                        crate::registry::omission_views(omissions@),
                    ),
                ),
                Err(message) => Err(message@),
            },
        );
    let end = crate::walk::walked(start, n);
    crate::soundness::law_sorting_packages_permutes(end.resolved);
    crate::soundness::law_sorting_omissions_permutes(end.omissions);
}

/// The packages alone are those of the same walk.
pub proof fn law_packages_alone_are_the_walks(
    start: WalkView,
    r: Result<Vec<crate::registry::Resolved>, String>,
)
    requires
        crate::walk::is_package_result(start, r),
    ensures
        exists|n: nat|
            #![trigger crate::walk::walked(start, n)]
            match crate::walk::decision(crate::walk::walked(start, n)) {
                Decision::Finished => r matches Ok(packages) && crate::walk::package_views(
                    packages@,
                ).to_multiset() == crate::walk::walked(start, n).resolved.to_multiset(),
                Decision::Failed(fault) => r matches Err(message) && message@ == fault,
                Decision::Wanted(name) => r matches Err(message) && message@
                    == "no packument for "@ + name,
                _ => false,
            },
{
    let n = choose|n: nat|
        #![trigger crate::walk::walked(start, n)]
        match crate::walk::walk_result(crate::walk::walked(start, n)) {
            Some(Ok((packages, _))) => r matches Ok(list) && crate::walk::package_views(list@)
                == packages,
            Some(Err(fault)) => r matches Err(message) && message@ == fault,
            None => false,
        };
    let end = crate::walk::walked(start, n);
    crate::soundness::law_sorting_packages_permutes(end.resolved);
}

/// What is said of two requirements that disagree names the package, the version that was resolved
/// first, and the other requirement.
pub proof fn law_conflicts_are_told(w: WalkView, i: int)
    requires
        0 <= w.next < w.edges.len(),
        !w.policy.nested,
        !crate::walk::satisfied(w.resolved, w.edges[w.next].name, w.edges[w.next].range),
        0 <= i < w.resolved.len(),
        w.resolved[i].name == w.edges[w.next].name,
        forall|j: int| 0 <= j < i ==> (#[trigger] w.resolved[j]).name != w.edges[w.next].name,
    ensures
        crate::walk::decision(w) == Decision::Failed(
            "version conflict for `"@ + w.edges[w.next].name + "`: resolved "@
                + w.resolved[i].version + " but also required `"@ + crate::dependency::range_text(
                w.edges[w.next].range,
            ) + "` (flat node_modules install resolves one version per package)"@,
        ),
{
    lemma_first_is_named(w.resolved, w.edges[w.next].name, i);
}

proof fn lemma_first_is_named(resolved: Seq<ResolvedView>, name: Text, i: int)
    requires
        0 <= i < resolved.len(),
        resolved[i].name == name,
        forall|j: int| 0 <= j < i ==> (#[trigger] resolved[j]).name != name,
    ensures
        crate::walk::first_named(resolved, name) == Some(i),
    decreases resolved.len(),
{
    let shorter = resolved.drop_last();
    if i < shorter.len() {
        assert(shorter[i] == resolved[i]);
        lemma_first_is_named(shorter, name, i);
    } else {
        lemma_first_named(shorter, name);
        if let Some(j) = crate::walk::first_named(shorter, name) {
            assert(resolved[j] == shorter[j]);
        }
    }
}

/// What is said of a dependency whose spec is refused names the package that declares it, the
/// dependency and its spec, and why.
pub proof fn law_refused_dependencies_are_told(
    policy: WalkPolicy,
    parent: Text,
    optional: bool,
    dep: DependencyView,
)
    ensures
        crate::walk::child(policy, parent, optional, dep) matches Err(message) ==> message
            == parent + " dependency `"@ + dep.0 + "`: unsupported version "@
            + crate::text::quotation(dep.1) + ": "@ + if policy.skip_unsupported {
            crate::registry::edge_action(dep.0, dep.1)->Err_0
        } else {
            crate::dependency::range_of(dep.1)->Err_0
        },
{
}

/// Results are sorted: where the versions are ordered, as they are, each package comes behind those
/// of lesser names, and behind the older versions of its own.
pub proof fn law_results_are_sorted(list: Seq<ResolvedView>, i: int, j: int)
    requires
        crate::registry::orders_versions(),
        forall|k: int|
            0 <= k < list.len() ==> crate::version::is_version((#[trigger] list[k]).version),
        0 <= i < j < list.len(),
    ensures
        ({
            let sorted = crate::walk::packages_in_order(list);
            &&& sorted.len() == list.len()
            &&& crate::text::precedes(sorted[i].name, sorted[j].name) || sorted[i].name
                == sorted[j].name && (sorted[i].version == sorted[j].version
                || crate::version::older(sorted[i].version, sorted[j].version))
        }),
{
    lemma_sorted(list);
    let sorted = crate::walk::packages_in_order(list);
    crate::text::law_text_order_is_total(sorted[i].name, sorted[j].name, sorted[i].name);
    assert(!crate::walk::package_before(sorted[j], sorted[i]));
    assert(crate::version::older(sorted[i].version, sorted[j].version) || !crate::version::older(
        sorted[i].version,
        sorted[j].version,
    ));
}

proof fn lemma_sorted(list: Seq<ResolvedView>)
    requires
        crate::registry::orders_versions(),
        forall|k: int|
            0 <= k < list.len() ==> crate::version::is_version((#[trigger] list[k]).version),
    ensures
        ({
            let sorted = crate::walk::packages_in_order(list);
            &&& sorted.len() == list.len()
            &&& forall|k: int|
                0 <= k < sorted.len() ==> crate::version::is_version((#[trigger] sorted[k]).version)
            &&& forall|i: int, j: int|
                #![trigger sorted[i], sorted[j]]
                0 <= i < j < sorted.len() ==> !crate::walk::package_before(sorted[j], sorted[i])
        }),
    decreases list.len(),
{
    if list.len() > 0 {
        let shorter = list.drop_last();
        let item = list.last();
        assert forall|k: int| 0 <= k < shorter.len() implies crate::version::is_version(
            (#[trigger] shorter[k]).version,
        ) by {
            assert(shorter[k] == list[k]);
        }
        assert(crate::version::is_version(list[list.len() - 1].version));
        lemma_sorted(shorter);
        let rest = crate::walk::packages_in_order(shorter);
        let place = crate::walk::package_place(rest, item);
        lemma_place(rest, item);
        lemma_first_behind(rest, item);
        let sorted = rest.insert(place, item);
        assert forall|q: int| place <= q < rest.len() implies !crate::walk::package_before(
            #[trigger] rest[q],
            item,
        ) by {
            let first = rest[place];
            lemma_before_is_an_order(item, first, rest[q]);
            lemma_before_is_an_order(rest[q], item, first);
            lemma_before_is_an_order(first, item, first);
            if q > place {
                assert(!crate::walk::package_before(rest[q], rest[place]));
            }
        }
        assert forall|k: int| 0 <= k < sorted.len() implies crate::version::is_version(
            (#[trigger] sorted[k]).version,
        ) by {
            if k != place {
                let a = if k < place {
                    k
                } else {
                    k - 1
                };
                assert(sorted[k] == rest[a]);
            }
        }
        assert forall|i: int, j: int|
            #![trigger sorted[i], sorted[j]]
            0 <= i < j < sorted.len() implies !crate::walk::package_before(
            sorted[j],
            sorted[i],
        ) by {
            let a = if i < place {
                i
            } else {
                i - 1
            };
            let b = if j < place {
                j
            } else {
                j - 1
            };
            if i == place {
                assert(sorted[j] == rest[b]);
            } else if j == place {
                assert(sorted[i] == rest[a]);
            } else {
                assert(sorted[i] == rest[a] && sorted[j] == rest[b]);
            }
        }
    }
}

/// The place of a package is before the first that it comes before.
proof fn lemma_first_behind(list: Seq<ResolvedView>, item: ResolvedView)
    ensures
        ({
            let place = crate::walk::package_place(list, item);
            &&& forall|q: int|
                0 <= q < place ==> !crate::walk::package_before(item, #[trigger] list[q])
            &&& place < list.len() ==> crate::walk::package_before(item, list[place])
        }),
    decreases list.len(),
{
    if list.len() > 0 {
        let shorter = list.drop_last();
        lemma_first_behind(shorter, item);
        lemma_place(shorter, item);
        assert forall|q: int| 0 <= q < shorter.len() implies #[trigger] list[q] == shorter[q] by {}
    }
}

/// Coming before is an order of packages.
proof fn lemma_before_is_an_order(a: ResolvedView, b: ResolvedView, c: ResolvedView)
    requires
        crate::registry::orders_versions(),
        crate::version::is_version(a.version),
        crate::version::is_version(b.version),
        crate::version::is_version(c.version),
    ensures
        !crate::walk::package_before(a, a),
        crate::walk::package_before(a, b) && crate::walk::package_before(b, c)
            ==> crate::walk::package_before(a, c),
{
    crate::text::law_text_order_is_total(a.name, b.name, c.name);
    crate::text::law_text_order_is_total(a.name, a.name, a.name);
    crate::text::law_text_order_is_total(b.name, c.name, a.name);
    assert(!crate::version::older(a.version, a.version));
}

}
