//! Package manifests: a fresh one, recording a dependency, and the roots that an audit starts at.

use crate::json::Json;
use crate::registry::{
    classify_dep, declared_dependencies, EdgeAction, Omission, OmissionView,
};
use crate::text::{quoted, same, Text};
use crate::walk::{Edge, EdgeView};
use vstd::prelude::*;
use vstd::string::*;

verus! {

// ---------------------------------------------------------------------------
// Writing
// ---------------------------------------------------------------------------

/// `list` with `value` at `key`: in place of the first member of that name, or at the end.
pub open spec fn with_member(
    list: Seq<(Text, crate::json::JsonView)>,
    key: Text,
    value: crate::json::JsonView,
) -> Seq<(Text, crate::json::JsonView)>
    decreases list.len(),
{
    if list.len() == 0 {
        seq![(key, value)]
    } else if list[0].0 == key {
        seq![(key, value)] + list.skip(1)
    } else {
        seq![list[0]] + with_member(list.skip(1), key, value)
    }
}

/// The members of a document; one that is no object has none.
pub open spec fn members_or_none(doc: Option<crate::json::JsonView>) -> Seq<
    (Text, crate::json::JsonView),
> {
    match crate::json::as_members(doc) {
        Some(list) => list,
        None => Seq::empty(),
    }
}

/// A manifest of this name and version, and nothing else.
pub open spec fn fresh_manifest(name: Text, version: Text) -> crate::json::JsonView {
    crate::json::JsonView::Object(
        seq![
            ("name"@, crate::json::JsonView::Text(name)),
            ("version"@, crate::json::JsonView::Text(version)),
        ],
    )
}

/// `doc` with the dependency `name` at `range`.
pub open spec fn with_dependency(
    doc: crate::json::JsonView,
    name: Text,
    range: Text,
) -> crate::json::JsonView {
    let all = members_or_none(Some(doc));
    let dependencies = members_or_none(crate::json::find_member(all, "dependencies"@));
    crate::json::JsonView::Object(
        with_member(
            all,
            "dependencies"@,
            crate::json::JsonView::Object(
                with_member(dependencies, name, crate::json::JsonView::Text(range)),
            ),
        ),
    )
}

fn position(list: &Vec<(String, Json)>, key: &str) -> (r: Option<usize>)
    ensures
        match r {
            Some(i) => i < list@.len() && list@[i as int].0@ == key@ && forall|k: int|
                0 <= k < i ==> (#[trigger] list@[k]).0@ != key@,
            None => forall|k: int| 0 <= k < list@.len() ==> (#[trigger] list@[k]).0@ != key@,
        },
{
    let mut i: usize = 0;
    while i < list.len()
        invariant
            i <= list@.len(),
            forall|k: int| 0 <= k < i ==> (#[trigger] list@[k]).0@ != key@,
        decreases list@.len() - i,
    {
        if same(list[i].0.as_str(), key) {
            return Some(i);
        }
        i = i + 1;
    }
    None
}

/// Where a member goes, by the position of the first of its name.
proof fn lemma_with_member(
    list: Seq<(Text, crate::json::JsonView)>,
    key: Text,
    value: crate::json::JsonView,
    at: int,
)
    requires
        0 <= at <= list.len(),
        forall|k: int| 0 <= k < at ==> (#[trigger] list[k]).0 != key,
        at < list.len() ==> list[at].0 == key,
    ensures
        with_member(list, key, value) == (if at < list.len() {
            list.update(at, (key, value))
        } else {
            list.push((key, value))
        }),
        crate::json::find_member(list, key) == (if at < list.len() {
            Some(list[at].1)
        } else {
            None
        }),
    decreases list.len(),
{
    if list.len() == 0 {
    } else if at == 0 {
        assert(seq![(key, value)] + list.skip(1) == list.update(0, (key, value)));
    } else {
        let rest = list.skip(1);
        assert forall|k: int| 0 <= k < at - 1 implies (#[trigger] rest[k]).0 != key by {
            assert(rest[k] == list[k + 1]);
        }
        assert(list[0].0 != key);
        lemma_with_member(rest, key, value, at - 1);
        if at < list.len() {
            assert(seq![list[0]] + rest.update(at - 1, (key, value)) == list.update(
                at,
                (key, value),
            ));
        } else {
            assert(seq![list[0]] + rest.push((key, value)) == list.push((key, value)));
        }
    }
}

/// Put `value` at `key`.
fn put(list: Vec<(String, Json)>, key: &str, value: Json) -> (r: Vec<(String, Json)>)
    ensures
        crate::json::members(r@) == with_member(crate::json::members(list@), key@, value@),
{
    let ghost all = crate::json::members(list@);
    let mut out = list;
    let ghost put_in = value@;
    match position(&out, key) {
        Some(i) => {
            proof {
                assert forall|k: int| 0 <= k < i implies (#[trigger] all[k]).0 != key@ by {
                    assert(all[k].0 == list@[k].0@);
                }
                assert(all[i as int].0 == key@);
                lemma_with_member(all, key@, put_in, i as int);
            }
            out.set(i, (key.to_owned(), value));
            assert(crate::json::members(out@) == all.update(i as int, (key@, put_in)));
        },
        None => {
            proof {
                assert forall|k: int| 0 <= k < all.len() implies (#[trigger] all[k]).0
                    != key@ by {
                    assert(all[k].0 == list@[k].0@);
                }
                lemma_with_member(all, key@, put_in, all.len() as int);
            }
            out.push((key.to_owned(), value));
            assert(crate::json::members(out@) == all.push((key@, put_in)));
        },
    }
    out
}

/// Take the members out of a document.
fn take_members(doc: Json) -> (r: Vec<(String, Json)>)
    ensures
        crate::json::members(r@) == members_or_none(Some(doc@)),
{
    match doc {
        Json::Object(list) => {
            assert(doc@->Object_0 == crate::json::members(list@));
            list
        },
        _ => {
            let empty: Vec<(String, Json)> = Vec::new();
            assert(crate::json::members(empty@) == Seq::<(Text, crate::json::JsonView)>::empty());
            empty
        },
    }
}

fn object(list: Vec<(String, Json)>) -> (r: Json)
    ensures
        r@ == crate::json::JsonView::Object(crate::json::members(list@)),
{
    let r = Json::Object(list);
    assert(r@->Object_0 == crate::json::members(list@));
    r
}

/// A manifest of this name and version.
pub fn scaffold(name: &str, version: &str) -> (r: Json)
    ensures
        r@ == fresh_manifest(name@, version@),
{
    let mut list: Vec<(String, Json)> = Vec::new();
    list.push(("name".to_owned(), Json::Text(name.to_owned())));
    list.push(("version".to_owned(), Json::Text(version.to_owned())));
    assert(crate::json::members(list@) == seq![
        ("name"@, crate::json::JsonView::Text(name@)),
        ("version"@, crate::json::JsonView::Text(version@)),
    ]);
    object(list)
}

/// Record the dependency `name` at `range`.
pub fn upsert_dependency(doc: Json, name: &str, range: &str) -> (r: Json)
    ensures
        r@ == with_dependency(doc@, name@, range@),
{
    let ghost all = members_or_none(Some(doc@));
    let mut list = take_members(doc);
    let empty: Vec<(String, Json)> = Vec::new();
    assert(crate::json::members(empty@) == Seq::<(Text, crate::json::JsonView)>::empty());
    let dependencies = match position(&list, "dependencies") {
        Some(i) => {
            proof {
                assert forall|k: int| 0 <= k < i implies (#[trigger] all[k]).0
                    != "dependencies"@ by {
                    assert(all[k].0 == list@[k].0@);
                }
                assert(all[i as int] == (list@[i as int].0@, list@[i as int].1@));
                lemma_with_member(
                    all,
                    "dependencies"@,
                    crate::json::JsonView::Null,
                    i as int,
                );
            }
            let (key, taken) = list.remove(i);
            list.insert(i, (key, Json::Null));
            let members = take_members(taken);
            proof {
                let now = crate::json::members(list@);
                assert(now == all.update(i as int, (all[i as int].0, crate::json::JsonView::Null)));
                assert forall|k: int| 0 <= k < i implies (#[trigger] now[k]).0
                    != "dependencies"@ by {
                    assert(now[k] == all[k]);
                }
                let value = crate::json::JsonView::Object(
                    with_member(
                        crate::json::members(members@),
                        name@,
                        crate::json::JsonView::Text(range@),
                    ),
                );
                lemma_with_member(now, "dependencies"@, value, i as int);
                lemma_with_member(all, "dependencies"@, value, i as int);
                assert(now.update(i as int, ("dependencies"@, value)) == all.update(
                    i as int,
                    ("dependencies"@, value),
                ));
            }
            members
        },
        None => {
            proof {
                assert forall|k: int| 0 <= k < all.len() implies (#[trigger] all[k]).0
                    != "dependencies"@ by {
                    assert(all[k].0 == list@[k].0@);
                }
                lemma_with_member(
                    all,
                    "dependencies"@,
                    crate::json::JsonView::Null,
                    all.len() as int,
                );
            }
            empty
        },
    };
    let dependencies = put(dependencies, name, Json::Text(range.to_owned()));
    let list = put(list, "dependencies", object(dependencies));
    object(list)
}

// ---------------------------------------------------------------------------
// Audit roots
// ---------------------------------------------------------------------------

/// What is said of a root whose spec is refused.
pub open spec fn root_fault(name: Text, spec: Text, cause: Text) -> Text {
    "dependency `"@ + name + "`: unsupported version "@ + crate::text::quotation(spec) + ": "@
        + cause
}

/// What becomes of the declared dependencies, in order; the first refused one decides.
pub open spec fn roots_of(deps: Seq<crate::registry::DependencyView>) -> Result<
    (Seq<EdgeView>, Seq<OmissionView>),
    Text,
>
    decreases deps.len(),
{
    if deps.len() == 0 {
        Ok((Seq::empty(), Seq::empty()))
    } else {
        let dep = deps.last();
        match roots_of(deps.drop_last()) {
            Err(message) => Err(message),
            Ok((edges, omissions)) => match crate::registry::edge_action(dep.0, dep.1) {
                Err(cause) => Err(root_fault(dep.0, dep.1, cause)),
                Ok(crate::registry::EdgeActionView::Resolve(name, range)) => Ok(
                    (edges.push(EdgeView { name, range, optional: dep.2 }), omissions),
                ),
                Ok(crate::registry::EdgeActionView::Omit(omission)) => Ok(
                    (edges, omissions.push(omission)),
                ),
            },
        }
    }
}

/// What an audit of a manifest starts at: its dependencies and optional dependencies, and what it
/// cannot cover, workspaces among it.
pub open spec fn audit_start(doc: crate::json::JsonView) -> Result<
    (Seq<EdgeView>, Seq<OmissionView>),
    Text,
> {
    match roots_of(crate::registry::dependencies_in(Some(doc), true)) {
        Err(message) => Err(message),
        Ok((edges, omissions)) => Ok(
            (
                edges,
                if crate::json::member(doc, "workspaces"@) is Some {
                    omissions.push(
                        OmissionView {
                            name: "workspaces"@,
                            spec: ""@,
                            reason: "workspace packages are not traversed"@,
                        },
                    )
                } else {
                    omissions
                },
            ),
        ),
    }
}

proof fn lemma_first_refused_root_decides(deps: Seq<crate::registry::DependencyView>, n: int)
    requires
        0 <= n <= deps.len(),
        roots_of(deps.take(n)) is Err,
    ensures
        roots_of(deps) == roots_of(deps.take(n)),
    decreases deps.len(),
{
    if n == deps.len() {
        assert(deps.take(n) == deps);
    } else {
        assert(deps.drop_last().take(n) == deps.take(n));
        lemma_first_refused_root_decides(deps.drop_last(), n);
    }
}

/// `r` is `wanted`.
pub open spec fn is_start(
    r: Result<(Vec<Edge>, Vec<Omission>), String>,
    wanted: Result<(Seq<EdgeView>, Seq<OmissionView>), Text>,
) -> bool {
    match r {
        Ok((edges, omissions)) => wanted == Ok::<(Seq<EdgeView>, Seq<OmissionView>), Text>(
            (
                crate::walk::edge_views(edges@),
                crate::registry::omission_views(omissions@),
            ),
        ),
        Err(message) => wanted == Err::<(Seq<EdgeView>, Seq<OmissionView>), Text>(message@),
    }
}

/// What an audit of a manifest starts at.
pub fn audit_roots(doc: &Json) -> (r: Result<(Vec<Edge>, Vec<Omission>), String>)
    ensures
        is_start(r, audit_start(doc@)),
{
    let deps = declared_dependencies(doc, true);
    let ghost all = crate::registry::dependency_views(deps@);
    let mut edges: Vec<Edge> = Vec::new();
    let mut omissions: Vec<Omission> = Vec::new();
    let mut i: usize = 0;
    assert(all.take(0).len() == 0);
    assert(crate::walk::edge_views(edges@) == Seq::<EdgeView>::empty());
    assert(crate::registry::omission_views(omissions@) == Seq::<OmissionView>::empty());
    while i < deps.len()
        invariant
            i <= deps@.len(),
            all == crate::registry::dependency_views(deps@),
            all == crate::registry::dependencies_in(Some(doc@), true),
            roots_of(all.take(i as int)) == Ok::<(Seq<EdgeView>, Seq<OmissionView>), Text>(
                (
                    crate::walk::edge_views(edges@),
                    crate::registry::omission_views(omissions@),
                ),
            ),
        decreases deps@.len() - i,
    {
        let name = deps[i].0.as_str();
        let spec = deps[i].1.as_str();
        let ghost edges_before = edges@;
        let ghost omissions_before = omissions@;
        assert(all.take(i + 1).drop_last() == all.take(i as int));
        assert(all.take(i + 1).last() == (name@, spec@, deps@[i as int].2));
        match classify_dep(name, spec) {
            Err(cause) => {
                let mut message = "dependency `".to_owned();
                message.append(name);
                message.append("`: unsupported version ");
                message.append(quoted(spec).as_str());
                message.append(": ");
                message.append(cause.as_str());
                proof {
                    lemma_first_refused_root_decides(all, i + 1);
                }
                return Err(message);
            },
            Ok(EdgeAction::Resolve { name: target, range }) => {
                let edge = Edge { name: target, range, optional: deps[i].2 };
                edges.push(edge);
                assert(crate::walk::edge_views(edges@) == crate::walk::edge_views(
                    edges_before,
                ).push(edge@));
            },
            Ok(EdgeAction::Omit(omission)) => {
                omissions.push(omission);
                assert(crate::registry::omission_views(omissions@)
                    == crate::registry::omission_views(omissions_before).push(omission@));
            },
        }
        i = i + 1;
    }
    assert(all.take(i as int) == all);
    if doc.get("workspaces").is_some() {
        let ghost before = omissions@;
        let omission = Omission::new("workspaces", "", "workspace packages are not traversed");
        omissions.push(omission);
        assert(crate::registry::omission_views(omissions@) == crate::registry::omission_views(
            before,
        ).push(omission@));
    }
    Ok((edges, omissions))
}

// ---------------------------------------------------------------------------
// Laws
// ---------------------------------------------------------------------------

/// A recorded dependency is read back as it was written.
pub proof fn law_recorded_dependencies_read_back(
    doc: crate::json::JsonView,
    name: Text,
    range: Text,
)
    ensures
        crate::json::as_members(
            crate::json::member(with_dependency(doc, name, range), "dependencies"@),
        ) matches Some(list) && crate::json::find_member(list, name) == Some(
            crate::json::JsonView::Text(range),
        ),
{
    let all = members_or_none(Some(doc));
    let dependencies = members_or_none(crate::json::find_member(all, "dependencies"@));
    let inner = with_member(dependencies, name, crate::json::JsonView::Text(range));
    lemma_put_reads_back(dependencies, name, crate::json::JsonView::Text(range));
    lemma_put_reads_back(all, "dependencies"@, crate::json::JsonView::Object(inner));
}

/// Recording a dependency leaves all other members and all other dependencies as they were.
pub proof fn law_recording_leaves_the_rest(
    doc: crate::json::JsonView,
    name: Text,
    range: Text,
    other: Text,
)
    ensures
        other != "dependencies"@ ==> crate::json::member(
            with_dependency(doc, name, range),
            other,
        ) == crate::json::find_member(members_or_none(Some(doc)), other),
        other != name ==> crate::json::find_member(
            members_or_none(
                crate::json::member(with_dependency(doc, name, range), "dependencies"@),
            ),
            other,
        ) == crate::json::find_member(
            members_or_none(
                crate::json::find_member(members_or_none(Some(doc)), "dependencies"@),
            ),
            other,
        ),
{
    let all = members_or_none(Some(doc));
    let dependencies = members_or_none(crate::json::find_member(all, "dependencies"@));
    let inner = with_member(dependencies, name, crate::json::JsonView::Text(range));
    lemma_put_reads_back(all, "dependencies"@, crate::json::JsonView::Object(inner));
    if other != name {
        lemma_put_leaves_others(dependencies, name, crate::json::JsonView::Text(range), other);
    }
    if other != "dependencies"@ {
        lemma_put_leaves_others(
            all,
            "dependencies"@,
            crate::json::JsonView::Object(inner),
            other,
        );
    }
}

proof fn lemma_put_reads_back(
    list: Seq<(Text, crate::json::JsonView)>,
    key: Text,
    value: crate::json::JsonView,
)
    ensures
        crate::json::find_member(with_member(list, key, value), key) == Some(value),
    decreases list.len(),
{
    let now = with_member(list, key, value);
    if list.len() > 0 && list[0].0 != key {
        lemma_put_reads_back(list.skip(1), key, value);
        assert(now.skip(1) == with_member(list.skip(1), key, value));
    }
}

proof fn lemma_put_leaves_others(
    list: Seq<(Text, crate::json::JsonView)>,
    key: Text,
    value: crate::json::JsonView,
    other: Text,
)
    requires
        other != key,
    ensures
        crate::json::find_member(with_member(list, key, value), other)
            == crate::json::find_member(list, other),
    decreases list.len(),
{
    let now = with_member(list, key, value);
    if list.len() == 0 {
        assert(now.skip(1) == list);
    } else if list[0].0 == key {
        assert(now.skip(1) == list.skip(1));
    } else {
        lemma_put_leaves_others(list.skip(1), key, value, other);
        assert(now.skip(1) == with_member(list.skip(1), key, value));
    }
}

/// The member `dependencies` after recording one: the ones before it, with the new one in place of
/// the first of its name, or else at the end.
pub proof fn law_dependencies_are_recorded(doc: crate::json::JsonView, name: Text, range: Text)
    ensures
        ({
            let before = members_or_none(
                crate::json::find_member(members_or_none(Some(doc)), "dependencies"@),
            );
            let after = crate::json::as_members(
                crate::json::member(with_dependency(doc, name, range), "dependencies"@),
            );
            &&& after == Some(with_member(before, name, crate::json::JsonView::Text(range)))
            &&& before.len() <= after->0.len() <= before.len() + 1
            &&& forall|i: int|
                0 <= i < before.len() && (#[trigger] before[i]).0 != name ==> after->0[i]
                    == before[i]
            &&& forall|i: int|
                0 <= i < before.len() ==> (#[trigger] after->0[i]).0 == before[i].0
        }),
{
    let all = members_or_none(Some(doc));
    let before = members_or_none(crate::json::find_member(all, "dependencies"@));
    let value = crate::json::JsonView::Object(
        with_member(before, name, crate::json::JsonView::Text(range)),
    );
    lemma_put_reads_back(all, "dependencies"@, value);
    lemma_members_keep_their_place(before, name, crate::json::JsonView::Text(range));
}

proof fn lemma_members_keep_their_place(
    list: Seq<(Text, crate::json::JsonView)>,
    key: Text,
    value: crate::json::JsonView,
)
    ensures
        list.len() <= with_member(list, key, value).len() <= list.len() + 1,
        forall|i: int|
            0 <= i < list.len() && (#[trigger] list[i]).0 != key ==> with_member(
                list,
                key,
                value,
            )[i] == list[i],
        forall|i: int|
            0 <= i < list.len() ==> (#[trigger] with_member(list, key, value)[i]).0 == list[i].0,
    decreases list.len(),
{
    if list.len() > 0 && list[0].0 != key {
        let rest = list.skip(1);
        lemma_members_keep_their_place(rest, key, value);
        let after = with_member(list, key, value);
        let inner = with_member(rest, key, value);
        assert forall|i: int| 0 <= i < list.len() && (#[trigger] list[i]).0 != key implies after[i]
            == list[i] by {
            if i > 0 {
                assert(after[i] == inner[i - 1]);
                assert(rest[i - 1] == list[i]);
            }
        }
        assert forall|i: int| 0 <= i < list.len() implies (#[trigger] after[i]).0 == list[i].0 by {
            if i > 0 {
                assert(after[i] == inner[i - 1]);
                assert(rest[i - 1] == list[i]);
            }
        }
    }
}

/// A new manifest holds its name, its version and nothing else.
pub proof fn law_fresh_manifests_are_plain(name: Text, version: Text, other: Text)
    requires
        other != "name"@ && other != "version"@,
    ensures
        crate::json::member(fresh_manifest(name, version), "name"@) == Some(
            crate::json::JsonView::Text(name),
        ),
        crate::json::member(fresh_manifest(name, version), "version"@) == Some(
            crate::json::JsonView::Text(version),
        ),
        crate::json::member(fresh_manifest(name, version), other) is None,
{
    reveal_strlit("name");
    reveal_strlit("version");
    assert("name"@.len() != "version"@.len());
    reveal_with_fuel(crate::json::find_member, 3);
}

/// Every declared dependency counts, in order. Unless one is refused, those that lead to a range
/// of a package are the roots, optional where they are declared so, and those that cannot be
/// followed the omissions; and the first that is refused is what is said.
pub proof fn law_every_dependency_is_a_root(deps: Seq<crate::registry::DependencyView>)
    ensures
        match roots_of(deps) {
            Ok((edges, omissions)) => {
                &&& forall|d: int|
                    0 <= d < deps.len() ==> crate::registry::edge_action(
                        (#[trigger] deps[d]).0,
                        deps[d].1,
                    ) is Ok
                &&& edges == deps.filter_map(
                    |dep: crate::registry::DependencyView|
                        match crate::registry::edge_action(dep.0, dep.1) {
                            Ok(crate::registry::EdgeActionView::Resolve(name, range)) => Some(
                                EdgeView { name, range, optional: dep.2 },
                            ),
                            _ => None,
                        },
                )
                &&& omissions == deps.filter_map(
                    |dep: crate::registry::DependencyView|
                        match crate::registry::edge_action(dep.0, dep.1) {
                            Ok(crate::registry::EdgeActionView::Omit(omission)) => Some(omission),
                            _ => None,
                        },
                )
            },
            Err(message) => exists|d: int|
                0 <= d < deps.len() && crate::registry::edge_action(
                    (#[trigger] deps[d]).0,
                    deps[d].1,
                ) is Err && message == root_fault(
                    deps[d].0,
                    deps[d].1,
                    crate::registry::edge_action(deps[d].0, deps[d].1)->Err_0,
                ) && (forall|e: int|
                    0 <= e < d ==> crate::registry::edge_action(
                        (#[trigger] deps[e]).0,
                        deps[e].1,
                    ) is Ok),
        },
    decreases deps.len(),
{
    if deps.len() > 0 {
        let shorter = deps.drop_last();
        law_every_dependency_is_a_root(shorter);
        match roots_of(shorter) {
            Err(message) => {
                let d = choose|d: int|
                    0 <= d < shorter.len() && crate::registry::edge_action(
                        (#[trigger] shorter[d]).0,
                        shorter[d].1,
                    ) is Err && message == root_fault(
                        shorter[d].0,
                        shorter[d].1,
                        crate::registry::edge_action(shorter[d].0, shorter[d].1)->Err_0,
                    ) && (forall|e: int|
                        0 <= e < d ==> crate::registry::edge_action(
                            (#[trigger] shorter[e]).0,
                            shorter[e].1,
                        ) is Ok);
                assert(deps[d] == shorter[d]);
                assert forall|e: int| 0 <= e < d implies crate::registry::edge_action(
                    (#[trigger] deps[e]).0,
                    deps[e].1,
                ) is Ok by {
                    assert(deps[e] == shorter[e]);
                }
            },
            Ok(_) => {
                assert forall|e: int| 0 <= e < shorter.len() implies crate::registry::edge_action(
                    (#[trigger] deps[e]).0,
                    deps[e].1,
                ) is Ok by {
                    assert(deps[e] == shorter[e]);
                }
                assert(deps[deps.len() - 1] == deps.last());
            },
        }
    }
}

/// No dependency that a manifest declares gets lost: it is a root, or an omission.
pub proof fn law_roots_hold_every_range(deps: Seq<crate::registry::DependencyView>, d: int)
    requires
        roots_of(deps) is Ok,
        0 <= d < deps.len(),
    ensures
        match crate::registry::edge_action(deps[d].0, deps[d].1) {
            Ok(crate::registry::EdgeActionView::Resolve(name, range)) => roots_of(
                deps,
            )->Ok_0.0.contains(EdgeView { name, range, optional: deps[d].2 }),
            Ok(crate::registry::EdgeActionView::Omit(omission)) => roots_of(
                deps,
            )->Ok_0.1.contains(omission),
            Err(_) => false,
        },
    decreases deps.len(),
{
    let shorter = deps.drop_last();
    let (edges, omissions) = roots_of(deps)->Ok_0;
    let (earlier, left) = roots_of(shorter)->Ok_0;
    if d < shorter.len() {
        law_roots_hold_every_range(shorter, d);
        assert(shorter[d] == deps[d]);
        match crate::registry::edge_action(deps[d].0, deps[d].1) {
            Ok(crate::registry::EdgeActionView::Resolve(name, range)) => {
                let edge = EdgeView { name, range, optional: deps[d].2 };
                let k = choose|k: int| 0 <= k < earlier.len() && earlier[k] == edge;
                assert(edges[k] == edge);
            },
            Ok(crate::registry::EdgeActionView::Omit(omission)) => {
                let k = choose|k: int| 0 <= k < left.len() && left[k] == omission;
                assert(omissions[k] == omission);
            },
            Err(_) => {},
        }
    } else {
        assert(deps[d] == deps.last());
        assert(edges.len() > 0 ==> edges[edges.len() - 1] == edges.last());
        assert(omissions.len() > 0 ==> omissions[omissions.len() - 1] == omissions.last());
    }
}

/// An audit starts at the dependencies of the manifest, the optional ones among them; workspaces
/// are one omission more, and the last.
pub proof fn law_workspaces_are_omitted(doc: crate::json::JsonView)
    ensures
        match roots_of(crate::registry::dependencies_in(Some(doc), true)) {
            Ok((edges, omissions)) => audit_start(doc) matches Ok((roots, left)) && roots == edges
                && if crate::json::member(doc, "workspaces"@) is Some {
                &&& left.len() == omissions.len() + 1
                &&& left.drop_last() == omissions
                &&& left.last().name == "workspaces"@
                &&& left.last().reason == "workspace packages are not traversed"@
            } else {
                left == omissions
            },
            Err(message) => audit_start(doc) == Err::<(Seq<EdgeView>, Seq<OmissionView>), Text>(
                message,
            ),
        },
{
    if let Ok((_, omissions)) = roots_of(crate::registry::dependencies_in(Some(doc), true)) {
        if crate::json::member(doc, "workspaces"@) is Some {
            assert(audit_start(doc)->Ok_0.1.drop_last() =~= omissions);
        }
    }
}

}
