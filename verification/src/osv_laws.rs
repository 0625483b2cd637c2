//! What holds of every OSV query and of every record that is read, said in terms of the documents
//! that come in and of what comes out.

use crate::json::JsonView;
use crate::osv::{AdvisoryView, ComponentView, QueryActionView, RecordView, Severity, WantedView};
use crate::text::Text;
use vstd::prelude::*;
use vstd::string::*;

verus! {

// ---------------------------------------------------------------------------
// Queries
// ---------------------------------------------------------------------------

/// The text of a member that has one.
pub open spec fn text_at(doc: JsonView, key: Text) -> Option<Text> {
    match crate::json::member(doc, key) {
        Some(JsonView::Text(text)) => Some(text),
        _ => None,
    }
}

/// The items of the array at `key`; none where there is no array.
pub open spec fn items_at(doc: JsonView, key: Text) -> Seq<JsonView> {
    match crate::json::member(doc, key) {
        Some(JsonView::Array(items)) => items,
        _ => Seq::empty(),
    }
}

/// The body of a batch has one query for each component, in order, which names the npm package
/// and its version.
pub proof fn law_batches_ask_for_every_component(components: Seq<ComponentView>)
    ensures
        ({
            let queries = items_at(crate::osv::batch_document(components), "queries"@);
            &&& queries.len() == components.len()
            &&& forall|i: int|
                0 <= i < queries.len() ==> asks_for(#[trigger] queries[i], components[i])
        }),
{
    let queries = Seq::new(
        components.len(),
        |i: int| crate::osv::query_document(components[i]),
    );
    let doc = crate::osv::batch_document(components);
    let list = seq![("queries"@, JsonView::Array(queries))];
    assert(doc == JsonView::Object(list));
    assert(list[0].0 == "queries"@);
    assert(crate::json::member(doc, "queries"@) == Some(JsonView::Array(queries)));
    assert forall|i: int| 0 <= i < queries.len() implies asks_for(
        #[trigger] queries[i],
        components[i],
    ) by {
        lemma_query(components[i]);
    }
}

/// `query` asks for the npm package of `component` at its version.
pub open spec fn asks_for(query: JsonView, component: ComponentView) -> bool {
    &&& text_at(query, "version"@) == Some(component.1)
    &&& crate::json::member(query, "package"@) matches Some(package) && text_at(
        package,
        "ecosystem"@,
    ) == Some("npm"@) && text_at(package, "name"@) == Some(component.0)
}

proof fn lemma_query(component: ComponentView)
    ensures
        asks_for(crate::osv::query_document(component), component),
{
    reveal_with_fuel(crate::json::find_member, 3);
    reveal_strlit("package");
    reveal_strlit("version");
    reveal_strlit("ecosystem");
    reveal_strlit("name");
    let inner = seq![
        ("ecosystem"@, JsonView::Text("npm"@)),
        ("name"@, JsonView::Text(component.0)),
    ];
    let outer = seq![
        ("package"@, JsonView::Object(inner)),
        ("version"@, JsonView::Text(component.1)),
    ];
    assert(crate::osv::query_document(component) == JsonView::Object(outer));
    assert("package"@ != "version"@) by {
        assert("package"@[0] != "version"@[0]);
    }
    assert("ecosystem"@ != "name"@) by {
        assert("ecosystem"@[0] != "name"@[0]);
    }
    assert(outer.skip(1)[0] == outer[1]);
    assert(inner.skip(1)[0] == inner[1]);
    assert(crate::json::find_member(outer, "version"@) == Some(JsonView::Text(component.1)));
    assert(crate::json::find_member(inner, "name"@) == Some(JsonView::Text(component.0)));
}

/// Request `n` of a query posts the `n`-th thousand of its components, as long as there are any
/// left to ask for; a page without a usable reply ends the query with an error.
pub proof fn law_pages_are_posted_in_order(
    components: Seq<ComponentView>,
    replies: Seq<Option<JsonView>>,
)
    requires
        crate::osv::asked_for(components, replies),
        forall|k: int| 0 <= k < replies.len() ==> (#[trigger] replies[k]) is Some,
        1000 * replies.len() < components.len(),
    ensures
        ({
            let from = 1000 * replies.len() as int;
            let to = if from + 1000 <= components.len() {
                from + 1000
            } else {
                components.len() as int
            };
            match crate::json::json_bytes(
                crate::osv::batch_document(components.subrange(from, to)),
            ) {
                Ok(body) => crate::osv::request(crate::osv::after_replies(components, replies))
                    == QueryActionView::Post("https://api.osv.dev/v1/querybatch"@, body),
                Err(message) => crate::osv::request(
                    crate::osv::after_replies(components, replies),
                ) == QueryActionView::Done(Err(message)),
            }
        }),
{
    crate::osv::law_requests_come_in_order(components, replies);
    assert(replies.take(replies.len() as int) == replies);
    assert(replies.len() > 0 ==> replies[replies.len() - 1] is Some);
}

/// A page that was not answered usably fails the query.
pub proof fn law_unanswered_pages_fail_the_query(
    components: Seq<ComponentView>,
    replies: Seq<Option<JsonView>>,
)
    requires
        0 < replies.len(),
        1000 * (replies.len() - 1) < components.len(),
        crate::osv::asked_for(components, replies),
        replies.last() is None,
    ensures
        crate::osv::request(crate::osv::after_replies(components, replies))
            == QueryActionView::Done(
            Err("OSV querybatch endpoint unreachable or returned no usable data"@),
        ),
{
    crate::osv::law_requests_come_in_order(components, replies);
    assert(replies.take(replies.len() as int) == replies);
}

/// Results belong to the components by position: each vulnerability of the result at `i` that has
/// a text as its id is wanted for the component at `i`, and nothing else is wanted.
pub proof fn law_results_are_read_by_position(
    response: JsonView,
    queried: Seq<ComponentView>,
)
    ensures
        ({
            let results = items_at(response, "results"@);
            let wanted = crate::osv::wanted_in(response, queried);
            &&& forall|i: int, j: int|
                #![trigger items_at(results[i], "vulns"@)[j]]
                0 <= i < results.len() && i < queried.len() && 0 <= j < items_at(
                    results[i],
                    "vulns"@,
                ).len() && text_at(items_at(results[i], "vulns"@)[j], "id"@) is Some
                    ==> wanted.contains(
                    (
                        queried[i].0,
                        queried[i].1,
                        text_at(items_at(results[i], "vulns"@)[j], "id"@)->0,
                    ),
                )
            &&& forall|k: int|
                0 <= k < wanted.len() ==> is_named_for(results, queried, #[trigger] wanted[k])
        }),
{
    lemma_ids_by_position(items_at(response, "results"@), queried);
}

/// One of `results` names the id of `wanted` for its component.
pub open spec fn is_named_for(
    results: Seq<JsonView>,
    queried: Seq<ComponentView>,
    wanted: WantedView,
) -> bool {
    exists|i: int, j: int|
        #![trigger items_at(results[i], "vulns"@)[j]]
        0 <= i < results.len() && i < queried.len() && 0 <= j < items_at(
            results[i],
            "vulns"@,
        ).len() && queried[i] == (wanted.0, wanted.1) && text_at(
            items_at(results[i], "vulns"@)[j],
            "id"@,
        ) == Some(wanted.2)
}

/// The ids of one result come out in its order, one for each vulnerability that has one.
pub proof fn law_results_name_their_ids(component: ComponentView, result: JsonView)
    ensures
        crate::osv::ids_in(component, result) == items_at(result, "vulns"@).filter_map(
            |v: JsonView|
                match text_at(v, "id"@) {
                    Some(id) => Some((component.0, component.1, id)),
                    None => None,
                },
        ),
{
    lemma_ids_for(component, items_at(result, "vulns"@));
}

/// What is wanted is what the results name, result by result, as far as there are components.
pub proof fn law_wanted_ids_are_in_order(response: JsonView, queried: Seq<ComponentView>)
    ensures
        ({
            let results = items_at(response, "results"@);
            let n = if results.len() < queried.len() {
                results.len()
            } else {
                queried.len()
            };
            crate::osv::wanted_in(response, queried) == Seq::new(
                n,
                |i: int| crate::osv::ids_in(queried[i], results[i]),
            ).flatten()
        }),
{
    lemma_ids_flatten(items_at(response, "results"@), queried);
}

proof fn lemma_ids_flatten(results: Seq<JsonView>, queried: Seq<ComponentView>)
    ensures
        ({
            let n = if results.len() < queried.len() {
                results.len()
            } else {
                queried.len()
            };
            crate::osv::ids_by_position(results, queried) == Seq::new(
                n,
                |i: int| crate::osv::ids_in(queried[i], results[i]),
            ).flatten()
        }),
    decreases results.len(),
{
    let n = if results.len() < queried.len() {
        results.len()
    } else {
        queried.len()
    };
    let lists = Seq::new(n, |i: int| crate::osv::ids_in(queried[i], results[i]));
    lists.lemma_flatten_and_flatten_alt_are_equivalent();
    if results.len() > 0 {
        let shorter = results.drop_last();
        lemma_ids_flatten(shorter, queried);
        let m = if shorter.len() < queried.len() {
            shorter.len()
        } else {
            queried.len()
        };
        let earlier = Seq::new(m, |i: int| crate::osv::ids_in(queried[i], shorter[i]));
        earlier.lemma_flatten_and_flatten_alt_are_equivalent();
        if results.len() - 1 < queried.len() {
            assert(lists.drop_last() =~= earlier);
        } else {
            assert(lists =~= earlier);
        }
    } else {
        assert(lists.len() == 0);
    }
}

proof fn lemma_ids_for(component: ComponentView, vulns: Seq<JsonView>)
    ensures
        crate::osv::ids_for(component, vulns) == vulns.filter_map(
            |v: JsonView|
                match text_at(v, "id"@) {
                    Some(id) => Some((component.0, component.1, id)),
                    None => None,
                },
        ),
    decreases vulns.len(),
{
    if vulns.len() > 0 {
        lemma_ids_for(component, vulns.drop_last());
    }
}

proof fn lemma_ids_hold(component: ComponentView, vulns: Seq<JsonView>)
    ensures
        forall|j: int|
            0 <= j < vulns.len() && text_at(#[trigger] vulns[j], "id"@) is Some
                ==> crate::osv::ids_for(component, vulns).contains(
                (component.0, component.1, text_at(vulns[j], "id"@)->0),
            ),
        forall|k: int|
            0 <= k < crate::osv::ids_for(component, vulns).len() ==> {
                let id = #[trigger] crate::osv::ids_for(component, vulns)[k];
                id.0 == component.0 && id.1 == component.1 && exists|j: int|
                    0 <= j < vulns.len() && text_at(#[trigger] vulns[j], "id"@) == Some(id.2)
            },
    decreases vulns.len(),
{
    if vulns.len() > 0 {
        let shorter = vulns.drop_last();
        lemma_ids_hold(component, shorter);
        let earlier = crate::osv::ids_for(component, shorter);
        let now = crate::osv::ids_for(component, vulns);
        assert forall|j: int| 0 <= j < vulns.len() && text_at(
            #[trigger] vulns[j],
            "id"@,
        ) is Some implies now.contains(
            (component.0, component.1, text_at(vulns[j], "id"@)->0),
        ) by {
            let id = (component.0, component.1, text_at(vulns[j], "id"@)->0);
            if j < shorter.len() {
                assert(shorter[j] == vulns[j]);
                let k = choose|k: int| 0 <= k < earlier.len() && earlier[k] == id;
                assert(now[k] == id);
            } else {
                assert(now[now.len() - 1] == id);
            }
        }
        assert forall|k: int| 0 <= k < now.len() implies ({
            let id = #[trigger] now[k];
            id.0 == component.0 && id.1 == component.1 && exists|j: int|
                0 <= j < vulns.len() && text_at(#[trigger] vulns[j], "id"@) == Some(id.2)
        }) by {
            if k < earlier.len() {
                assert(now[k] == earlier[k]);
                let j = choose|j: int|
                    0 <= j < shorter.len() && text_at(#[trigger] shorter[j], "id"@) == Some(
                        earlier[k].2,
                    );
                assert(vulns[j] == shorter[j]);
            } else {
                assert(text_at(vulns[vulns.len() - 1], "id"@) == Some(now[k].2));
            }
        }
    }
}

proof fn lemma_ids_by_position(results: Seq<JsonView>, queried: Seq<ComponentView>)
    ensures
        ({
            let wanted = crate::osv::ids_by_position(results, queried);
            &&& forall|i: int, j: int|
                #![trigger items_at(results[i], "vulns"@)[j]]
                0 <= i < results.len() && i < queried.len() && 0 <= j < items_at(
                    results[i],
                    "vulns"@,
                ).len() && text_at(items_at(results[i], "vulns"@)[j], "id"@) is Some
                    ==> wanted.contains(
                    (
                        queried[i].0,
                        queried[i].1,
                        text_at(items_at(results[i], "vulns"@)[j], "id"@)->0,
                    ),
                )
            &&& forall|k: int|
                0 <= k < wanted.len() ==> is_named_for(results, queried, #[trigger] wanted[k])
        }),
    decreases results.len(),
{
    let wanted = crate::osv::ids_by_position(results, queried);
    if results.len() > 0 {
        let shorter = results.drop_last();
        let earlier = crate::osv::ids_by_position(shorter, queried);
        lemma_ids_by_position(shorter, queried);
        let last = results.len() - 1;
        let vulns = items_at(results[last], "vulns"@);
        let more = crate::osv::ids_in(queried[last], results[last]);
        if last < queried.len() {
            lemma_ids_hold(queried[last], vulns);
            assert(more == crate::osv::ids_for(queried[last], vulns));
        }
        assert forall|i: int, j: int|
            #![trigger items_at(results[i], "vulns"@)[j]]
            0 <= i < results.len() && i < queried.len() && 0 <= j < items_at(
                results[i],
                "vulns"@,
            ).len() && text_at(
                items_at(results[i], "vulns"@)[j],
                "id"@,
            ) is Some implies wanted.contains(
            (
                queried[i].0,
                queried[i].1,
                text_at(items_at(results[i], "vulns"@)[j], "id"@)->0,
            ),
        ) by {
            let id = (
                queried[i].0,
                queried[i].1,
                text_at(items_at(results[i], "vulns"@)[j], "id"@)->0,
            );
            if i < shorter.len() {
                assert(shorter[i] == results[i]);
                assert(items_at(shorter[i], "vulns"@)[j] == items_at(results[i], "vulns"@)[j]);
                assert(earlier.contains(id));
                let k = choose|k: int| 0 <= k < earlier.len() && earlier[k] == id;
                assert(wanted[k] == id);
            } else {
                assert(vulns[j] == items_at(results[i], "vulns"@)[j]);
                assert(more.contains(id));
                let k = choose|k: int| 0 <= k < more.len() && more[k] == id;
                assert(wanted[earlier.len() + k] == id);
            }
        }
        assert forall|k: int| 0 <= k < wanted.len() implies is_named_for(
            results,
            queried,
            #[trigger] wanted[k],
        ) by {
            if k < earlier.len() {
                assert(wanted[k] == earlier[k]);
                assert(is_named_for(shorter, queried, earlier[k]));
                let (i, j) = choose|i: int, j: int|
                    #![trigger items_at(shorter[i], "vulns"@)[j]]
                    0 <= i < shorter.len() && i < queried.len() && 0 <= j < items_at(
                        shorter[i],
                        "vulns"@,
                    ).len() && queried[i] == (earlier[k].0, earlier[k].1) && text_at(
                        items_at(shorter[i], "vulns"@)[j],
                        "id"@,
                    ) == Some(earlier[k].2);
                assert(shorter[i] == results[i]);
                assert(items_at(results[i], "vulns"@)[j] == items_at(shorter[i], "vulns"@)[j]);
            } else {
                let id = more[k - earlier.len()];
                assert(wanted[k] == id);
                let j = choose|j: int|
                    0 <= j < vulns.len() && text_at(#[trigger] vulns[j], "id"@) == Some(id.2);
                assert(items_at(results[last], "vulns"@)[j] == vulns[j]);
            }
        }
    }
}

/// Whatever the reply to its page names for a component is wanted, wherever the component stands:
/// the component at `i` is answered by reply `i / 1000`, at `i % 1000`.
pub proof fn law_every_component_is_answered(
    components: Seq<ComponentView>,
    replies: Seq<Option<JsonView>>,
    i: int,
    j: int,
)
    requires
        0 <= i < components.len(),
        i / 1000 < replies.len(),
        replies[i / 1000] is Some,
        i % 1000 < items_at(replies[i / 1000]->0, "results"@).len(),
        ({
            let result = items_at(replies[i / 1000]->0, "results"@)[i % 1000];
            0 <= j < items_at(result, "vulns"@).len() && text_at(
                items_at(result, "vulns"@)[j],
                "id"@,
            ) is Some
        }),
    ensures
        ({
            let result = items_at(replies[i / 1000]->0, "results"@)[i % 1000];
            crate::osv::wanted_in_pages(components, replies).contains(
                (
                    components[i].0,
                    components[i].1,
                    text_at(items_at(result, "vulns"@)[j], "id"@)->0,
                ),
            )
        }),
{
    let k = i / 1000;
    let response = replies[k]->0;
    let queried = crate::osv::page(components, k);
    crate::osv::law_pages_hold_every_component(components, i);
    law_results_are_read_by_position(response, queried);
    let results = items_at(response, "results"@);
    let id = text_at(items_at(results[i % 1000], "vulns"@)[j], "id"@)->0;
    assert(crate::osv::wanted_in(response, queried).contains(
        (components[i].0, components[i].1, id),
    ));
    lemma_pages_hold(components, replies, k, (components[i].0, components[i].1, id));
}

proof fn lemma_pages_hold(
    components: Seq<ComponentView>,
    replies: Seq<Option<JsonView>>,
    k: int,
    wanted: WantedView,
)
    requires
        0 <= k < replies.len(),
        crate::osv::wanted_in(replies[k]->0, crate::osv::page(components, k)).contains(wanted),
    ensures
        crate::osv::wanted_in_pages(components, replies).contains(wanted),
    decreases replies.len(),
{
    let shorter = replies.drop_last();
    let earlier = crate::osv::wanted_in_pages(components, shorter);
    let last = crate::osv::wanted_in(
        replies.last()->0,
        crate::osv::page(components, replies.len() - 1),
    );
    let all = crate::osv::wanted_in_pages(components, replies);
    if k < shorter.len() {
        lemma_pages_hold(components, shorter, k, wanted);
        let m = choose|m: int| 0 <= m < earlier.len() && earlier[m] == wanted;
        assert(all[m] == wanted);
    } else {
        let m = choose|m: int| 0 <= m < last.len() && last[m] == wanted;
        assert(all[earlier.len() + m] == wanted);
    }
}

/// Nothing is wanted that no reply names: each id comes from the reply to some page, for a
/// component of that page.
pub proof fn law_wanted_ids_were_named(
    components: Seq<ComponentView>,
    replies: Seq<Option<JsonView>>,
    wanted: WantedView,
)
    requires
        crate::osv::wanted_in_pages(components, replies).contains(wanted),
    ensures
        exists|k: int|
            0 <= k < replies.len() && is_named_for(
                items_at((#[trigger] replies[k])->0, "results"@),
                crate::osv::page(components, k),
                wanted,
            ),
    decreases replies.len(),
{
    if replies.len() > 0 {
        let shorter = replies.drop_last();
        let earlier = crate::osv::wanted_in_pages(components, shorter);
        let queried = crate::osv::page(components, replies.len() - 1);
        let last = crate::osv::wanted_in(replies.last()->0, queried);
        let all = crate::osv::wanted_in_pages(components, replies);
        let m = choose|m: int| 0 <= m < all.len() && all[m] == wanted;
        if m < earlier.len() {
            assert(earlier[m] == wanted);
            law_wanted_ids_were_named(components, shorter, wanted);
            let k = choose|k: int|
                0 <= k < shorter.len() && is_named_for(
                    items_at((#[trigger] shorter[k])->0, "results"@),
                    crate::osv::page(components, k),
                    wanted,
                );
            assert(replies[k] == shorter[k]);
        } else {
            assert(last[m - earlier.len()] == wanted);
            law_results_are_read_by_position(replies.last()->0, queried);
            assert(is_named_for(
                items_at(replies[replies.len() - 1]->0, "results"@),
                queried,
                wanted,
            ));
        }
    }
}

/// The distinct ids are those that are wanted, and no others.
pub proof fn law_only_wanted_records_are_looked_up(wanted: Seq<WantedView>, k: int)
    requires
        0 <= k < crate::osv::distinct_ids(wanted).len(),
    ensures
        exists|i: int|
            0 <= i < wanted.len() && (#[trigger] wanted[i]).2 == crate::osv::distinct_ids(
                wanted,
            )[k],
    decreases wanted.len(),
{
    let shorter = wanted.drop_last();
    let ids = crate::osv::distinct_ids(shorter);
    if k < ids.len() {
        law_only_wanted_records_are_looked_up(shorter, k);
        let i = choose|i: int| 0 <= i < shorter.len() && (#[trigger] shorter[i]).2 == ids[k];
        assert(wanted[i] == shorter[i]);
    } else {
        assert(wanted[wanted.len() - 1].2 == crate::osv::distinct_ids(wanted)[k]);
    }
}

// ---------------------------------------------------------------------------
// Ranges
// ---------------------------------------------------------------------------

/// An interval as npm spells it: from `lower`, where `0` is no bound, up to `upper`, which is
/// itself outside where it is a fix and inside where it is the last affected version.
pub open spec fn spelled(lower: Text, upper: Option<(bool, Text)>) -> Text {
    let from = if lower == "0"@ {
        Seq::empty()
    } else {
        ">="@ + lower
    };
    let to = match upper {
        Some((fixed, version)) => (if fixed {
            "<"@
        } else {
            "<="@
        }) + version,
        None => Seq::empty(),
    };
    if from.len() == 0 && to.len() == 0 {
        "*"@
    } else if from.len() == 0 {
        to
    } else if to.len() == 0 {
        from
    } else {
        from + " "@ + to
    }
}

/// `event` closes an interval at `upper`.
pub open spec fn closes(event: JsonView, upper: (bool, Text)) -> bool {
    &&& text_at(event, "introduced"@) is None
    &&& if upper.0 {
        text_at(event, "fixed"@) == Some(upper.1)
    } else {
        text_at(event, "fixed"@) is None && text_at(event, "last_affected"@) == Some(upper.1)
    }
}

/// The events of a range pair into intervals, each from where it was introduced to where it was
/// closed; one that is left open has no upper bound.
pub proof fn law_events_pair_into_intervals(
    range: JsonView,
    events: Seq<JsonView>,
    lowers: Seq<Text>,
    uppers: Seq<(bool, Text)>,
)
    requires
        text_at(range, "type"@) == Some("SEMVER"@),
        crate::json::member(range, "events"@) == Some(JsonView::Array(events)),
        events.len() == lowers.len() + uppers.len(),
        uppers.len() <= lowers.len() <= uppers.len() + 1,
        forall|k: int|
            0 <= k < lowers.len() ==> text_at(events[2 * k], "introduced"@) == Some(
                #[trigger] lowers[k],
            ),
        forall|k: int|
            0 <= k < uppers.len() ==> closes(events[2 * k + 1], #[trigger] uppers[k]),
    ensures
        ({
            let intervals = crate::osv::range_intervals(range);
            &&& intervals.len() == lowers.len()
            &&& forall|k: int|
                0 <= k < intervals.len() ==> #[trigger] intervals[k] == spelled(
                    lowers[k],
                    if k < uppers.len() {
                        Some(uppers[k])
                    } else {
                        None
                    },
                )
        }),
{
    lemma_events(events, lowers, uppers, uppers.len() as int);
    let n = uppers.len() as int;
    if lowers.len() > n {
        assert(lowers[n] == lowers[n]);
        assert(events.drop_last() =~= events.take(2 * n));
        assert(events.last() == events[2 * n]);
        lemma_spelled(lowers[n], None);
    } else {
        assert(events.take(2 * n) =~= events);
    }
}

proof fn lemma_events(
    events: Seq<JsonView>,
    lowers: Seq<Text>,
    uppers: Seq<(bool, Text)>,
    n: int,
)
    requires
        0 <= n <= uppers.len(),
        2 * n <= events.len(),
        n <= lowers.len(),
        forall|k: int|
            0 <= k < n ==> text_at(events[2 * k], "introduced"@) == Some(#[trigger] lowers[k]),
        forall|k: int| 0 <= k < n ==> closes(events[2 * k + 1], #[trigger] uppers[k]),
    ensures
        ({
            let read = crate::osv::events_read(events.take(2 * n));
            &&& !read.open
            &&& read.intervals.len() == n
            &&& forall|k: int|
                0 <= k < n ==> #[trigger] read.intervals[k] == spelled(
                    lowers[k],
                    Some(uppers[k]),
                )
        }),
    decreases n,
{
    if n > 0 {
        lemma_events(events, lowers, uppers, n - 1);
        let before = events.take(2 * (n - 1));
        let opened = events.take(2 * n - 1);
        let closed = events.take(2 * n);
        assert(opened.drop_last() =~= before);
        assert(closed.drop_last() =~= opened);
        assert(opened.last() == events[2 * (n - 1)]);
        assert(closed.last() == events[2 * (n - 1) + 1]);
        assert(text_at(events[2 * (n - 1)], "introduced"@) == Some(lowers[n - 1]));
        assert(closes(events[2 * (n - 1) + 1], uppers[n - 1]));
        lemma_spelled(lowers[n - 1], Some(uppers[n - 1]));
        let first = crate::osv::events_read(before);
        let second = crate::osv::events_read(opened);
        let third = crate::osv::events_read(closed);
        assert(second.intervals == first.intervals && second.lower == if lowers[n - 1] == "0"@ {
            None
        } else {
            Some(lowers[n - 1])
        });
        let interval = spelled(lowers[n - 1], Some(uppers[n - 1]));
        assert(third.intervals == first.intervals.push(interval));
    } else {
        assert(events.take(0).len() == 0);
    }
}

proof fn lemma_spelled(lower: Text, upper: Option<(bool, Text)>)
    ensures
        spelled(lower, upper) == crate::osv::interval_text(
            if lower == "0"@ {
                None
            } else {
                Some(lower)
            },
            match upper {
                Some((true, v)) => Some(("<"@, v)),
                Some((false, v)) => Some(("<="@, v)),
                None => None,
            },
        ),
{
    reveal_strlit(">=");
    reveal_strlit("<=");
    reveal_strlit("<");
    reveal_strlit(" ");
    match upper {
        Some((fixed, v)) => {
            if fixed {
                assert(("<"@ + v).len() > 0);
            } else {
                assert(("<="@ + v).len() > 0);
            }
            if lower != "0"@ {
                assert(spelled(lower, upper) =~= ">="@ + lower + " "@ + (if fixed {
                    "<"@
                } else {
                    "<="@
                }) + v);
            }
        },
        None => {},
    }
}

/// Ranges of another type than `SEMVER` say nothing.
pub proof fn law_only_semver_ranges_count(range: JsonView)
    ensures
        crate::osv::range_intervals(range).len() > 0 ==> text_at(range, "type"@) == Some(
            "SEMVER"@,
        ),
{
}

/// An affected entry is the alternatives of all its ranges, in order, or else its listed versions,
/// each pinned; without either it has no range.
pub proof fn law_entries_are_their_alternatives(entry: JsonView)
    ensures
        ({
            let intervals = items_at(entry, "ranges"@).map_values(
                |r: JsonView| crate::osv::range_intervals(r),
            ).flatten();
            let versions = items_at(entry, "versions"@).filter_map(
                |d: JsonView|
                    match d {
                        JsonView::Text(t) => Some(t),
                        _ => None,
                    },
            ).map_values(|v: Text| seq!['='] + v);
            let alternatives = if intervals.len() > 0 {
                intervals
            } else {
                versions
            };
            crate::osv::entry_range(entry) == if alternatives.len() > 0 {
                Some(crate::text::joined(alternatives, " || "@))
            } else {
                None
            }
        }),
{
    let ranges = items_at(entry, "ranges"@);
    lemma_all_intervals(ranges);
    let items = items_at(entry, "versions"@);
    crate::json::law_strings_are_the_texts(items);
    let listed = crate::json::string_list(crate::json::member(entry, "versions"@));
    let texts = items.filter_map(
        |d: JsonView|
            match d {
                JsonView::Text(t) => Some(t),
                _ => None,
            },
    );
    assert(listed =~= texts);
    assert(crate::osv::pins(listed) =~= texts.map_values(|v: Text| seq!['='] + v));
    assert(crate::osv::all_intervals(Seq::empty()).len() == 0);
}

proof fn lemma_all_intervals(ranges: Seq<JsonView>)
    ensures
        crate::osv::all_intervals(ranges) == ranges.map_values(
            |r: JsonView| crate::osv::range_intervals(r),
        ).flatten(),
    decreases ranges.len(),
{
    let lists = ranges.map_values(|r: JsonView| crate::osv::range_intervals(r));
    lists.lemma_flatten_and_flatten_alt_are_equivalent();
    if ranges.len() > 0 {
        let shorter = ranges.drop_last();
        lemma_all_intervals(shorter);
        let earlier = shorter.map_values(|r: JsonView| crate::osv::range_intervals(r));
        earlier.lemma_flatten_and_flatten_alt_are_equivalent();
        assert(lists.drop_last() =~= earlier);
    }
}

// ---------------------------------------------------------------------------
// Records
// ---------------------------------------------------------------------------

/// `entry` is about the npm package `name`.
pub open spec fn concerns_package(entry: JsonView, name: Text) -> bool {
    crate::json::member(entry, "package"@) matches Some(package) && text_at(package, "ecosystem"@)
        == Some("npm"@) && text_at(package, "name"@) == Some(name)
}

/// The texts at `key` among the items of the array at `list`.
pub open spec fn texts_at(record: JsonView, list: Text, key: Text) -> Seq<Text> {
    items_at(record, list).filter_map(|d: JsonView| text_at(d, key))
}

/// The strings of the array at `key`.
pub open spec fn strings_at(record: JsonView, key: Text) -> Seq<Text> {
    items_at(record, key).filter_map(
        |d: JsonView|
            match d {
                JsonView::Text(t) => Some(t),
                _ => None,
            },
    )
}

/// A record gives an advisory on a package exactly where it has an id and an affected entry about
/// the npm package.
pub proof fn law_records_give_advisories(record: JsonView, name: Text, version: Text)
    ensures
        crate::osv::advisory_in(record, name, version) is Some <==> text_at(record, "id"@) is Some
            && exists|i: int|
            0 <= i < items_at(record, "affected"@).len() && concerns_package(
                #[trigger] items_at(record, "affected"@)[i],
                name,
            ),
{
    lemma_first_about(items_at(record, "affected"@), name);
}

/// An advisory says what its record says: the id, the aliases, the range of the first entry about
/// the package where that covers the version and else the version itself, the severity in the
/// record's own word, the summary or else the details, the first reference or else OSV's own page,
/// the weaknesses and the first score.
pub proof fn law_advisories_say_what_the_record_says(record: JsonView, name: Text, version: Text)
    requires
        crate::osv::advisory_in(record, name, version) is Some,
    ensures
        ({
            let a = crate::osv::advisory_in(record, name, version)->0;
            let entries = items_at(record, "affected"@).filter(
                |e: JsonView| concerns_package(e, name),
            );
            &&& Some(a.id) == text_at(record, "id"@)
            &&& a.source == "osv"@
            &&& a.package == name
            &&& a.aliases == strings_at(record, "aliases"@)
            &&& entries.len() > 0
            &&& match crate::osv::entry_range(entries[0]) {
                Some(range) => if crate::dependency::covers(range, version) {
                    a.vulnerable_range == range
                } else {
                    a.vulnerable_range == seq!['='] + version
                },
                None => a.vulnerable_range == seq!['='] + version,
            }
            &&& match crate::json::member(record, "summary"@) {
                Some(JsonView::Text(summary)) => a.title == summary,
                Some(_) => a.title.len() == 0,
                None => match text_at(record, "details"@) {
                    Some(details) => a.title == details,
                    None => a.title.len() == 0,
                },
            }
            &&& a.url == Some(
                if texts_at(record, "references"@, "url"@).len() > 0 {
                    texts_at(record, "references"@, "url"@)[0]
                } else {
                    "https://osv.dev/vulnerability/"@ + a.id
                },
            )
            &&& a.cvss_vector == if texts_at(record, "severity"@, "score"@).len() > 0 {
                Some(texts_at(record, "severity"@, "score"@)[0])
            } else {
                None
            }
            &&& match crate::json::member(record, "database_specific"@) {
                Some(own) => a.cwe == strings_at(own, "cwe_ids"@) && (match text_at(
                    own,
                    "severity"@,
                ) {
                    Some(word) => a.severity == crate::osv::severity_of(word),
                    None => a.severity is None,
                }),
                None => a.cwe.len() == 0 && a.severity is None,
            }
            &&& a.matched_version.len() == 0
        }),
{
    let affected = items_at(record, "affected"@);
    lemma_first_about(affected, name);
    lemma_first_text(items_at(record, "references"@), "url"@);
    lemma_first_text(items_at(record, "severity"@), "score"@);
    crate::json::law_strings_are_the_texts(items_at(record, "aliases"@));
    if let Some(own) = crate::json::member(record, "database_specific"@) {
        crate::json::law_strings_are_the_texts(items_at(own, "cwe_ids"@));
        assert(strings_at(own, "cwe_ids"@) =~= crate::json::string_list(
            crate::json::member(own, "cwe_ids"@),
        ));
    }
    assert(strings_at(record, "aliases"@) =~= crate::json::string_list(
        crate::json::member(record, "aliases"@),
    ));
}

proof fn lemma_first_about(entries: Seq<JsonView>, name: Text)
    ensures
        ({
            let about = entries.filter(|e: JsonView| concerns_package(e, name));
            match crate::osv::first_about(entries, name) {
                Some(i) => 0 <= i < entries.len() && concerns_package(entries[i], name)
                    && about.len() > 0 && about[0] == entries[i],
                None => about.len() == 0 && forall|i: int|
                    0 <= i < entries.len() ==> !concerns_package(#[trigger] entries[i], name),
            }
        }),
    decreases entries.len(),
{
    reveal(Seq::filter);
    if entries.len() > 0 {
        let shorter = entries.drop_last();
        lemma_first_about(shorter, name);
        match crate::osv::first_about(shorter, name) {
            Some(i) => {
                assert(shorter[i] == entries[i]);
            },
            None => {
                if crate::osv::first_about(entries, name) is None {
                    assert forall|i: int| 0 <= i < entries.len() implies !concerns_package(
                        #[trigger] entries[i],
                        name,
                    ) by {
                        if i < shorter.len() {
                            assert(shorter[i] == entries[i]);
                        }
                    }
                }
            },
        }
    }
}

proof fn lemma_first_text(items: Seq<JsonView>, key: Text)
    ensures
        ({
            let texts = items.filter_map(|d: JsonView| text_at(d, key));
            crate::osv::first_text(items, key) == if texts.len() > 0 {
                Some(texts[0])
            } else {
                None
            }
        }),
    decreases items.len(),
{
    if items.len() > 0 {
        lemma_first_text(items.drop_last(), key);
    }
}

/// Severities go by their words, in any case; `medium` is moderate, and no other word is one.
pub proof fn law_severities_go_by_their_words(word: Text)
    ensures
        crate::osv::severity_of(word) == Some(Severity::Low) <==> crate::text::lowered(word)
            == "low"@,
        crate::osv::severity_of(word) == Some(Severity::Moderate) <==> crate::text::lowered(word)
            == "moderate"@ || crate::text::lowered(word) == "medium"@,
        crate::osv::severity_of(word) == Some(Severity::High) <==> crate::text::lowered(word)
            == "high"@,
        crate::osv::severity_of(word) == Some(Severity::Critical) <==> crate::text::lowered(word)
            == "critical"@,
{
    reveal_strlit("low");
    reveal_strlit("moderate");
    reveal_strlit("medium");
    reveal_strlit("high");
    reveal_strlit("critical");
    assert("low"@[0] == 'l' && "moderate"@[0] == 'm' && "medium"@[0] == 'm' && "high"@[0] == 'h'
        && "critical"@[0] == 'c');
}

/// A record is found by its id; where several have it, the first counts.
pub proof fn law_records_are_found_by_id(records: Seq<RecordView>, id: Text)
    ensures
        match crate::osv::record_for(records, id) {
            Some(record) => exists|i: int|
                0 <= i < records.len() && #[trigger] records[i] == (id, Some(record)) && (forall|
                    j: int,
                |
                    0 <= j < i ==> (#[trigger] records[j]).0 != id),
            None => (forall|i: int| 0 <= i < records.len() ==> (#[trigger] records[i]).0 != id)
                || exists|i: int|
                0 <= i < records.len() && #[trigger] records[i] == (id, None::<JsonView>)
                    && (forall|j: int| 0 <= j < i ==> (#[trigger] records[j]).0 != id),
        },
    decreases records.len(),
{
    if records.len() > 0 {
        let rest = records.skip(1);
        if records[0].0 == id {
            assert(records[0] == (id, records[0].1));
        } else {
            law_records_are_found_by_id(rest, id);
            match crate::osv::record_for(rest, id) {
                Some(record) => {
                    let i = choose|i: int|
                        0 <= i < rest.len() && #[trigger] rest[i] == (id, Some(record)) && (forall|
                            j: int,
                        |
                            0 <= j < i ==> (#[trigger] rest[j]).0 != id);
                    assert(records[i + 1] == (id, Some(record)));
                    assert forall|j: int| 0 <= j < i + 1 implies (#[trigger] records[j]).0
                        != id by {
                        if j > 0 {
                            assert(rest[j - 1] == records[j]);
                        }
                    }
                },
                None => {
                    if forall|i: int| 0 <= i < rest.len() ==> (#[trigger] rest[i]).0 != id {
                        assert forall|i: int| 0 <= i < records.len() implies (
                        #[trigger] records[i]).0 != id by {
                            if i > 0 {
                                assert(rest[i - 1] == records[i]);
                            }
                        }
                    } else {
                        let i = choose|i: int|
                            0 <= i < rest.len() && #[trigger] rest[i] == (id, None::<JsonView>)
                                && (forall|j: int| 0 <= j < i ==> (#[trigger] rest[j]).0 != id);
                        assert(records[i + 1] == (id, None::<JsonView>));
                        assert forall|j: int| 0 <= j < i + 1 implies (#[trigger] records[j]).0
                            != id by {
                            if j > 0 {
                                assert(rest[j - 1] == records[j]);
                            }
                        }
                    }
                },
            }
        }
    }
}

/// Every wanted id is read: its record gives its advisory, in order, and a record that is missing
/// is warned of by its id. Nothing else is reported or warned of.
pub proof fn law_every_wanted_record_is_read(wanted: Seq<WantedView>, records: Seq<RecordView>)
    ensures
        crate::osv::advisories_in(wanted, records).0 == wanted.filter_map(
            |w: WantedView|
                match crate::osv::record_for(records, w.2) {
                    Some(record) => crate::osv::advisory_in(record, w.0, w.1),
                    None => None,
                },
        ),
        crate::osv::advisories_in(wanted, records).1 == wanted.filter_map(
            |w: WantedView|
                match crate::osv::record_for(records, w.2) {
                    Some(_) => None,
                    None => Some(
                        "OSV record "@ + w.2
                            + " could not be fetched; audit results may be incomplete"@,
                    ),
                },
        ),
    decreases wanted.len(),
{
    if wanted.len() > 0 {
        law_every_wanted_record_is_read(wanted.drop_last(), records);
    }
}

/// A query that comes through reports what was fetched: each id that a page named was fetched by
/// its own address, the record that came gives its advisory, and one that did not come is warned
/// of.
pub proof fn law_finished_queries_report_what_was_fetched(
    components: Seq<ComponentView>,
    docs: Seq<Option<JsonView>>,
    wanted: WantedView,
)
    requires
        crate::osv::asked_for(components, docs),
        crate::osv::request(crate::osv::after_replies(components, docs)) matches
            QueryActionView::Done(Ok(_)),
        crate::osv::wanted_in_pages(
            components,
            docs.take(crate::osv::page_count(components.len() as int)),
        ).contains(wanted),
    ensures
        ({
            let done = crate::osv::request(
                crate::osv::after_replies(components, docs),
            )->Done_0->Ok_0;
            exists|m: int|
                #![trigger docs[m]]
                0 <= m < docs.len() && crate::osv::request(
                    crate::osv::after_replies(components, docs.take(m)),
                ) == QueryActionView::Fetch("https://api.osv.dev/v1/vulns/"@ + wanted.2) && (
                match docs[m] {
                    Some(record) => crate::osv::advisory_in(
                        record,
                        wanted.0,
                        wanted.1,
                    ) matches Some(a) ==> done.0.contains(a),
                    None => done.1.contains(
                        "OSV record "@ + wanted.2
                            + " could not be fetched; audit results may be incomplete"@,
                    ),
                })
        }),
{
    let pages = crate::osv::page_count(components.len() as int);
    let all = crate::osv::wanted_in_pages(components, docs.take(pages));
    let ids = crate::osv::distinct_ids(all);
    let records = crate::osv::by_id(ids, docs.skip(pages));
    crate::osv::law_each_record_is_looked_up_once(all);
    let at = choose|at: int| 0 <= at < all.len() && all[at] == wanted;
    assert(ids.contains(all[at].2));
    let k = choose|k: int| 0 <= k < ids.len() && ids[k] == wanted.2;
    lemma_fetched_at(components, docs, k);
    law_every_wanted_record_is_read(all, records);
    let m = pages + k;
    match docs[m] {
        Some(record) => {
            if let Some(a) = crate::osv::advisory_in(record, wanted.0, wanted.1) {
                lemma_filter_map_holds(
                    all,
                    |w: WantedView|
                        match crate::osv::record_for(records, w.2) {
                            Some(record) => crate::osv::advisory_in(record, w.0, w.1),
                            None => None,
                        },
                    at,
                );
            }
        },
        None => {
            lemma_filter_map_holds(
                all,
                |w: WantedView|
                    match crate::osv::record_for(records, w.2) {
                        Some(_) => None,
                        None => Some(
                            "OSV record "@ + w.2
                                + " could not be fetched; audit results may be incomplete"@,
                        ),
                    },
                at,
            );
        },
    }
}

/// What came of fetching the `k`-th of the distinct ids, and what the query ends with.
proof fn lemma_fetched_at(components: Seq<ComponentView>, docs: Seq<Option<JsonView>>, k: int)
    requires
        crate::osv::asked_for(components, docs),
        crate::osv::request(crate::osv::after_replies(components, docs)) matches
            QueryActionView::Done(Ok(_)),
        0 <= k < crate::osv::distinct_ids(
            crate::osv::wanted_in_pages(
                components,
                docs.take(crate::osv::page_count(components.len() as int)),
            ),
        ).len(),
    ensures
        ({
            let pages = crate::osv::page_count(components.len() as int);
            let all = crate::osv::wanted_in_pages(components, docs.take(pages));
            let ids = crate::osv::distinct_ids(all);
            let records = crate::osv::by_id(ids, docs.skip(pages));
            &&& 0 <= pages
            &&& pages + k < docs.len()
            &&& crate::osv::request(crate::osv::after_replies(components, docs.take(pages + k)))
                == QueryActionView::Fetch("https://api.osv.dev/v1/vulns/"@ + ids[k])
            &&& crate::osv::record_for(records, ids[k]) == docs[pages + k]
            &&& crate::osv::request(crate::osv::after_replies(components, docs))
                == QueryActionView::Done(Ok(crate::osv::advisories_in(all, records)))
        }),
{
    let pages = crate::osv::page_count(components.len() as int);
    crate::osv::law_finished_queries_are_complete(components, docs);
    crate::osv::law_requests_come_in_order(components, docs);
    assert(crate::osv::page_replies(components, docs) == pages);
    let all = crate::osv::wanted_in_pages(components, docs.take(pages));
    let ids = crate::osv::distinct_ids(all);
    crate::osv::law_each_record_is_looked_up_once(all);
    let fetched = docs.skip(pages);
    assert(fetched.len() >= ids.len());
    let m = pages + k;
    let early = docs.take(m);
    crate::osv::lemma_asked_for_earlier(components, docs, m);
    crate::osv::law_requests_come_in_order(components, early);
    assert(early.take(pages) =~= docs.take(pages));
    assert(early.skip(pages).len() == k);
    assert(fetched.len() <= ids.len()) by {
        let last = docs.take(docs.len() - 1);
        if fetched.len() > 0 {
            crate::osv::lemma_asked_for_earlier(components, docs, docs.len() - 1);
            crate::osv::law_requests_come_in_order(components, last);
            assert(last =~= docs.drop_last());
            assert(last.take(pages) =~= docs.take(pages));
        }
    }
    let records = crate::osv::by_id(ids, fetched);
    assert(records[k] == (ids[k], docs[m]));
    assert forall|i: int, j: int| 0 <= i < j < records.len() implies (#[trigger] records[i]).0 != (
    #[trigger] records[j]).0 by {
        assert(records[i].0 == ids[i] && records[j].0 == ids[j]);
    }
    lemma_record_at(records, k);
}

/// What a kept item gives is among the results.
pub proof fn lemma_filter_map_holds<A, B>(list: Seq<A>, f: spec_fn(A) -> Option<B>, i: int)
    requires
        0 <= i < list.len(),
        f(list[i]) is Some,
    ensures
        list.filter_map(f).contains(f(list[i])->0),
    decreases list.len(),
{
    let shorter = list.drop_last();
    let now = list.filter_map(f);
    if i < shorter.len() {
        lemma_filter_map_holds(shorter, f, i);
        assert(shorter[i] == list[i]);
        let earlier = shorter.filter_map(f);
        let k = choose|k: int| 0 <= k < earlier.len() && earlier[k] == f(list[i])->0;
        assert(now[k] == earlier[k]);
    } else {
        assert(now[now.len() - 1] == f(list[i])->0);
    }
}

proof fn lemma_record_at(records: Seq<RecordView>, k: int)
    requires
        0 <= k < records.len(),
        forall|i: int, j: int|
            0 <= i < j < records.len() ==> (#[trigger] records[i]).0 != (#[trigger] records[j]).0,
    ensures
        crate::osv::record_for(records, records[k].0) == records[k].1,
    decreases records.len(),
{
    if k > 0 {
        let rest = records.skip(1);
        assert(records[0].0 != records[k].0);
        assert(rest[k - 1] == records[k]);
        assert forall|i: int, j: int| 0 <= i < j < rest.len() implies (#[trigger] rest[i]).0 != (
        #[trigger] rest[j]).0 by {
            assert(rest[i] == records[i + 1] && rest[j] == records[j + 1]);
        }
        lemma_record_at(rest, k - 1);
    }
}

/// The values of lists hold the value of every item, in order.
pub proof fn law_lists_hold_every_item(
    components: Seq<crate::osv::Component>,
    advisories: Seq<crate::osv::Advisory>,
    wanted: Seq<(String, String, String)>,
    records: Seq<(String, Option<crate::json::Json>)>,
    i: int,
)
    ensures
        crate::osv::component_views(components).len() == components.len(),
        0 <= i < components.len() ==> crate::osv::component_views(components)[i] == (
            components[i].name@,
            components[i].version@,
        ),
        crate::osv::advisory_views(advisories).len() == advisories.len(),
        0 <= i < advisories.len() ==> crate::osv::advisory_views(advisories)[i] == advisories[i]@,
        crate::osv::wanted_views(wanted).len() == wanted.len(),
        0 <= i < wanted.len() ==> crate::osv::wanted_views(wanted)[i] == (
            wanted[i].0@,
            wanted[i].1@,
            wanted[i].2@,
        ),
        crate::osv::record_views(records).len() == records.len(),
        0 <= i < records.len() ==> crate::osv::record_views(records)[i].0 == records[i].0@,
        0 <= i < records.len() ==> match records[i].1 {
            Some(doc) => crate::osv::record_views(records)[i].1 == Some(doc@),
            None => crate::osv::record_views(records)[i].1 is None,
        },
{
}

/// An advisory's value says all that the advisory says.
pub proof fn law_advisories_are_valued_in_full(advisory: crate::osv::Advisory)
    ensures
        advisory@.source == advisory.source@,
        advisory@.id == advisory.id@,
        advisory@.aliases == crate::text::texts(advisory.aliases@),
        advisory@.package == advisory.package@,
        advisory@.vulnerable_range == advisory.vulnerable_range@,
        advisory@.severity == advisory.severity,
        advisory@.title == advisory.title@,
        advisory@.url == crate::text::optional_text(advisory.url),
        advisory@.cwe == crate::text::texts(advisory.cwe@),
        advisory@.cvss_vector == crate::text::optional_text(advisory.cvss_vector),
        advisory@.matched_version == advisory.matched_version@,
{
}

/// An event that neither opens nor closes an interval says nothing, wherever it stands.
pub proof fn law_other_events_say_nothing(
    before: Seq<JsonView>,
    event: JsonView,
    behind: Seq<JsonView>,
)
    requires
        text_at(event, "introduced"@) is None,
        text_at(event, "fixed"@) is None,
        text_at(event, "last_affected"@) is None,
    ensures
        crate::osv::events_read(before + seq![event] + behind) == crate::osv::events_read(
            before + behind,
        ),
    decreases behind.len(),
{
    let whole = before + seq![event] + behind;
    let fewer = before + behind;
    if behind.len() == 0 {
        assert(whole.drop_last() =~= before);
        assert(fewer =~= before);
        assert(whole.last() == event);
    } else {
        let shorter = behind.drop_last();
        law_other_events_say_nothing(before, event, shorter);
        assert(whole.drop_last() =~= before + seq![event] + shorter);
        assert(fewer.drop_last() =~= before + shorter);
        assert(whole.last() == fewer.last());
    }
}

/// Of two openings in a row the later counts.
pub proof fn law_later_openings_count(before: Seq<JsonView>, first: JsonView, second: JsonView)
    requires
        text_at(first, "introduced"@) is Some,
        text_at(second, "introduced"@) is Some,
    ensures
        crate::osv::events_read(before.push(first).push(second)) == crate::osv::events_read(
            before.push(second),
        ),
{
    let one = before.push(first);
    let both = one.push(second);
    let other = before.push(second);
    assert(both.drop_last() =~= one);
    assert(one.drop_last() =~= before);
    assert(other.drop_last() =~= before);
    assert(crate::json::text_member(first, "introduced"@) is Some);
    assert(crate::json::text_member(second, "introduced"@) is Some);
    assert(crate::osv::events_read(one).intervals == crate::osv::events_read(before).intervals);
    assert(crate::osv::events_read(both).intervals == crate::osv::events_read(one).intervals);
    assert(crate::osv::events_read(other).intervals == crate::osv::events_read(before).intervals);
}

/// A closing event with nothing open gives an interval without a lower bound, behind those that
/// came before.
pub proof fn law_closings_without_openings(
    range: JsonView,
    longer: JsonView,
    events: Seq<JsonView>,
    event: JsonView,
    upper: (bool, Text),
)
    requires
        text_at(range, "type"@) == Some("SEMVER"@),
        text_at(longer, "type"@) == Some("SEMVER"@),
        crate::json::member(range, "events"@) == Some(JsonView::Array(events)),
        crate::json::member(longer, "events"@) == Some(JsonView::Array(events.push(event))),
        closes(event, upper),
        events.len() == 0 || exists|last: (bool, Text)| #[trigger] closes(events.last(), last),
    ensures
        crate::osv::range_intervals(longer) == crate::osv::range_intervals(range).push(
            (if upper.0 {
                "<"@
            } else {
                "<="@
            }) + upper.1,
        ),
{
    assert(events.push(event).drop_last() =~= events);
    let read = crate::osv::events_read(events);
    assert(!read.open && read.lower is None);
}

/// A query that comes through reports just what its records say: the ids that the pages named, in
/// order, each read in the record that was fetched for it.
pub proof fn law_finished_queries_report_nothing_else(
    components: Seq<ComponentView>,
    docs: Seq<Option<JsonView>>,
)
    requires
        crate::osv::asked_for(components, docs),
        crate::osv::request(crate::osv::after_replies(components, docs)) matches
            QueryActionView::Done(Ok(_)),
    ensures
        ({
            let pages = crate::osv::page_count(components.len() as int);
            let wanted = crate::osv::wanted_in_pages(components, docs.take(pages));
            let ids = crate::osv::distinct_ids(wanted);
            &&& docs.len() == pages + ids.len()
            &&& crate::osv::request(crate::osv::after_replies(components, docs))
                == QueryActionView::Done(
                Ok(
                    crate::osv::advisories_in(
                        wanted,
                        Seq::new(ids.len(), |k: int| (ids[k], docs[pages + k])),
                    ),
                ),
            )
        }),
{
    let pages = crate::osv::page_count(components.len() as int);
    crate::osv::law_finished_queries_are_complete(components, docs);
    crate::osv::law_requests_come_in_order(components, docs);
    let wanted = crate::osv::wanted_in_pages(components, docs.take(pages));
    let ids = crate::osv::distinct_ids(wanted);
    lemma_no_more_records(components, docs);
    assert(crate::osv::by_id(ids, docs.skip(pages)) =~= Seq::new(
        ids.len(),
        |k: int| (ids[k], docs[pages + k]),
    ));
}

/// A query stops asking once it has every record.
proof fn lemma_no_more_records(components: Seq<ComponentView>, docs: Seq<Option<JsonView>>)
    requires
        crate::osv::asked_for(components, docs),
        crate::osv::page_count(components.len() as int) <= docs.len(),
    ensures
        ({
            let pages = crate::osv::page_count(components.len() as int);
            let ids = crate::osv::distinct_ids(
                crate::osv::wanted_in_pages(components, docs.take(pages)),
            );
            docs.len() <= pages + ids.len()
        }),
{
    let pages = crate::osv::page_count(components.len() as int);
    if docs.len() > pages {
        let shorter = docs.drop_last();
        crate::osv::law_requests_come_in_order(components, shorter);
        assert(shorter.take(pages) =~= docs.take(pages));
    }
}

/// How many pages there are: one for every thousand components, and one for what is left.
pub proof fn law_pages_are_counted(n: int)
    requires
        0 <= n,
    ensures
        1000 * (crate::osv::page_count(n) - 1) < n <= 1000 * crate::osv::page_count(n),
{
}

/// Records are looked up in the order in which the results name them first.
pub proof fn law_lookups_follow_the_results(wanted: Seq<WantedView>, more: Seq<WantedView>)
    ensures
        crate::osv::distinct_ids(wanted).is_prefix_of(crate::osv::distinct_ids(wanted + more)),
    decreases more.len(),
{
    let ids = crate::osv::distinct_ids(wanted);
    if more.len() == 0 {
        assert(wanted + more =~= wanted);
        assert(ids.subrange(0, ids.len() as int) =~= ids);
    } else {
        let shorter = more.drop_last();
        law_lookups_follow_the_results(wanted, shorter);
        assert((wanted + more).drop_last() =~= wanted + shorter);
        let before = crate::osv::distinct_ids(wanted + shorter);
        let after = crate::osv::distinct_ids(wanted + more);
        assert(after.subrange(0, ids.len() as int) =~= before.subrange(0, ids.len() as int));
    }
}

/// A reply is usable exactly where it came and its bytes hold a document, which it is.
pub proof fn law_usable_replies(bytes: Vec<u8>, message: String)
    ensures
        match crate::json::json_document(bytes@) {
            Ok(doc) => crate::osv::document_in(Ok(bytes)) == Some(doc),
            Err(_) => crate::osv::document_in(Ok(bytes)) is None,
        },
        crate::osv::document_in(Err(message)) is None,
{
}

}
