//! What holds of every answer to a query, and of every answer to a query
//! by proximity.

use crate::entities::WalkRequestView;
use crate::paging::Pagination;
use crate::query::WalkRequestQueryView;
use crate::repository::{
    affected, answer, answerable, chosen, distance_from, found, selects, Metric,
};
use crate::search::{lemma_arranged, lemma_laid_out, paged};
use crate::sorting::{lemma_sorted, ordered, sorted, Order, SortByView, SortField};
use vstd::prelude::*;

verus! {

/// What a query chose is what it selects of the requests in the store,
/// each as the query returns it.
pub proof fn lemma_chosen(requests: Seq<WalkRequestView>, q: WalkRequestQueryView, metric: Metric)
    ensures
        chosen(requests, q, metric).len() == affected(requests, q, metric),
        forall|x: WalkRequestView| #[trigger]
            chosen(requests, q, metric).contains(x) ==> exists|i: int|
                0 <= i < requests.len() && selects(q, #[trigger] requests[i], metric) && x == found(
                    q,
                    requests[i],
                    metric,
                ),
        forall|i: int|
            0 <= i < requests.len() && selects(q, #[trigger] requests[i], metric) ==> chosen(
                requests,
                q,
                metric,
            ).contains(found(q, requests[i], metric)),
    decreases requests.len(),
{
    if requests.len() > 0 {
        let earlier = requests.drop_last();
        let last = requests.last();
        let all = chosen(requests, q, metric);
        let before = chosen(earlier, q, metric);
        lemma_chosen(earlier, q, metric);
        assert forall|x: WalkRequestView| #[trigger] all.contains(x) implies exists|i: int|
            0 <= i < requests.len() && selects(q, #[trigger] requests[i], metric) && x == found(
                q,
                requests[i],
                metric,
            ) by {
            let k = choose|k: int| 0 <= k < all.len() && all[k] == x;
            if k < before.len() {
                assert(before[k] == x);
                assert(before.contains(x));
                let i = choose|i: int|
                    0 <= i < earlier.len() && selects(q, #[trigger] earlier[i], metric) && x
                        == found(q, earlier[i], metric);
                assert(earlier[i] == requests[i]);
                assert(selects(q, requests[i], metric));
            } else {
                assert(requests[requests.len() - 1] == last);
                assert(selects(q, requests[requests.len() - 1], metric));
            }
        }
        assert forall|i: int|
            0 <= i < requests.len() && selects(q, #[trigger] requests[i], metric) implies all.contains(
            found(q, requests[i], metric),
        ) by {
            if i < earlier.len() {
                assert(earlier[i] == requests[i]);
                assert(selects(q, earlier[i], metric));
                let x = found(q, requests[i], metric);
                assert(before.contains(x));
                let k = choose|k: int| 0 <= k < before.len() && before[k] == x;
                assert(all[k] == x);
            } else {
                assert(all[all.len() - 1] == found(q, last, metric));
            }
        }
    }
}

/// Every request in an answer is one that the query selects, as the query
/// returns it.
pub proof fn lemma_answer_is_selected(
    requests: Seq<WalkRequestView>,
    q: WalkRequestQueryView,
    sort_by: Option<SortByView>,
    pagination: Option<Pagination>,
    metric: Metric,
)
    requires
        answerable(q, pagination),
    ensures
        forall|x: WalkRequestView| #[trigger]
            answer(requests, q, sort_by, pagination, metric).contains(x) ==> exists|i: int|
                0 <= i < requests.len() && selects(q, #[trigger] requests[i], metric) && x == found(
                    q,
                    requests[i],
                    metric,
                ),
{
    let picked = chosen(requests, q, metric);
    let result = answer(requests, q, sort_by, pagination, metric);
    lemma_chosen(requests, q, metric);
    lemma_laid_out(picked, q.nearby is Some, sort_by, pagination);
    assert forall|x: WalkRequestView| #[trigger] result.contains(x) implies exists|i: int|
        0 <= i < requests.len() && selects(q, #[trigger] requests[i], metric) && x == found(
            q,
            requests[i],
            metric,
        ) by {
        assert(picked.contains(x));
    }
}

/// Where no page is asked for, the answer holds every request that the
/// query selects, and as many requests as the query selects.
pub proof fn lemma_answer_is_complete(
    requests: Seq<WalkRequestView>,
    q: WalkRequestQueryView,
    sort_by: Option<SortByView>,
    metric: Metric,
)
    requires
        q.valid(),
    ensures
        answer(requests, q, sort_by, None, metric).len() == affected(requests, q, metric),
        forall|i: int|
            0 <= i < requests.len() && selects(q, #[trigger] requests[i], metric) ==> answer(
                requests,
                q,
                sort_by,
                None,
                metric,
            ).contains(found(q, requests[i], metric)),
{
    let picked = chosen(requests, q, metric);
    lemma_chosen(requests, q, metric);
    if q.nearby is Some {
        lemma_sorted(picked, SortField::Distance, Order::Asc);
        lemma_arranged(sorted(picked, SortField::Distance, Order::Asc), sort_by);
    } else {
        lemma_arranged(picked, sort_by);
    }
}

/// A query by proximity returns no request from beyond its radius: every
/// request in the answer is one of the store, within the radius of the
/// query's point, and carries its distance from that point. Without an
/// explicit order the answer is in the order of distance, nearest first.
pub proof fn lemma_nearby_answer(
    requests: Seq<WalkRequestView>,
    q: WalkRequestQueryView,
    sort_by: Option<SortByView>,
    pagination: Option<Pagination>,
    metric: Metric,
)
    requires
        q.nearby is Some,
        answerable(q, pagination),
    ensures
        forall|x: WalkRequestView| #[trigger]
            answer(requests, q, sort_by, pagination, metric).contains(x) ==> exists|i: int|
                0 <= i < requests.len() && q.matches(#[trigger] requests[i]) && distance_from(
                    q,
                    requests[i],
                    metric,
                ) <= q.nearby->0[2] && x == found(q, requests[i], metric),
        forall|x: WalkRequestView| #[trigger]
            answer(requests, q, sort_by, pagination, metric).contains(x) ==> x.distance is Some
                && x.distance->0 <= q.nearby->0[2],
        sort_by is None ==> ordered(
            answer(requests, q, sort_by, pagination, metric),
            SortField::Distance,
            Order::Asc,
        ),
{
    let picked = chosen(requests, q, metric);
    let result = answer(requests, q, sort_by, pagination, metric);
    lemma_chosen(requests, q, metric);
    lemma_laid_out(picked, true, sort_by, pagination);
    assert forall|x: WalkRequestView| #[trigger] result.contains(x) implies (exists|i: int|
        0 <= i < requests.len() && q.matches(#[trigger] requests[i]) && distance_from(
            q,
            requests[i],
            metric,
        ) <= q.nearby->0[2] && x == found(q, requests[i], metric)) && x.distance is Some
        && x.distance->0 <= q.nearby->0[2] by {
        assert(picked.contains(x));
        let i = choose|i: int|
            0 <= i < requests.len() && selects(q, #[trigger] requests[i], metric) && x == found(
                q,
                requests[i],
                metric,
            );
        assert(q.matches(requests[i]));
    }
}

/// A request that is farther from the query's point than the radius is
/// never returned.
pub proof fn lemma_far_request_is_never_returned(
    requests: Seq<WalkRequestView>,
    q: WalkRequestQueryView,
    sort_by: Option<SortByView>,
    pagination: Option<Pagination>,
    metric: Metric,
    r: WalkRequestView,
)
    requires
        q.nearby is Some,
        answerable(q, pagination),
        crate::repository::distinct_ids(requests),
        requests.contains(r),
        distance_from(q, r, metric) > q.nearby->0[2],
    ensures
        forall|x: WalkRequestView| #[trigger]
            answer(requests, q, sort_by, pagination, metric).contains(x) ==> x.id != r.id,
{
    lemma_nearby_answer(requests, q, sort_by, pagination, metric);
    let result = answer(requests, q, sort_by, pagination, metric);
    let k = choose|k: int| 0 <= k < requests.len() && requests[k] == r;
    assert forall|x: WalkRequestView| #[trigger] result.contains(x) implies x.id != r.id by {
        let i = choose|i: int|
            0 <= i < requests.len() && q.matches(#[trigger] requests[i]) && distance_from(
                q,
                requests[i],
                metric,
            ) <= q.nearby->0[2] && x == found(q, requests[i], metric);
        if x.id == r.id {
            assert(requests[i].id == requests[k].id);
            if i < k {
                assert(requests[i].id != requests[k].id);
            } else if k < i {
                assert(requests[k].id != requests[i].id);
            }
        }
    }
}

/// Where the query selects a request that lies at its point, and no
/// explicit order is asked for, the first request of the first page is at
/// distance 0.
pub proof fn lemma_request_at_the_point_comes_first(
    requests: Seq<WalkRequestView>,
    q: WalkRequestQueryView,
    pagination: Option<Pagination>,
    metric: Metric,
    r: WalkRequestView,
)
    requires
        q.nearby is Some,
        q.valid(),
        pagination matches Some(p) ==> p.page == 1 && p.size >= 1,
        requests.contains(r),
        selects(q, r, metric),
        distance_from(q, r, metric) == 0,
    ensures
        answer(requests, q, None, pagination, metric).len() > 0,
        answer(requests, q, None, pagination, metric)[0].distance == Some(0u64),
{
    let picked = chosen(requests, q, metric);
    let ranked = sorted(picked, SortField::Distance, Order::Asc);
    lemma_chosen(requests, q, metric);
    lemma_sorted(picked, SortField::Distance, Order::Asc);
    let i = choose|i: int| 0 <= i < requests.len() && requests[i] == r;
    let at_point = found(q, requests[i], metric);
    assert(picked.contains(at_point));
    assert(ranked.contains(at_point));
    let k = choose|k: int| 0 <= k < ranked.len() && ranked[k] == at_point;
    assert(ranked.contains(ranked[0]));
    assert(picked.contains(ranked[0]));
    let j = choose|j: int|
        0 <= j < requests.len() && selects(q, #[trigger] requests[j], metric) && ranked[0]
            == found(q, requests[j], metric);
    if k > 0 {
        assert(!crate::sorting::precedes(
            SortField::Distance.key(ranked[k]),
            SortField::Distance.key(ranked[0]),
            Order::Asc,
        ));
    }
    assert(ranked[0].distance == Some(0u64));
    let result = answer(requests, q, None, pagination, metric);
    assert(result == paged(ranked, pagination));
    if let Some(p) = pagination {
        assert(p.offset() == 0) by (nonlinear_arith)
            requires
                p.page == 1,
                p.offset() == (p.page - 1) * p.size,
        ;
    }
}

} // verus!
