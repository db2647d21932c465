//! The store of walk requests as a capability: what it holds, and what each
//! of its operations does to that, whatever stands behind it.
//!
//! An operation that changes requests takes the guard and the change
//! together and executes them as one step, so that no caller can come
//! between the test and the write.

use crate::entities::{
    dog_ids, views, Dog, WalkRequest, WalkRequestView, WalkingLocationView,
};
use crate::error::{Error, Invalid};
use crate::paging::Pagination;
use crate::query::{WalkRequestQuery, WalkRequestQueryView};
use crate::search::{laid_out, sort_view};
use crate::sorting::{SortBy, SortByView};
use crate::update::{WalkRequestUpdate, WalkRequestUpdateView};
use vstd::prelude::*;

verus! {

/// A walk request to be created.
#[derive(Clone, Debug, PartialEq, Eq)]
pub struct WalkRequestCreate {
    pub dogs: Vec<Dog>,
    pub should_start_after: Option<i64>,
    pub should_start_before: Option<i64>,
    pub should_end_before: Option<i64>,
    pub should_end_after: Option<i64>,
    pub latitude: i64,
    pub longitude: i64,
    pub created_by: String,
}

/// What a walk request to be created holds.
pub struct WalkRequestCreateView {
    pub dogs: Seq<Seq<char>>,
    pub should_start_after: Option<i64>,
    pub should_start_before: Option<i64>,
    pub should_end_before: Option<i64>,
    pub should_end_after: Option<i64>,
    pub latitude: i64,
    pub longitude: i64,
    pub created_by: Seq<char>,
}

impl View for WalkRequestCreate {
    type V = WalkRequestCreateView;

    open spec fn view(&self) -> WalkRequestCreateView {
        WalkRequestCreateView {
            dogs: dog_ids(self.dogs@),
            should_start_after: self.should_start_after,
            should_start_before: self.should_start_before,
            should_end_before: self.should_end_before,
            should_end_after: self.should_end_after,
            latitude: self.latitude,
            longitude: self.longitude,
            created_by: self.created_by@,
        }
    }
}

impl WalkRequestCreateView {
    /// The request as it is when the store has created it under `id` at
    /// the time `now`: waiting, with no volunteers and nobody assigned.
    pub open spec fn created(self, id: Seq<char>, now: i64) -> WalkRequestView {
        WalkRequestView {
            id,
            dogs: self.dogs,
            should_start_after: self.should_start_after,
            should_start_before: self.should_start_before,
            should_end_after: self.should_end_after,
            should_end_before: self.should_end_before,
            latitude: self.latitude,
            longitude: self.longitude,
            distance: None,
            created_by: self.created_by,
            canceled_at: None,
            accepted_by: None,
            accepted_at: None,
            started_at: None,
            finished_at: None,
            acceptances: None,
            created_at: Some(now),
            updated_at: Some(now),
        }
    }
}

/// A point of a walk to be recorded.
#[derive(Clone, Copy, Debug, PartialEq, Eq)]
pub struct WalkingLocationCreate<'a> {
    pub walk_request_id: &'a str,
    pub longitude: i64,
    pub latitude: i64,
}

impl<'a> WalkingLocationCreate<'a> {
    /// The location as it is when the store has recorded it under `id` at
    /// the time `now`.
    pub open spec fn created(self, id: Seq<char>, now: i64) -> WalkingLocationView {
        WalkingLocationView {
            id,
            request_id: self.walk_request_id@,
            longitude: self.longitude,
            latitude: self.latitude,
            created_at: Some(now),
        }
    }
}

/// No two of `requests` have the same id.
pub open spec fn distinct_ids(requests: Seq<WalkRequestView>) -> bool {
    forall|i: int, j: int|
        0 <= i < j < requests.len() ==> (#[trigger] requests[i]).id != (#[trigger] requests[j]).id
}

/// `after` is `before` and, behind it, the request that was asked for,
/// created under `id` at some time.
pub open spec fn request_added(
    before: Seq<WalkRequestView>,
    after: Seq<WalkRequestView>,
    asked: WalkRequestCreateView,
    id: Seq<char>,
) -> bool {
    &&& after.len() == before.len() + 1
    &&& after.last().created_at is Some
    &&& after == before.push(asked.created(id, after.last().created_at->0))
}

/// `after` is `before` and, behind it, the location that was asked for,
/// recorded under `id` at some time.
pub open spec fn location_added(
    before: Seq<WalkingLocationView>,
    after: Seq<WalkingLocationView>,
    asked: WalkingLocationCreate,
    id: Seq<char>,
) -> bool {
    &&& after.len() == before.len() + 1
    &&& after.last().created_at is Some
    &&& after == before.push(asked.created(id, after.last().created_at->0))
}

/// A measure of distance: how far a request is from the point at a
/// longitude and a latitude.
pub type Metric = spec_fn(i64, i64, WalkRequestView) -> nat;

/// A store of walk requests and walking locations.
pub trait Repository: Sized {
    /// The walk requests in the store, in the store's own order.
    spec fn requests(&self) -> Seq<WalkRequestView>;

    /// The walking locations in the store, oldest first.
    spec fn locations(&self) -> Seq<WalkingLocationView>;

    /// How the store measures distance.
    spec fn metric(&self) -> Metric;

    /// The store never fails of itself: an operation on it fails only for
    /// what it was asked.
    spec fn dependable(&self) -> bool;

    /// The store is in order.
    spec fn inv(&self) -> bool;

    /// In a store that is in order no two requests have the same id, none
    /// lists a volunteer twice, and none carries a distance.
    proof fn lemma_inv(&self)
        requires
            self.inv(),
        ensures
            distinct_ids(self.requests()),
            forall|i: int|
                0 <= i < self.requests().len() ==> (#[trigger] self.requests()[i]).wf()
                    && self.requests()[i].distance is None,
    ;

    /// Creates a walk request and returns the id that the store gave it,
    /// which no other request has.
    fn create_walk_request(&mut self, request: WalkRequestCreate) -> (result: Result<String, Error>)
        requires
            old(self).inv(),
        ensures
            final(self).inv(),
            final(self).metric() == old(self).metric(),
            final(self).dependable() == old(self).dependable(),
            final(self).locations() == old(self).locations(),
            match result {
                Ok(id) => request_added(old(self).requests(), final(self).requests(), request@, id@),
                Err(Error::Store(_)) => !old(self).dependable()
                    && final(self).requests() == old(self).requests(),
                Err(_) => false,
            },
    ;

    /// Applies `update` to the request with the id `id`, and returns the
    /// request as it then is.
    fn update_walk_request(&mut self, id: &str, update: WalkRequestUpdate) -> (result: Result<
        WalkRequest,
        Error,
    >)
        requires
            old(self).inv(),
        ensures
            final(self).inv(),
            final(self).metric() == old(self).metric(),
            final(self).dependable() == old(self).dependable(),
            final(self).locations() == old(self).locations(),
            applied_to_first(
                old(self).requests(),
                final(self).requests(),
                WalkRequestQueryView { id: Some(id@), ..WalkRequestQueryView::unconstrained() },
                update@,
                result,
                old(self).metric(),
                old(self).dependable(),
            ),
    ;

    /// Applies `update` to the first request that `query` selects, and
    /// returns the request as it then is. Test and write are one step.
    fn update_walk_request_by_query(
        &mut self,
        query: WalkRequestQuery,
        update: WalkRequestUpdate,
    ) -> (result: Result<WalkRequest, Error>)
        requires
            old(self).inv(),
        ensures
            final(self).inv(),
            final(self).metric() == old(self).metric(),
            final(self).dependable() == old(self).dependable(),
            final(self).locations() == old(self).locations(),
            applied_to_first(
                old(self).requests(),
                final(self).requests(),
                query@,
                update@,
                result,
                old(self).metric(),
                old(self).dependable(),
            ),
    ;

    /// Applies `update` to every request that `query` selects, and returns
    /// how many it selected. Test and write are one step.
    fn update_walk_requests_by_query(
        &mut self,
        query: WalkRequestQuery,
        update: WalkRequestUpdate,
    ) -> (result: Result<u64, Error>)
        requires
            old(self).inv(),
        ensures
            final(self).inv(),
            final(self).metric() == old(self).metric(),
            final(self).dependable() == old(self).dependable(),
            final(self).locations() == old(self).locations(),
            applied_to_all(
                old(self).requests(),
                final(self).requests(),
                query@,
                update@,
                result,
                old(self).metric(),
                old(self).dependable(),
            ),
    ;

    /// The request with the id `id`.
    fn get_walk_request(&self, id: &str) -> (result: Result<WalkRequest, Error>)
        requires
            self.inv(),
        ensures
            match result {
                Ok(r) => r@.id == id@ && self.requests().contains(r@),
                Err(Error::NotFound) => forall|i: int|
                    0 <= i < self.requests().len() ==> (#[trigger] self.requests()[i]).id != id@,
                Err(Error::Store(_)) => !self.dependable(),
                Err(_) => false,
            },
    ;

    /// The requests that `query` selects, ranked, ordered and paged.
    fn query_walk_requests(
        &self,
        query: WalkRequestQuery,
        sort_by: Option<SortBy>,
        pagination: Option<Pagination>,
    ) -> (result: Result<Vec<WalkRequest>, Error>)
        requires
            self.inv(),
        ensures
            match result {
                Ok(found) => answerable(query@, pagination) && views(found@) == answer(
                    self.requests(),
                    query@,
                    sort_view(sort_by),
                    pagination,
                    self.metric(),
                ),
                Err(Error::Validation(Invalid::Nearby)) => !query@.valid(),
                Err(Error::Validation(Invalid::Pagination)) => query@.valid() && !(
                pagination matches Some(p) ==> p.valid()),
                Err(Error::Store(_)) => !self.dependable() && answerable(query@, pagination),
                Err(_) => false,
            },
    ;

    /// Records a point of a walk and returns the id that the store gave
    /// it.
    fn create_walking_location(&mut self, create: WalkingLocationCreate) -> (result: Result<
        String,
        Error,
    >)
        requires
            old(self).inv(),
        ensures
            final(self).inv(),
            final(self).metric() == old(self).metric(),
            final(self).dependable() == old(self).dependable(),
            final(self).requests() == old(self).requests(),
            match result {
                Ok(id) => location_added(
                    old(self).locations(),
                    final(self).locations(),
                    create,
                    id@,
                ),
                Err(Error::Store(_)) => !old(self).dependable()
                    && final(self).locations() == old(self).locations(),
                Err(_) => false,
            },
    ;
}

/// How far `r` is from the point of the query; 0 for a query that names
/// no point.
pub open spec fn distance_from(q: WalkRequestQueryView, r: WalkRequestView, metric: Metric) -> nat {
    match q.nearby {
        Some(n) => metric(n[0], n[1], r),
        None => 0,
    }
}

/// The query selects `r`: `r` meets its constraints, that on proximity
/// included.
pub open spec fn selects(q: WalkRequestQueryView, r: WalkRequestView, metric: Metric) -> bool {
    q.matches(r) && q.reaches(distance_from(q, r, metric))
}

/// `r` as a query returns it: with its distance from the query's point,
/// where the query names one.
pub open spec fn found(q: WalkRequestQueryView, r: WalkRequestView, metric: Metric) -> WalkRequestView {
    if q.nearby is Some {
        WalkRequestView { distance: Some(distance_from(q, r, metric) as u64), ..r }
    } else {
        r
    }
}

/// The requests that the query selects, in the store's order, each as the
/// query returns it.
pub open spec fn chosen(requests: Seq<WalkRequestView>, q: WalkRequestQueryView, metric: Metric) -> Seq<
    WalkRequestView,
>
    decreases requests.len(),
{
    if requests.len() == 0 {
        Seq::empty()
    } else if selects(q, requests.last(), metric) {
        chosen(requests.drop_last(), q, metric).push(found(q, requests.last(), metric))
    } else {
        chosen(requests.drop_last(), q, metric)
    }
}

/// The query and the page can be answered: both are well formed.
pub open spec fn answerable(q: WalkRequestQueryView, pagination: Option<Pagination>) -> bool {
    q.valid() && (pagination matches Some(p) ==> p.valid())
}

/// What a query returns of the requests in the store.
pub open spec fn answer(
    requests: Seq<WalkRequestView>,
    q: WalkRequestQueryView,
    sort_by: Option<SortByView>,
    pagination: Option<Pagination>,
    metric: Metric,
) -> Seq<WalkRequestView> {
    laid_out(chosen(requests, q, metric), q.nearby is Some, sort_by, pagination)
}

/// How many of `requests` the query selects.
pub open spec fn affected(requests: Seq<WalkRequestView>, q: WalkRequestQueryView, metric: Metric) -> nat
    decreases requests.len(),
{
    if requests.len() == 0 {
        0
    } else {
        let one: nat = if selects(q, requests.last(), metric) {
            1
        } else {
            0
        };
        affected(requests.drop_last(), q, metric) + one
    }
}

/// `after` is `before` with the update applied to every request that the
/// query selects, and to no other.
pub open spec fn updated_where_selected(
    before: Seq<WalkRequestView>,
    after: Seq<WalkRequestView>,
    q: WalkRequestQueryView,
    u: WalkRequestUpdateView,
    metric: Metric,
) -> bool {
    &&& after.len() == before.len()
    &&& forall|i: int|
        0 <= i < before.len() ==> #[trigger] after[i] == if selects(q, before[i], metric) {
            u.apply(before[i])
        } else {
            before[i]
        }
}

/// The request at `i` is the first that the query selects.
pub open spec fn first_selected(
    requests: Seq<WalkRequestView>,
    q: WalkRequestQueryView,
    metric: Metric,
    i: int,
) -> bool {
    &&& 0 <= i < requests.len()
    &&& selects(q, requests[i], metric)
    &&& forall|j: int| 0 <= j < i ==> !selects(q, #[trigger] requests[j], metric)
}

/// The query selects none of `requests`.
pub open spec fn none_selected(
    requests: Seq<WalkRequestView>,
    q: WalkRequestQueryView,
    metric: Metric,
) -> bool {
    forall|j: int| 0 <= j < requests.len() ==> !selects(q, #[trigger] requests[j], metric)
}

/// What a conditional update of one request does, and what it returns:
/// the first request that the query selects is changed and returned as
/// changed; where the query selects none, nothing is changed. A malformed
/// query is refused before the store is touched. A store that is not
/// dependable may fail instead, and then changes nothing.
pub open spec fn applied_to_first(
    before: Seq<WalkRequestView>,
    after: Seq<WalkRequestView>,
    q: WalkRequestQueryView,
    u: WalkRequestUpdateView,
    result: Result<WalkRequest, Error>,
    metric: Metric,
    dependable: bool,
) -> bool {
    match result {
        Ok(r) => q.valid() && exists|i: int|
            #![trigger before[i]]
            first_selected(before, q, metric, i) && after == before.update(i, u.apply(before[i]))
                && r@ == u.apply(before[i]),
        Err(Error::NotMatched) => q.valid() && none_selected(before, q, metric) && after == before,
        Err(Error::Validation(Invalid::Nearby)) => !q.valid() && after == before,
        Err(Error::Store(_)) => !dependable && q.valid() && after == before,
        Err(_) => false,
    }
}

/// What a conditional update of many requests does, and what it returns:
/// every request that the query selects is changed, and their number is
/// returned. A malformed query is refused before the store is touched. A
/// store that is not dependable may fail instead, and then changes
/// nothing.
pub open spec fn applied_to_all(
    before: Seq<WalkRequestView>,
    after: Seq<WalkRequestView>,
    q: WalkRequestQueryView,
    u: WalkRequestUpdateView,
    result: Result<u64, Error>,
    metric: Metric,
    dependable: bool,
) -> bool {
    match result {
        Ok(n) => q.valid() && n == affected(before, q, metric) && updated_where_selected(
            before,
            after,
            q,
            u,
            metric,
        ),
        Err(Error::Validation(Invalid::Nearby)) => !q.valid() && after == before,
        Err(Error::Store(_)) => !dependable && q.valid() && after == before,
        Err(_) => false,
    }
}

} // verus!
