//! The lifecycle manager: one operation for each transition of a walk
//! request, executed against a store as a guarded update.
//!
//! The service never reads a request to decide whether to write it. It
//! hands the store the guard and the change together, and reads what came
//! back.

use crate::clock::now_millis;
use crate::entities::{views, WalkRequest, WalkRequestView};
use crate::error::{Error, Invalid};
use crate::lifecycle::Transition;
use crate::paging::Pagination;
use crate::query::{WalkRequestQuery, WalkRequestQueryView};
use crate::repository::{
    affected, answer, distinct_ids, location_added, request_added, selects, Metric, Repository,
    WalkRequestCreate, WalkingLocationCreate,
};
use crate::sorting::{Order, SortBy, SortByView};
use vstd::prelude::*;

verus! {

/// The lifecycle manager over a store `R`.
#[derive(Debug, Clone)]
pub struct Service<R: Repository> {
    repository: R,
}

/// What a transition that reports a count did: on success, exactly one
/// request met the guard and was changed; on a guard failure, no request
/// met the guard and nothing changed. A store that is not dependable may
/// fail instead, and then nothing changed.
pub open spec fn settled(
    before: Seq<WalkRequestView>,
    after: Seq<WalkRequestView>,
    transition: Transition,
    request_id: Seq<char>,
    walker: Seq<char>,
    now: i64,
    result: Result<(), Error>,
    dependable: bool,
) -> bool {
    match result {
        Ok(()) => changed_one(before, after, transition, request_id, walker, now) is Some,
        Err(Error::GuardFailure(t)) => t == transition && after == before && refused_by_all(
            before,
            transition,
            request_id,
            walker,
        ),
        Err(Error::Store(_)) => !dependable && after == before,
        Err(_) => false,
    }
}

/// What a transition that hands back the request did: on success, the
/// one request that met the guard was changed and is handed back as
/// changed; where none met it, nothing changed. A store that is not
/// dependable may fail instead, and then nothing changed.
pub open spec fn handed_back(
    before: Seq<WalkRequestView>,
    after: Seq<WalkRequestView>,
    transition: Transition,
    request_id: Seq<char>,
    walker: Seq<char>,
    now: i64,
    result: Result<WalkRequest, Error>,
    dependable: bool,
) -> bool {
    match result {
        Ok(r) => changed_one(before, after, transition, request_id, walker, now) == Some(r@),
        Err(Error::NotMatched) => after == before && refused_by_all(
            before,
            transition,
            request_id,
            walker,
        ),
        Err(Error::Store(_)) => !dependable && after == before,
        Err(_) => false,
    }
}

/// No request of `requests` meets the guard of the transition.
pub open spec fn refused_by_all(
    requests: Seq<WalkRequestView>,
    transition: Transition,
    request_id: Seq<char>,
    walker: Seq<char>,
) -> bool {
    forall|i: int|
        0 <= i < requests.len() ==> !transition.applies(request_id, walker, #[trigger] requests[i])
}

/// The request at `i` is the only one of `before` that meets the guard of
/// the transition, and `after` is `before` with the change made to it and
/// to nothing else.
pub open spec fn changed_at(
    before: Seq<WalkRequestView>,
    after: Seq<WalkRequestView>,
    transition: Transition,
    request_id: Seq<char>,
    walker: Seq<char>,
    now: i64,
    i: int,
) -> bool {
    &&& 0 <= i < before.len()
    &&& transition.applies(request_id, walker, before[i])
    &&& forall|j: int|
        0 <= j < before.len() && j != i ==> !transition.applies(
            request_id,
            walker,
            #[trigger] before[j],
        )
    &&& after == before.update(i, transition.change(walker, now).apply(before[i]))
}

/// The request that the transition changed, as changed, where it changed
/// exactly one: the only one that met the guard.
pub open spec fn changed_one(
    before: Seq<WalkRequestView>,
    after: Seq<WalkRequestView>,
    transition: Transition,
    request_id: Seq<char>,
    walker: Seq<char>,
    now: i64,
) -> Option<WalkRequestView> {
    if exists|i: int| changed_at(before, after, transition, request_id, walker, now, i) {
        let i = choose|i: int| changed_at(before, after, transition, request_id, walker, now, i);
        Some(after[i])
    } else {
        None
    }
}

/// A guard of a transition asks nothing of where a request is: whatever
/// the measure of distance, a store selects by it the requests to which
/// the transition applies.
pub proof fn lemma_guard_selects(
    transition: Transition,
    request_id: Seq<char>,
    walker: Seq<char>,
    r: WalkRequestView,
    metric: Metric,
)
    ensures
        transition.guard(request_id, walker).valid(),
        transition.guard(request_id, walker).id == Some(request_id),
        selects(transition.guard(request_id, walker), r, metric) == transition.applies(
            request_id,
            walker,
            r,
        ),
        transition.applies(request_id, walker, r) ==> r.id == request_id,
{
}

/// Among requests with distinct ids a query that names an id selects at
/// most one, and the count tells whether it selected any.
pub proof fn lemma_id_selects_at_most_one(
    requests: Seq<WalkRequestView>,
    q: WalkRequestQueryView,
    metric: Metric,
)
    requires
        distinct_ids(requests),
        q.id is Some,
    ensures
        affected(requests, q, metric) <= 1,
        affected(requests, q, metric) == 0 <==> forall|i: int|
            0 <= i < requests.len() ==> !selects(q, #[trigger] requests[i], metric),
        forall|i: int, j: int|
            0 <= i < requests.len() && 0 <= j < requests.len() && selects(
                q,
                #[trigger] requests[i],
                metric,
            ) && selects(q, #[trigger] requests[j], metric) ==> i == j,
    decreases requests.len(),
{
    if requests.len() > 0 {
        let earlier = requests.drop_last();
        assert(distinct_ids(earlier)) by {
            assert forall|i: int, j: int| 0 <= i < j < earlier.len() implies (
            #[trigger] earlier[i]).id != (#[trigger] earlier[j]).id by {
                assert(earlier[i] == requests[i] && earlier[j] == requests[j]);
            }
        }
        lemma_id_selects_at_most_one(earlier, q, metric);
        let last = requests.len() - 1;
        assert forall|i: int, j: int|
            0 <= i < requests.len() && 0 <= j < requests.len() && selects(
                q,
                #[trigger] requests[i],
                metric,
            ) && selects(q, #[trigger] requests[j], metric) implies i == j by {
            if i != j {
                assert(requests[i].id == q.id->0 && requests[j].id == q.id->0);
                if i < j {
                    assert(requests[i].id != requests[j].id);
                } else {
                    assert(requests[j].id != requests[i].id);
                }
            }
        }
        if affected(earlier, q, metric) == 1 {
            let i = choose|i: int| 0 <= i < earlier.len() && selects(q, #[trigger] earlier[i], metric);
            assert(earlier[i] == requests[i]);
            assert(selects(q, requests[i], metric));
            if selects(q, requests.last(), metric) {
                assert(requests[last] == requests.last());
                assert(i == last);
            }
        } else {
            assert forall|i: int| 0 <= i < last implies !selects(q, #[trigger] requests[i], metric) by {
                assert(earlier[i] == requests[i]);
            }
            if selects(q, requests.last(), metric) {
                assert(selects(q, requests[last], metric));
            }
        }
    }
}

/// An operation on requests left the rest of the store as it was: how it
/// measures distance, whether it is dependable, and the locations in it.
pub open spec fn kept<R: Repository>(before: R, after: R) -> bool {
    &&& after.metric() == before.metric()
    &&& after.dependable() == before.dependable()
    &&& after.locations() == before.locations()
}

/// The query for requests near a point that nobody is assigned to.
pub open spec fn nearby_query(longitude: i64, latitude: i64, radius: i64) -> WalkRequestQueryView {
    WalkRequestQueryView {
        accepted_by_is_null: Some(true),
        nearby: Some(seq![longitude, latitude, radius]),
        ..WalkRequestQueryView::unconstrained()
    }
}

/// The query for the requests of one owner.
pub open spec fn owner_query(owner: Seq<char>) -> WalkRequestQueryView {
    WalkRequestQueryView { created_by: Some(owner), ..WalkRequestQueryView::unconstrained() }
}

/// The order that puts the request created last first.
pub open spec fn newest_first() -> SortByView {
    SortByView { field: "created_at"@, order: Order::Desc }
}

/// What a query through the service returns: the store's answer, or a
/// refusal of a page that does not exist.
pub open spec fn answered<R: Repository>(
    store: R,
    q: WalkRequestQueryView,
    sort_by: Option<SortByView>,
    pagination: Pagination,
    result: Result<Vec<WalkRequest>, Error>,
) -> bool {
    match result {
        Ok(found) => pagination.valid() && views(found@) == answer(
            store.requests(),
            q,
            sort_by,
            Some(pagination),
            store.metric(),
        ),
        Err(Error::Validation(Invalid::Pagination)) => !pagination.valid(),
        Err(Error::Store(_)) => !store.dependable() && pagination.valid(),
        Err(_) => false,
    }
}

impl<R: Repository> Service<R> {
    /// The store behind the service.
    pub closed spec fn store(&self) -> R {
        self.repository
    }

    /// The store behind the service is in order.
    pub open spec fn inv(&self) -> bool {
        self.store().inv()
    }

    pub fn new(repository: R) -> (service: Self)
        ensures
            service.store() == repository,
    {
        Self { repository }
    }

    /// The store behind the service.
    pub fn repository(&self) -> (repository: &R)
        ensures
            *repository == self.store(),
    {
        &self.repository
    }

    /// Creates a walk request and returns its id.
    pub fn create_walk_request(&mut self, request: WalkRequestCreate) -> (result: Result<
        String,
        Error,
    >)
        requires
            old(self).inv(),
        ensures
            final(self).inv(),
            kept(old(self).store(), final(self).store()),
            match result {
                Ok(id) => request_added(
                    old(self).store().requests(),
                    final(self).store().requests(),
                    request@,
                    id@,
                ),
                Err(Error::Store(_)) => !old(self).store().dependable()
                    && final(self).store().requests() == old(self).store().requests(),
                Err(_) => false,
            },
    {
        self.repository.create_walk_request(request)
    }

    /// The engine's conditional update of many: executes the transition
    /// for `walker` on the request with the id `request_id` at the time
    /// `now`, and reports whether exactly one request was changed.
    pub fn apply_many(
        &mut self,
        transition: Transition,
        request_id: &str,
        walker: &str,
        now: i64,
    ) -> (result: Result<(), Error>)
        requires
            old(self).inv(),
        ensures
            final(self).inv(),
            kept(old(self).store(), final(self).store()),
            settled(
                old(self).store().requests(),
                final(self).store().requests(),
                transition,
                request_id@,
                walker@,
                now,
                result,
                old(self).store().dependable(),
            ),
    {
        let plan = transition.plan(request_id, walker, now);
        let ghost before = self.repository.requests();
        let ghost metric = self.repository.metric();
        let ghost guard = transition.guard(request_id@, walker@);
        let ghost change = transition.change(walker@, now);
        proof {
            self.repository.lemma_inv();
            lemma_id_selects_at_most_one(before, guard, metric);
            assert forall|i: int| 0 <= i < before.len() implies selects(
                guard,
                #[trigger] before[i],
                metric,
            ) == transition.applies(request_id@, walker@, before[i]) by {
                lemma_guard_selects(transition, request_id@, walker@, before[i], metric);
            }
        }
        let outcome = self.repository.update_walk_requests_by_query(plan.query, plan.update);
        let ghost after = self.repository.requests();
        match outcome {
            Ok(n) => {
                let result = transition.settle(n);
                proof {
                    if n == 1 {
                        let i = choose|i: int|
                            0 <= i < before.len() && selects(guard, #[trigger] before[i], metric);
                        assert(after =~= before.update(i, change.apply(before[i]))) by {
                            assert forall|j: int| 0 <= j < before.len() implies after[j]
                                == before.update(i, change.apply(before[i]))[j] by {
                                if j != i {
                                    assert(!selects(guard, before[j], metric));
                                }
                            }
                        }
                        assert(changed_at(
                            before,
                            after,
                            transition,
                            request_id@,
                            walker@,
                            now,
                            i,
                        ));
                    } else {
                        assert(n == 0);
                        assert(after =~= before) by {
                            assert forall|j: int| 0 <= j < before.len() implies after[j]
                                == before[j] by {
                                assert(!selects(guard, before[j], metric));
                            }
                        }
                    }
                }
                result
            },
            Err(Error::Store(reason)) => Err(Error::Store(reason)),
            Err(e) => {
                assert(guard.valid());
                Err(e)
            },
        }
    }

    /// The engine's conditional update of one: executes the transition
    /// for `walker` on the request with the id `request_id` at the time
    /// `now`, and hands back the request as changed.
    pub fn apply_one(
        &mut self,
        transition: Transition,
        request_id: &str,
        walker: &str,
        now: i64,
    ) -> (result: Result<WalkRequest, Error>)
        requires
            old(self).inv(),
        ensures
            final(self).inv(),
            kept(old(self).store(), final(self).store()),
            handed_back(
                old(self).store().requests(),
                final(self).store().requests(),
                transition,
                request_id@,
                walker@,
                now,
                result,
                old(self).store().dependable(),
            ),
    {
        let plan = transition.plan(request_id, walker, now);
        let ghost before = self.repository.requests();
        let ghost metric = self.repository.metric();
        let ghost guard = transition.guard(request_id@, walker@);
        let ghost change = transition.change(walker@, now);
        proof {
            self.repository.lemma_inv();
            lemma_id_selects_at_most_one(before, guard, metric);
            assert forall|i: int| 0 <= i < before.len() implies selects(
                guard,
                #[trigger] before[i],
                metric,
            ) == transition.applies(request_id@, walker@, before[i]) by {
                lemma_guard_selects(transition, request_id@, walker@, before[i], metric);
            }
            assert(guard.valid());
        }
        let result = self.repository.update_walk_request_by_query(plan.query, plan.update);
        proof {
            let after = self.repository.requests();
            if result is Ok {
                let r = result->Ok_0;
                let i = choose|i: int|
                    #![trigger before[i]]
                    crate::repository::first_selected(before, guard, metric, i) && after
                        == before.update(i, change.apply(before[i])) && r@ == change.apply(
                        before[i],
                    );
                assert(changed_at(before, after, transition, request_id@, walker@, now, i));
                let k = choose|k: int|
                    changed_at(before, after, transition, request_id@, walker@, now, k);
                assert(k == i);
            }
        }
        result
    }

    /// The requests near a point that nobody is assigned to, nearest
    /// first, one page of them.
    pub fn nearby_walk_requests(
        &self,
        latitude: i64,
        longitude: i64,
        radius: i64,
        pagination: Pagination,
    ) -> (result: Result<Vec<WalkRequest>, Error>)
        requires
            self.inv(),
        ensures
            answered(
                self.store(),
                nearby_query(longitude, latitude, radius),
                None,
                pagination,
                result,
            ),
    {
        let mut query = WalkRequestQuery::default();
        let mut nearby: Vec<i64> = Vec::new();
        nearby.push(longitude);
        nearby.push(latitude);
        nearby.push(radius);
        assert(nearby@ =~= seq![longitude, latitude, radius]);
        query.accepted_by_is_null = Some(true);
        query.nearby = Some(nearby);
        self.repository.query_walk_requests(query, None, Some(pagination))
    }

    /// The requests that `user_id` created, newest first, one page of
    /// them.
    pub fn my_walk_requests(&self, user_id: &str, pagination: Pagination) -> (result: Result<
        Vec<WalkRequest>,
        Error,
    >)
        requires
            self.inv(),
        ensures
            answered(self.store(), owner_query(user_id@), Some(newest_first()), pagination, result),
    {
        let mut query = WalkRequestQuery::default();
        query.created_by = Some(user_id.to_owned());
        let sort_by = SortBy { field: WalkRequest::created_at(), order: Order::Desc };
        self.repository.query_walk_requests(query, Some(sort_by), Some(pagination))
    }

    /// The walker `user_id` takes the request, if nobody is assigned to
    /// it.
    pub fn accept(&mut self, request_id: &str, user_id: &str) -> (result: Result<WalkRequest, Error>)
        requires
            old(self).inv(),
        ensures
            final(self).inv(),
            kept(old(self).store(), final(self).store()),
            exists|now: i64|
                #[trigger] handed_back(
                    old(self).store().requests(),
                    final(self).store().requests(),
                    Transition::Accept,
                    request_id@,
                    user_id@,
                    now,
                    result,
                    old(self).store().dependable(),
                ),
    {
        let now = now_millis();
        self.apply_one(Transition::Accept, request_id, user_id, now)
    }

    /// The walker `user_id` volunteers for the request. Volunteering again
    /// changes nothing.
    pub fn volunteer(&mut self, request_id: &str, user_id: &str) -> (result: Result<(), Error>)
        requires
            old(self).inv(),
        ensures
            final(self).inv(),
            kept(old(self).store(), final(self).store()),
            exists|now: i64|
                #[trigger] settled(
                    old(self).store().requests(),
                    final(self).store().requests(),
                    Transition::Volunteer,
                    request_id@,
                    user_id@,
                    now,
                    result,
                    old(self).store().dependable(),
                ),
    {
        let now = now_millis();
        self.apply_many(Transition::Volunteer, request_id, user_id, now)
    }

    /// The walker `user_id` withdraws from the volunteers of the request,
    /// unless assigned to it.
    pub fn remove_acceptance(&mut self, request_id: &str, user_id: &str) -> (result: Result<
        (),
        Error,
    >)
        requires
            old(self).inv(),
        ensures
            final(self).inv(),
            kept(old(self).store(), final(self).store()),
            exists|now: i64|
                #[trigger] settled(
                    old(self).store().requests(),
                    final(self).store().requests(),
                    Transition::RemoveAcceptance,
                    request_id@,
                    user_id@,
                    now,
                    result,
                    old(self).store().dependable(),
                ),
    {
        let now = now_millis();
        self.apply_many(Transition::RemoveAcceptance, request_id, user_id, now)
    }

    /// The owner assigns the volunteer `user_id` to the request, if
    /// nobody is assigned to it.
    pub fn assign_accepter(&mut self, request_id: &str, user_id: &str) -> (result: Result<(), Error>)
        requires
            old(self).inv(),
        ensures
            final(self).inv(),
            kept(old(self).store(), final(self).store()),
            exists|now: i64|
                #[trigger] settled(
                    old(self).store().requests(),
                    final(self).store().requests(),
                    Transition::AssignAccepter,
                    request_id@,
                    user_id@,
                    now,
                    result,
                    old(self).store().dependable(),
                ),
    {
        let now = now_millis();
        self.apply_many(Transition::AssignAccepter, request_id, user_id, now)
    }

    /// The owner dismisses the walker `user_id` from the request, if that
    /// walker is assigned to it.
    pub fn dismiss_accepter(&mut self, request_id: &str, user_id: &str) -> (result: Result<
        (),
        Error,
    >)
        requires
            old(self).inv(),
        ensures
            final(self).inv(),
            kept(old(self).store(), final(self).store()),
            exists|now: i64|
                #[trigger] settled(
                    old(self).store().requests(),
                    final(self).store().requests(),
                    Transition::DismissAccepter,
                    request_id@,
                    user_id@,
                    now,
                    result,
                    old(self).store().dependable(),
                ),
    {
        let now = now_millis();
        self.apply_many(Transition::DismissAccepter, request_id, user_id, now)
    }

    /// The owner cancels the request, if nobody is assigned to it.
    pub fn cancel_unaccepted_request(&mut self, request_id: &str) -> (result: Result<(), Error>)
        requires
            old(self).inv(),
        ensures
            final(self).inv(),
            kept(old(self).store(), final(self).store()),
            exists|now: i64|
                #[trigger] settled(
                    old(self).store().requests(),
                    final(self).store().requests(),
                    Transition::CancelUnaccepted,
                    request_id@,
                    ""@,
                    now,
                    result,
                    old(self).store().dependable(),
                ),
    {
        let now = now_millis();
        self.apply_many(Transition::CancelUnaccepted, request_id, "", now)
    }

    /// The owner cancels the request, if the walker `user_id` is assigned
    /// to it.
    pub fn cancel_accepted_request(&mut self, request_id: &str, user_id: &str) -> (result: Result<
        (),
        Error,
    >)
        requires
            old(self).inv(),
        ensures
            final(self).inv(),
            kept(old(self).store(), final(self).store()),
            exists|now: i64|
                #[trigger] settled(
                    old(self).store().requests(),
                    final(self).store().requests(),
                    Transition::CancelAccepted,
                    request_id@,
                    user_id@,
                    now,
                    result,
                    old(self).store().dependable(),
                ),
    {
        let now = now_millis();
        self.apply_many(Transition::CancelAccepted, request_id, user_id, now)
    }

    /// The walker `user_id` resigns from the request, if assigned to it,
    /// and leaves its volunteers.
    pub fn resign_acceptance(&mut self, request_id: &str, user_id: &str) -> (result: Result<
        (),
        Error,
    >)
        requires
            old(self).inv(),
        ensures
            final(self).inv(),
            kept(old(self).store(), final(self).store()),
            exists|now: i64|
                #[trigger] settled(
                    old(self).store().requests(),
                    final(self).store().requests(),
                    Transition::ResignAcceptance,
                    request_id@,
                    user_id@,
                    now,
                    result,
                    old(self).store().dependable(),
                ),
    {
        let now = now_millis();
        self.apply_many(Transition::ResignAcceptance, request_id, user_id, now)
    }

    /// The walker `user_id` starts the walk, if assigned to the request.
    pub fn start_walk(&mut self, request_id: &str, user_id: &str) -> (result: Result<
        WalkRequest,
        Error,
    >)
        requires
            old(self).inv(),
        ensures
            final(self).inv(),
            kept(old(self).store(), final(self).store()),
            exists|now: i64|
                #[trigger] handed_back(
                    old(self).store().requests(),
                    final(self).store().requests(),
                    Transition::StartWalk,
                    request_id@,
                    user_id@,
                    now,
                    result,
                    old(self).store().dependable(),
                ),
    {
        let now = now_millis();
        self.apply_one(Transition::StartWalk, request_id, user_id, now)
    }

    /// Records a point of the walk for the request, and returns the id of
    /// the record.
    pub fn record_walking_location(
        &mut self,
        walk_request_id: &str,
        longitude: i64,
        latitude: i64,
    ) -> (result: Result<String, Error>)
        requires
            old(self).inv(),
        ensures
            final(self).inv(),
            final(self).store().metric() == old(self).store().metric(),
            final(self).store().dependable() == old(self).store().dependable(),
            final(self).store().requests() == old(self).store().requests(),
            match result {
                Ok(id) => location_added(
                    old(self).store().locations(),
                    final(self).store().locations(),
                    WalkingLocationCreate { walk_request_id, longitude, latitude },
                    id@,
                ),
                Err(Error::Store(_)) => !old(self).store().dependable()
                    && final(self).store().locations() == old(self).store().locations(),
                Err(_) => false,
            },
    {
        self.repository.create_walking_location(
            WalkingLocationCreate { walk_request_id, longitude, latitude },
        )
    }

    /// The walker `user_id` finishes the walk, if assigned to the
    /// request.
    pub fn finish_walk(&mut self, request_id: &str, user_id: &str) -> (result: Result<
        WalkRequest,
        Error,
    >)
        requires
            old(self).inv(),
        ensures
            final(self).inv(),
            kept(old(self).store(), final(self).store()),
            exists|now: i64|
                #[trigger] handed_back(
                    old(self).store().requests(),
                    final(self).store().requests(),
                    Transition::FinishWalk,
                    request_id@,
                    user_id@,
                    now,
                    result,
                    old(self).store().dependable(),
                ),
    {
        let now = now_millis();
        self.apply_one(Transition::FinishWalk, request_id, user_id, now)
    }
}

} // verus!
