//! A store of walk requests in memory.
//!
//! It keeps the requests in the order in which they were created and never
//! drops one, gives them the numerals 0, 1, 2, ... as ids, and measures
//! distance along the grid of coordinates. Each of its operations runs to
//! its end before another begins, so the test and the write of a
//! conditional update are one step.
//!
//! The store can be taken down: while it is, every operation fails with
//! the reason given and changes nothing.

use crate::clock::now_millis;
use crate::entities::{
    location_views, views, WalkRequest, WalkRequestView, WalkingLocation, WalkingLocationView,
};
use crate::error::{Error, Invalid};
use crate::ids::{decimal, lemma_decimal_is_injective, numeral};
use crate::paging::Pagination;
use crate::query::WalkRequestQuery;
use crate::repository::{
    affected, chosen, found, selects, Metric, Repository, WalkRequestCreate,
    WalkingLocationCreate,
};
use crate::search::lay_out;
use crate::sorting::SortBy;
use crate::text::opt_text;
use crate::update::{lemma_apply_keeps_wf, WalkRequestUpdate};
use vstd::prelude::*;

verus! {

/// How far apart two coordinates are.
pub open spec fn gap(a: i64, b: i64) -> nat {
    if a >= b {
        (a - b) as nat
    } else {
        (b - a) as nat
    }
}

/// The distance of `r` from a point along the grid: how far apart they
/// are in longitude, and in latitude on top of that.
pub open spec fn grid_distance(longitude: i64, latitude: i64, r: WalkRequestView) -> nat {
    gap(r.longitude, longitude) + gap(r.latitude, latitude)
}

/// Distance along the grid, as a measure.
pub open spec fn grid_metric() -> Metric {
    |longitude: i64, latitude: i64, r: WalkRequestView| grid_distance(longitude, latitude, r)
}

/// A store of walk requests in memory.
#[derive(Clone, Debug)]
pub struct MemoryRepository {
    requests: Vec<WalkRequest>,
    locations: Vec<WalkingLocation>,
    fault: Option<String>,
}

fn gap_of(a: i64, b: i64) -> (d: u128)
    ensures
        d == gap(a, b),
{
    if a >= b {
        (a as i128 - b as i128) as u128
    } else {
        (b as i128 - a as i128) as u128
    }
}

/// The distance of `r` from a point along the grid.
fn measure(longitude: i64, latitude: i64, r: &WalkRequest) -> (d: u128)
    ensures
        d == grid_distance(longitude, latitude, r@),
{
    gap_of(r.longitude, longitude) + gap_of(r.latitude, latitude)
}

/// Whether the query selects `r`.
fn hits(query: &WalkRequestQuery, r: &WalkRequest) -> (hit: bool)
    requires
        query@.valid(),
    ensures
        hit == selects(query@, r@, grid_metric()),
{
    if !query.matches(r) {
        return false;
    }
    match &query.nearby {
        Some(n) => {
            let radius = n[2];
            radius >= 0 && measure(n[0], n[1], r) <= radius as u128
        },
        None => true,
    }
}

/// `r` as the query returns it.
fn returned(query: &WalkRequestQuery, r: &WalkRequest) -> (copy: WalkRequest)
    requires
        query@.valid(),
        selects(query@, r@, grid_metric()),
    ensures
        copy@ == found(query@, r@, grid_metric()),
{
    let mut copy = r.duplicate();
    if let Some(n) = &query.nearby {
        copy.distance = Some(measure(n[0], n[1], r) as u64);
    }
    copy
}

impl MemoryRepository {
    /// The requests are numbered in their order, list no volunteer twice
    /// and carry no distance; the locations are numbered in their order.
    spec fn numbered(&self) -> bool {
        &&& forall|i: int|
            0 <= i < self.requests@.len() ==> (#[trigger] self.requests@[i]).id@ == decimal(
                i as nat,
            )
        &&& forall|i: int|
            0 <= i < self.requests@.len() ==> (#[trigger] self.requests@[i])@.wf()
                && self.requests@[i].distance is None
        &&& forall|i: int|
            0 <= i < self.locations@.len() ==> (#[trigger] self.locations@[i]).id@ == decimal(
                i as nat,
            )
    }

    /// Why the store is down, if it is.
    pub closed spec fn fault(&self) -> Option<Seq<char>> {
        opt_text(self.fault)
    }

    /// An empty store, up.
    pub fn new() -> (store: MemoryRepository)
        ensures
            store.inv(),
            store.dependable(),
            store.requests() == Seq::<WalkRequestView>::empty(),
            store.locations() == Seq::<WalkingLocationView>::empty(),
    {
        let store = MemoryRepository {
            requests: Vec::new(),
            locations: Vec::new(),
            fault: None,
        };
        assert(store.requests() =~= Seq::<WalkRequestView>::empty());
        assert(store.locations() =~= Seq::<WalkingLocationView>::empty());
        store
    }

    /// Takes the store down for the reason given, or brings it up again.
    /// What it holds stays as it is.
    pub fn set_fault(&mut self, fault: Option<String>)
        requires
            old(self).inv(),
        ensures
            final(self).inv(),
            final(self).fault() == opt_text(fault),
            final(self).dependable() == (fault is None),
            final(self).requests() == old(self).requests(),
            final(self).locations() == old(self).locations(),
    {
        self.fault = fault;
    }

    /// The failure that an operation on the store ends in while the store
    /// is down.
    fn failure(&self) -> (failure: Option<Error>)
        ensures
            self.dependable() ==> failure is None,
            !self.dependable() ==> failure is Some && failure->0 is Store
                && failure->0->Store_0@ == self.fault()->0,
    {
        match &self.fault {
            Some(reason) => Some(Error::Store(reason.clone())),
            None => None,
        }
    }

    /// What an operation ends in while the store is down: the failure of
    /// the store, with the reason it is down for. A malformed query or
    /// page is refused all the same.
    pub open spec fn down<T>(&self, result: Result<T, Error>) -> bool {
        !self.dependable() ==> match result {
            Err(Error::Store(reason)) => Some(reason@) == self.fault(),
            Err(Error::Validation(_)) => true,
            _ => false,
        }
    }

    /// Creates a walk request at the time `now` and returns its id: the
    /// numeral of the number of requests that the store held before.
    pub fn create_walk_request_at(&mut self, request: WalkRequestCreate, now: i64) -> (result: Result<
        String,
        Error,
    >)
        requires
            old(self).inv(),
        ensures
            final(self).inv(),
            final(self).fault() == old(self).fault(),
            final(self).locations() == old(self).locations(),
            match result {
                Ok(id) => old(self).dependable() && id@ == decimal(old(self).requests().len())
                    && final(self).requests() == old(self).requests().push(
                    request@.created(id@, now),
                ),
                Err(Error::Store(reason)) => Some(reason@) == old(self).fault()
                    && final(self).requests() == old(self).requests(),
                Err(_) => false,
            },
    {
        if let Some(failure) = self.failure() {
            return Err(failure);
        }
        let id = numeral(self.requests.len() as u64);
        let ghost before = self.requests@;
        let created = WalkRequest {
            id: id.clone(),
            dogs: request.dogs,
            should_start_after: request.should_start_after,
            should_start_before: request.should_start_before,
            should_end_after: request.should_end_after,
            should_end_before: request.should_end_before,
            latitude: request.latitude,
            longitude: request.longitude,
            distance: None,
            created_by: request.created_by,
            canceled_at: None,
            accepted_by: None,
            accepted_at: None,
            started_at: None,
            finished_at: None,
            acceptances: None,
            created_at: Some(now),
            updated_at: Some(now),
        };
        assert(created@ == request@.created(id@, now));
        self.requests.push(created);
        assert(views(self.requests@) =~= views(before).push(request@.created(id@, now)));
        Ok(id)
    }

    /// Records a point of a walk at the time `now` and returns its id: the
    /// numeral of the number of locations that the store held before.
    pub fn create_walking_location_at(&mut self, create: WalkingLocationCreate, now: i64) -> (result:
        Result<String, Error>)
        requires
            old(self).inv(),
        ensures
            final(self).inv(),
            final(self).fault() == old(self).fault(),
            final(self).requests() == old(self).requests(),
            match result {
                Ok(id) => old(self).dependable() && id@ == decimal(old(self).locations().len())
                    && final(self).locations() == old(self).locations().push(
                    create.created(id@, now),
                ),
                Err(Error::Store(reason)) => Some(reason@) == old(self).fault()
                    && final(self).locations() == old(self).locations(),
                Err(_) => false,
            },
    {
        if let Some(failure) = self.failure() {
            return Err(failure);
        }
        let id = numeral(self.locations.len() as u64);
        let ghost before = self.locations@;
        let location = WalkingLocation {
            id: id.clone(),
            request_id: create.walk_request_id.to_owned(),
            longitude: create.longitude,
            latitude: create.latitude,
            created_at: Some(now),
        };
        self.locations.push(location);
        assert(location_views(self.locations@) =~= location_views(before).push(
            create.created(id@, now),
        ));
        Ok(id)
    }

    /// The locations recorded for the request with the id `request_id`,
    /// oldest first, as pairs of longitude and latitude.
    pub fn track(&self, request_id: &str) -> (points: Vec<(i64, i64)>)
        requires
            self.inv(),
        ensures
            points@ == track_of(self.locations(), request_id@),
    {
        let wanted = request_id.to_owned();
        let mut points: Vec<(i64, i64)> = Vec::new();
        let mut i: usize = 0;
        assert(location_views(self.locations@).take(0) =~= Seq::<WalkingLocationView>::empty());
        while i < self.locations.len()
            invariant
                i <= self.locations.len(),
                wanted@ == request_id@,
                points@ == track_of(location_views(self.locations@).take(i as int), request_id@),
            decreases self.locations.len() - i,
        {
            let ghost all = location_views(self.locations@);
            assert(all.take(i + 1).drop_last() =~= all.take(i as int));
            assert(all.take(i + 1).last() == self.locations@[i as int]@);
            if self.locations[i].request_id == wanted {
                points.push((self.locations[i].longitude, self.locations[i].latitude));
            }
            i += 1;
        }
        assert(location_views(self.locations@).take(self.locations.len() as int)
            =~= location_views(self.locations@));
        points
    }
}

/// The points recorded for the request with the id `request_id`, oldest
/// first, as pairs of longitude and latitude.
pub open spec fn track_of(locations: Seq<WalkingLocationView>, request_id: Seq<char>) -> Seq<
    (i64, i64),
>
    decreases locations.len(),
{
    if locations.len() == 0 {
        Seq::empty()
    } else {
        let earlier = track_of(locations.drop_last(), request_id);
        let last = locations.last();
        if last.request_id == request_id {
            earlier.push((last.longitude, last.latitude))
        } else {
            earlier
        }
    }
}

impl Repository for MemoryRepository {
    closed spec fn requests(&self) -> Seq<WalkRequestView> {
        views(self.requests@)
    }

    closed spec fn locations(&self) -> Seq<WalkingLocationView> {
        location_views(self.locations@)
    }

    open spec fn metric(&self) -> Metric {
        grid_metric()
    }

    open spec fn dependable(&self) -> bool {
        self.fault() is None
    }

    closed spec fn inv(&self) -> bool {
        self.numbered()
    }

    proof fn lemma_inv(&self) {
        let requests = self.requests();
        assert forall|i: int, j: int| 0 <= i < j < requests.len() implies (
        #[trigger] requests[i]).id != (#[trigger] requests[j]).id by {
            assert(self.requests@[i].id@ == decimal(i as nat));
            assert(self.requests@[j].id@ == decimal(j as nat));
            if decimal(i as nat) == decimal(j as nat) {
                lemma_decimal_is_injective(i as nat, j as nat);
            }
        }
        assert forall|i: int| 0 <= i < requests.len() implies (#[trigger] requests[i]).wf()
            && requests[i].distance is None by {
            assert(self.requests@[i]@.wf());
        }
    }

    fn create_walk_request(&mut self, request: WalkRequestCreate) -> (result: Result<String, Error>)
        ensures
            old(self).down(result),
    {
        let now = now_millis();
        self.create_walk_request_at(request, now)
    }

    fn update_walk_request(&mut self, id: &str, update: WalkRequestUpdate) -> (result: Result<
        WalkRequest,
        Error,
    >)
        ensures
            old(self).down(result),
    {
        let mut query = WalkRequestQuery::default();
        query.id = Some(id.to_owned());
        self.update_walk_request_by_query(query, update)
    }

    fn update_walk_request_by_query(
        &mut self,
        query: WalkRequestQuery,
        update: WalkRequestUpdate,
    ) -> (result: Result<WalkRequest, Error>)
        ensures
            old(self).down(result),
    {
        if !query.is_valid() {
            return Err(Error::Validation(Invalid::Nearby));
        }
        if let Some(failure) = self.failure() {
            return Err(failure);
        }
        let ghost before = views(self.requests@);
        let mut i: usize = 0;
        while i < self.requests.len()
            invariant
                i <= self.requests.len(),
                query@.valid(),
                self.inv(),
                self.numbered(),
                self.fault == old(self).fault,
                old(self).dependable(),
                views(self.requests@) == before,
                before == views(old(self).requests@),
                self.locations == old(self).locations,
                forall|j: int| 0 <= j < i ==> !selects(query@, #[trigger] before[j], grid_metric()),
            decreases self.requests.len() - i,
        {
            assert(before[i as int] == self.requests@[i as int]@);
            if hits(&query, &self.requests[i]) {
                let mut changed = self.requests[i].duplicate();
                update.apply(&mut changed);
                let copy = changed.duplicate();
                proof {
                    lemma_apply_keeps_wf(update@, before[i as int]);
                }
                self.requests.set(i, changed);
                proof {
                    let after = update@.apply(before[i as int]);
                    assert(views(self.requests@) =~= before.update(i as int, after));
                    assert(crate::repository::first_selected(
                        before,
                        query@,
                        grid_metric(),
                        i as int,
                    ));
                    assert(copy@ == after);
                }
                return Ok(copy);
            }
            i += 1;
        }
        Err(Error::NotMatched)
    }

    fn update_walk_requests_by_query(
        &mut self,
        query: WalkRequestQuery,
        update: WalkRequestUpdate,
    ) -> (result: Result<u64, Error>)
        ensures
            old(self).down(result),
    {
        if !query.is_valid() {
            return Err(Error::Validation(Invalid::Nearby));
        }
        if let Some(failure) = self.failure() {
            return Err(failure);
        }
        let ghost before = views(self.requests@);
        let mut n: u64 = 0;
        let mut i: usize = 0;
        assert(before.take(0) =~= Seq::<WalkRequestView>::empty());
        while i < self.requests.len()
            invariant
                i <= self.requests.len(),
                query@.valid(),
                self.numbered(),
                self.fault == old(self).fault,
                self.requests@.len() == before.len(),
                self.locations == old(self).locations,
                n <= i,
                n == affected(before.take(i as int), query@, grid_metric()),
                forall|j: int|
                    0 <= j < i ==> #[trigger] views(self.requests@)[j] == if selects(
                        query@,
                        before[j],
                        grid_metric(),
                    ) {
                        update@.apply(before[j])
                    } else {
                        before[j]
                    },
                forall|j: int| i <= j < before.len() ==> #[trigger] views(self.requests@)[j] == before[j],
            decreases self.requests.len() - i,
        {
            proof {
                assert(before.take(i + 1).drop_last() =~= before.take(i as int));
                assert(before.take(i + 1).last() == before[i as int]);
                assert(views(self.requests@)[i as int] == before[i as int]);
            }
            if hits(&query, &self.requests[i]) {
                let ghost held = views(self.requests@);
                let mut changed = self.requests[i].duplicate();
                update.apply(&mut changed);
                proof {
                    lemma_apply_keeps_wf(update@, before[i as int]);
                }
                self.requests.set(i, changed);
                n += 1;
                assert(views(self.requests@) =~= held.update(
                    i as int,
                    update@.apply(before[i as int]),
                ));
            }
            i += 1;
        }
        assert(before.take(before.len() as int) =~= before);
        Ok(n)
    }

    fn get_walk_request(&self, id: &str) -> (result: Result<WalkRequest, Error>)
        ensures
            self.down(result),
    {
        if let Some(failure) = self.failure() {
            return Err(failure);
        }
        let wanted = id.to_owned();
        let mut i: usize = 0;
        while i < self.requests.len()
            invariant
                i <= self.requests.len(),
                wanted@ == id@,
                self.dependable(),
                forall|j: int| 0 <= j < i ==> (#[trigger] views(self.requests@)[j]).id != id@,
            decreases self.requests.len() - i,
        {
            if self.requests[i].id == wanted {
                let copy = self.requests[i].duplicate();
                assert(views(self.requests@)[i as int] == copy@);
                return Ok(copy);
            }
            i += 1;
        }
        Err(Error::NotFound)
    }

    fn query_walk_requests(
        &self,
        query: WalkRequestQuery,
        sort_by: Option<SortBy>,
        pagination: Option<Pagination>,
    ) -> (result: Result<Vec<WalkRequest>, Error>)
        ensures
            self.down(result),
    {
        if !query.is_valid() {
            return Err(Error::Validation(Invalid::Nearby));
        }
        if let Some(p) = &pagination {
            if p.page < 1 || p.size < 0 {
                return Err(Error::Validation(Invalid::Pagination));
            }
        }
        if let Some(failure) = self.failure() {
            return Err(failure);
        }
        let ghost all = views(self.requests@);
        let mut selected: Vec<WalkRequest> = Vec::new();
        let mut i: usize = 0;
        assert(all.take(0) =~= Seq::<WalkRequestView>::empty());
        assert(views(selected@) =~= Seq::<WalkRequestView>::empty());
        while i < self.requests.len()
            invariant
                i <= self.requests.len(),
                query@.valid(),
                all == views(self.requests@),
                views(selected@) == chosen(all.take(i as int), query@, grid_metric()),
            decreases self.requests.len() - i,
        {
            proof {
                assert(all.take(i + 1).drop_last() =~= all.take(i as int));
                assert(all.take(i + 1).last() == self.requests@[i as int]@);
            }
            if hits(&query, &self.requests[i]) {
                let ghost kept = views(selected@);
                let copy = returned(&query, &self.requests[i]);
                selected.push(copy);
                assert(views(selected@) =~= kept.push(copy@));
            }
            i += 1;
        }
        assert(all.take(all.len() as int) =~= all);
        lay_out(selected, query.nearby.is_some(), &sort_by, &pagination)
    }

    fn create_walking_location(&mut self, create: WalkingLocationCreate) -> (result: Result<
        String,
        Error,
    >)
        ensures
            old(self).down(result),
    {
        let now = now_millis();
        self.create_walking_location_at(create, now)
    }
}

} // verus!
