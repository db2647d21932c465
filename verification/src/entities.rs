//! The records of the system: dogs, walk requests, walking locations, and
//! the rule that derives a request's status.

use crate::text::{copy_opt_text, copy_texts, opt_text, opt_texts};
use vstd::prelude::*;

verus! {

/// Where a walk request stands in its lifecycle.
#[derive(Clone, Copy, Debug, PartialEq, Eq, Structural)]
pub enum Status {
    Waiting,
    Accepted,
    Started,
    Finished,
    Canceled,
}

/// The status that four lifecycle timestamps stand for. A cancellation
/// outranks an assignment, an assignment a start, and a start a finish.
pub open spec fn status_of(
    canceled_at: Option<i64>,
    accepted_at: Option<i64>,
    started_at: Option<i64>,
    finished_at: Option<i64>,
) -> Status {
    if canceled_at is Some {
        Status::Canceled
    } else if accepted_at is Some {
        Status::Accepted
    } else if started_at is Some {
        Status::Started
    } else if finished_at is Some {
        Status::Finished
    } else {
        Status::Waiting
    }
}

impl Status {
    /// Derives the status from the four lifecycle timestamps.
    pub fn derive(
        canceled_at: Option<i64>,
        accepted_at: Option<i64>,
        started_at: Option<i64>,
        finished_at: Option<i64>,
    ) -> (status: Status)
        ensures
            status == status_of(canceled_at, accepted_at, started_at, finished_at),
    {
        if canceled_at.is_some() {
            Status::Canceled
        } else if accepted_at.is_some() {
            Status::Accepted
        } else if started_at.is_some() {
            Status::Started
        } else if finished_at.is_some() {
            Status::Finished
        } else {
            Status::Waiting
        }
    }

    /// The status as text.
    pub open spec fn spec_name(self) -> Seq<char> {
        match self {
            Status::Waiting => "Waiting"@,
            Status::Accepted => "Accepted"@,
            Status::Started => "Started"@,
            Status::Finished => "Finished"@,
            Status::Canceled => "Canceled"@,
        }
    }

    /// The status as text.
    pub fn name(&self) -> (name: String)
        ensures
            name@ == self.spec_name(),
    {
        match self {
            Status::Waiting => "Waiting".to_owned(),
            Status::Accepted => "Accepted".to_owned(),
            Status::Started => "Started".to_owned(),
            Status::Finished => "Finished".to_owned(),
            Status::Canceled => "Canceled".to_owned(),
        }
    }
}

/// A reference to a dog; the registry of dogs lives elsewhere.
#[derive(Clone, Debug, PartialEq, Eq)]
pub struct Dog {
    pub id: String,
}

impl View for Dog {
    type V = Seq<char>;

    open spec fn view(&self) -> Seq<char> {
        self.id@
    }
}

/// The ids of a list of dogs, in order.
pub open spec fn dog_ids(dogs: Seq<Dog>) -> Seq<Seq<char>> {
    dogs.map_values(|d: Dog| d@)
}

/// A copy of a list of dogs.
pub fn copy_dogs(dogs: &Vec<Dog>) -> (copy: Vec<Dog>)
    ensures
        copy@ == dogs@,
{
    let mut copy: Vec<Dog> = Vec::new();
    let mut i: usize = 0;
    while i < dogs.len()
        invariant
            i <= dogs.len(),
            copy@ == dogs@.take(i as int),
        decreases dogs.len() - i,
    {
        copy.push(Dog { id: dogs[i].id.clone() });
        assert(copy@ == dogs@.take(i + 1));
        i += 1;
    }
    assert(dogs@.take(dogs.len() as int) == dogs@);
    copy
}

/// A request to have dogs walked. Timestamps are milliseconds since the
/// Unix epoch; coordinates and distances are whole numbers in the units of
/// the store that measures them.
#[derive(Clone, Debug, PartialEq, Eq)]
pub struct WalkRequest {
    pub id: String,
    pub dogs: Vec<Dog>,
    pub should_start_after: Option<i64>,
    pub should_start_before: Option<i64>,
    pub should_end_after: Option<i64>,
    pub should_end_before: Option<i64>,
    pub latitude: i64,
    pub longitude: i64,
    pub distance: Option<u64>,
    pub created_by: String,
    pub canceled_at: Option<i64>,
    pub accepted_by: Option<String>,
    pub accepted_at: Option<i64>,
    pub started_at: Option<i64>,
    pub finished_at: Option<i64>,
    pub acceptances: Option<Vec<String>>,
    pub created_at: Option<i64>,
    pub updated_at: Option<i64>,
}

/// What a walk request holds.
pub struct WalkRequestView {
    pub id: Seq<char>,
    pub dogs: Seq<Seq<char>>,
    pub should_start_after: Option<i64>,
    pub should_start_before: Option<i64>,
    pub should_end_after: Option<i64>,
    pub should_end_before: Option<i64>,
    pub latitude: i64,
    pub longitude: i64,
    pub distance: Option<u64>,
    pub created_by: Seq<char>,
    pub canceled_at: Option<i64>,
    pub accepted_by: Option<Seq<char>>,
    pub accepted_at: Option<i64>,
    pub started_at: Option<i64>,
    pub finished_at: Option<i64>,
    pub acceptances: Option<Seq<Seq<char>>>,
    pub created_at: Option<i64>,
    pub updated_at: Option<i64>,
}

impl WalkRequestView {
    /// The status of the request: a function of its four lifecycle
    /// timestamps and of nothing else.
    pub open spec fn status(self) -> Status {
        status_of(self.canceled_at, self.accepted_at, self.started_at, self.finished_at)
    }

    /// The walkers who volunteered and were not withdrawn; none where the
    /// list is absent.
    pub open spec fn volunteers(self) -> Seq<Seq<char>> {
        match self.acceptances {
            Some(list) => list,
            None => Seq::empty(),
        }
    }

    /// No walker is listed twice among the volunteers.
    pub open spec fn wf(self) -> bool {
        self.volunteers().no_duplicates()
    }

    /// A walker is assigned exactly when the time of the assignment is
    /// recorded.
    pub open spec fn assignment_paired(self) -> bool {
        self.accepted_by is Some <==> self.accepted_at is Some
    }
}

impl View for WalkRequest {
    type V = WalkRequestView;

    open spec fn view(&self) -> WalkRequestView {
        WalkRequestView {
            id: self.id@,
            dogs: dog_ids(self.dogs@),
            should_start_after: self.should_start_after,
            should_start_before: self.should_start_before,
            should_end_after: self.should_end_after,
            should_end_before: self.should_end_before,
            latitude: self.latitude,
            longitude: self.longitude,
            distance: self.distance,
            created_by: self.created_by@,
            canceled_at: self.canceled_at,
            accepted_by: opt_text(self.accepted_by),
            accepted_at: self.accepted_at,
            started_at: self.started_at,
            finished_at: self.finished_at,
            acceptances: opt_texts(self.acceptances),
            created_at: self.created_at,
            updated_at: self.updated_at,
        }
    }
}

/// What a list of walk requests holds, in order.
pub open spec fn views(requests: Seq<WalkRequest>) -> Seq<WalkRequestView> {
    requests.map_values(|r: WalkRequest| r@)
}

impl Default for WalkRequest {
    /// A waiting request that holds nothing.
    fn default() -> (r: WalkRequest)
        ensures
            r@.id == Seq::<char>::empty(),
            r@.dogs == Seq::<Seq<char>>::empty(),
            r@.created_by == Seq::<char>::empty(),
            r.latitude == 0,
            r.longitude == 0,
            r.should_start_after is None,
            r.should_start_before is None,
            r.should_end_after is None,
            r.should_end_before is None,
            r.distance is None,
            r.canceled_at is None,
            r.accepted_by is None,
            r.accepted_at is None,
            r.started_at is None,
            r.finished_at is None,
            r.acceptances is None,
            r.created_at is None,
            r.updated_at is None,
    {
        let r = WalkRequest {
            id: String::new(),
            dogs: Vec::new(),
            should_start_after: None,
            should_start_before: None,
            should_end_after: None,
            should_end_before: None,
            latitude: 0,
            longitude: 0,
            distance: None,
            created_by: String::new(),
            canceled_at: None,
            accepted_by: None,
            accepted_at: None,
            started_at: None,
            finished_at: None,
            acceptances: None,
            created_at: None,
            updated_at: None,
        };
        assert(r@.dogs =~= Seq::<Seq<char>>::empty());
        r
    }
}

impl WalkRequest {
    /// The status of the request.
    pub fn status(&self) -> (status: Status)
        ensures
            status == self@.status(),
    {
        Status::derive(self.canceled_at, self.accepted_at, self.started_at, self.finished_at)
    }

    /// The name of the field that holds the time of creation.
    pub fn created_at() -> (name: String)
        ensures
            name@ == "created_at"@,
    {
        "created_at".to_owned()
    }

    /// A copy of the request.
    pub fn duplicate(&self) -> (copy: WalkRequest)
        ensures
            copy@ == self@,
    {
        WalkRequest {
            id: self.id.clone(),
            dogs: copy_dogs(&self.dogs),
            should_start_after: self.should_start_after,
            should_start_before: self.should_start_before,
            should_end_after: self.should_end_after,
            should_end_before: self.should_end_before,
            latitude: self.latitude,
            longitude: self.longitude,
            distance: self.distance,
            created_by: self.created_by.clone(),
            canceled_at: self.canceled_at,
            accepted_by: copy_opt_text(&self.accepted_by),
            accepted_at: self.accepted_at,
            started_at: self.started_at,
            finished_at: self.finished_at,
            acceptances: match &self.acceptances {
                Some(list) => Some(copy_texts(list)),
                None => None,
            },
            created_at: self.created_at,
            updated_at: self.updated_at,
        }
    }
}

/// One point of a walk in progress. Locations are only ever added.
#[derive(Clone, Debug, PartialEq, Eq)]
pub struct WalkingLocation {
    pub id: String,
    pub request_id: String,
    pub longitude: i64,
    pub latitude: i64,
    pub created_at: Option<i64>,
}

/// What a walking location holds.
pub struct WalkingLocationView {
    pub id: Seq<char>,
    pub request_id: Seq<char>,
    pub longitude: i64,
    pub latitude: i64,
    pub created_at: Option<i64>,
}

impl View for WalkingLocation {
    type V = WalkingLocationView;

    open spec fn view(&self) -> WalkingLocationView {
        WalkingLocationView {
            id: self.id@,
            request_id: self.request_id@,
            longitude: self.longitude,
            latitude: self.latitude,
            created_at: self.created_at,
        }
    }
}

impl Default for WalkingLocation {
    /// A location that holds nothing.
    fn default() -> (l: WalkingLocation)
        ensures
            l@.id == Seq::<char>::empty(),
            l@.request_id == Seq::<char>::empty(),
            l.longitude == 0,
            l.latitude == 0,
            l.created_at is None,
    {
        WalkingLocation {
            id: String::new(),
            request_id: String::new(),
            longitude: 0,
            latitude: 0,
            created_at: None,
        }
    }
}

/// What a list of walking locations holds, in order.
pub open spec fn location_views(locations: Seq<WalkingLocation>) -> Seq<WalkingLocationView> {
    locations.map_values(|l: WalkingLocation| l@)
}

/// A request's status depends on its four lifecycle timestamps alone: two
/// requests that agree on them have the same status, whatever else they
/// hold.
pub proof fn lemma_status_depends_on_timestamps_alone(a: WalkRequestView, b: WalkRequestView)
    requires
        a.canceled_at == b.canceled_at,
        a.accepted_at == b.accepted_at,
        a.started_at == b.started_at,
        a.finished_at == b.finished_at,
    ensures
        a.status() == b.status(),
{
}

} // verus!
