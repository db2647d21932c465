//! The predicate model: which walk requests a query selects.
//!
//! A query is a conjunction of optional constraints; an absent constraint
//! admits every request.

use crate::entities::{dog_ids, Dog, WalkRequest, WalkRequestView};
use crate::text::{contains_text, opt_text, opt_texts, texts};
use vstd::prelude::*;

verus! {

/// Every member of `wanted` occurs in `have`.
pub open spec fn includes_all(have: Seq<Seq<char>>, wanted: Seq<Seq<char>>) -> bool {
    forall|i: int| 0 <= i < wanted.len() ==> have.contains(#[trigger] wanted[i])
}

/// Some member of `wanted` occurs in `have`.
pub open spec fn includes_any(have: Seq<Seq<char>>, wanted: Seq<Seq<char>>) -> bool {
    exists|i: int| 0 <= i < wanted.len() && have.contains(#[trigger] wanted[i])
}

/// Which walk requests qualify. `nearby` holds a longitude, a latitude and
/// a radius, in that order.
#[derive(Clone, Debug, PartialEq, Eq)]
pub struct WalkRequestQuery {
    pub id: Option<String>,
    pub dog_ids_includes_all: Option<Vec<String>>,
    pub dog_ids_includes_any: Option<Vec<String>>,
    pub nearby: Option<Vec<i64>>,
    pub accepted_by: Option<String>,
    pub accepted_by_neq: Option<String>,
    pub accepted_by_is_null: Option<bool>,
    pub acceptances_includes_all: Option<Vec<String>>,
    pub acceptances_includes_any: Option<Vec<String>>,
    pub created_by: Option<String>,
}

/// What a query holds.
pub struct WalkRequestQueryView {
    pub id: Option<Seq<char>>,
    pub dog_ids_includes_all: Option<Seq<Seq<char>>>,
    pub dog_ids_includes_any: Option<Seq<Seq<char>>>,
    pub nearby: Option<Seq<i64>>,
    pub accepted_by: Option<Seq<char>>,
    pub accepted_by_neq: Option<Seq<char>>,
    pub accepted_by_is_null: Option<bool>,
    pub acceptances_includes_all: Option<Seq<Seq<char>>>,
    pub acceptances_includes_any: Option<Seq<Seq<char>>>,
    pub created_by: Option<Seq<char>>,
}

impl View for WalkRequestQuery {
    type V = WalkRequestQueryView;

    open spec fn view(&self) -> WalkRequestQueryView {
        WalkRequestQueryView {
            id: opt_text(self.id),
            dog_ids_includes_all: opt_texts(self.dog_ids_includes_all),
            dog_ids_includes_any: opt_texts(self.dog_ids_includes_any),
            nearby: match self.nearby {
                Some(n) => Some(n@),
                None => None,
            },
            accepted_by: opt_text(self.accepted_by),
            accepted_by_neq: opt_text(self.accepted_by_neq),
            accepted_by_is_null: self.accepted_by_is_null,
            acceptances_includes_all: opt_texts(self.acceptances_includes_all),
            acceptances_includes_any: opt_texts(self.acceptances_includes_any),
            created_by: opt_text(self.created_by),
        }
    }
}

impl WalkRequestQueryView {
    /// The query that constrains nothing.
    pub open spec fn unconstrained() -> WalkRequestQueryView {
        WalkRequestQueryView {
            id: None,
            dog_ids_includes_all: None,
            dog_ids_includes_any: None,
            nearby: None,
            accepted_by: None,
            accepted_by_neq: None,
            accepted_by_is_null: None,
            acceptances_includes_all: None,
            acceptances_includes_any: None,
            created_by: None,
        }
    }

    /// A proximity constraint, where there is one, has exactly three
    /// components.
    pub open spec fn valid(self) -> bool {
        self.nearby matches Some(n) ==> n.len() == 3
    }

    /// The request meets every constraint but the one on proximity.
    pub open spec fn matches(self, r: WalkRequestView) -> bool {
        &&& self.id matches Some(id) ==> r.id == id
        &&& self.dog_ids_includes_all matches Some(ids) ==> includes_all(r.dogs, ids)
        &&& self.dog_ids_includes_any matches Some(ids) ==> includes_any(r.dogs, ids)
        &&& self.accepted_by matches Some(walker) ==> r.accepted_by == Some(walker)
        &&& self.accepted_by_neq matches Some(walker) ==> r.accepted_by != Some(walker)
        &&& self.accepted_by_is_null matches Some(absent) ==> (r.accepted_by is None) == absent
        &&& self.acceptances_includes_all matches Some(walkers) ==> includes_all(
            r.volunteers(),
            walkers,
        )
        &&& self.acceptances_includes_any matches Some(walkers) ==> includes_any(
            r.volunteers(),
            walkers,
        )
        &&& self.created_by matches Some(owner) ==> r.created_by == owner
    }

    /// A request at `distance` from the query's point meets the constraint
    /// on proximity: there is none, or the distance is within its radius.
    pub open spec fn reaches(self, distance: nat) -> bool {
        self.nearby matches Some(n) ==> n.len() == 3 && distance <= n[2]
    }
}

/// Whether every member of `wanted` occurs in `have`.
pub fn includes_all_texts(have: &Vec<String>, wanted: &Vec<String>) -> (all: bool)
    ensures
        all == includes_all(texts(have@), texts(wanted@)),
{
    let mut i: usize = 0;
    while i < wanted.len()
        invariant
            i <= wanted.len(),
            forall|j: int| 0 <= j < i ==> texts(have@).contains(#[trigger] texts(wanted@)[j]),
        decreases wanted.len() - i,
    {
        if !contains_text(have, &wanted[i]) {
            assert(!texts(have@).contains(texts(wanted@)[i as int]));
            return false;
        }
        i += 1;
    }
    true
}

/// Whether some member of `wanted` occurs in `have`.
pub fn includes_any_texts(have: &Vec<String>, wanted: &Vec<String>) -> (any: bool)
    ensures
        any == includes_any(texts(have@), texts(wanted@)),
{
    let mut i: usize = 0;
    while i < wanted.len()
        invariant
            i <= wanted.len(),
            forall|j: int| 0 <= j < i ==> !texts(have@).contains(#[trigger] texts(wanted@)[j]),
        decreases wanted.len() - i,
    {
        if contains_text(have, &wanted[i]) {
            assert(texts(have@).contains(texts(wanted@)[i as int]));
            return true;
        }
        i += 1;
    }
    false
}

/// The ids of `dogs`, in order.
pub fn ids_of(dogs: &Vec<Dog>) -> (ids: Vec<String>)
    ensures
        texts(ids@) == dog_ids(dogs@),
{
    let mut ids: Vec<String> = Vec::new();
    let mut i: usize = 0;
    while i < dogs.len()
        invariant
            i <= dogs.len(),
            ids.len() == i,
            forall|j: int| 0 <= j < i ==> ids@[j]@ == dogs@[j].id@,
        decreases dogs.len() - i,
    {
        ids.push(dogs[i].id.clone());
        i += 1;
    }
    assert(texts(ids@) =~= dog_ids(dogs@));
    ids
}

/// Whether an optional string is present and holds what `wanted` holds.
pub fn holds_text(value: &Option<String>, wanted: &String) -> (same: bool)
    ensures
        same == (opt_text(*value) == Some(wanted@)),
{
    match value {
        Some(s) => *s == *wanted,
        None => false,
    }
}

impl Default for WalkRequestQuery {
    /// The query that constrains nothing.
    fn default() -> (q: WalkRequestQuery)
        ensures
            q@ == WalkRequestQueryView::unconstrained(),
    {
        WalkRequestQuery {
            id: None,
            dog_ids_includes_all: None,
            dog_ids_includes_any: None,
            nearby: None,
            accepted_by: None,
            accepted_by_neq: None,
            accepted_by_is_null: None,
            acceptances_includes_all: None,
            acceptances_includes_any: None,
            created_by: None,
        }
    }
}

impl WalkRequestQuery {
    /// Whether the proximity constraint, where there is one, has exactly
    /// three components.
    pub fn is_valid(&self) -> (valid: bool)
        ensures
            valid == self@.valid(),
    {
        match &self.nearby {
            Some(n) => n.len() == 3,
            None => true,
        }
    }

    /// Whether `r` meets every constraint but the one on proximity.
    pub fn matches(&self, r: &WalkRequest) -> (matched: bool)
        ensures
            matched == self@.matches(r@),
    {
        if let Some(id) = &self.id {
            if !(r.id == *id) {
                return false;
            }
        }
        if self.dog_ids_includes_all.is_some() || self.dog_ids_includes_any.is_some() {
            let ids = ids_of(&r.dogs);
            if let Some(wanted) = &self.dog_ids_includes_all {
                if !includes_all_texts(&ids, wanted) {
                    return false;
                }
            }
            if let Some(wanted) = &self.dog_ids_includes_any {
                if !includes_any_texts(&ids, wanted) {
                    return false;
                }
            }
        }
        if let Some(walker) = &self.accepted_by {
            if !holds_text(&r.accepted_by, walker) {
                return false;
            }
        }
        if let Some(walker) = &self.accepted_by_neq {
            if holds_text(&r.accepted_by, walker) {
                return false;
            }
        }
        if let Some(absent) = self.accepted_by_is_null {
            if r.accepted_by.is_none() != absent {
                return false;
            }
        }
        if self.acceptances_includes_all.is_some() || self.acceptances_includes_any.is_some() {
            let none: Vec<String> = Vec::new();
            let volunteers = match &r.acceptances {
                Some(list) => list,
                None => &none,
            };
            assert(texts(volunteers@) =~= r@.volunteers());
            if let Some(wanted) = &self.acceptances_includes_all {
                if !includes_all_texts(volunteers, wanted) {
                    return false;
                }
            }
            if let Some(wanted) = &self.acceptances_includes_any {
                if !includes_any_texts(volunteers, wanted) {
                    return false;
                }
            }
        }
        if let Some(owner) = &self.created_by {
            if !(r.created_by == *owner) {
                return false;
            }
        }
        true
    }
}

} // verus!
