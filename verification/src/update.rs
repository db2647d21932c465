//! The mutation model: what an update does to a walk request.
//!
//! An update holds, side by side, fields to overwrite, fields to clear, a
//! walker to add to the volunteers and a walker to remove from them. It is
//! applied in that order, as one step.

use crate::entities::{copy_dogs, dog_ids, Dog, WalkRequest, WalkRequestView};
use crate::text::{
    copy_opt_text, copy_texts, insert_text_once, opt_text, opt_texts, remove_text, texts,
    with_once, without,
};
use vstd::prelude::*;

verus! {

/// What to change in a walk request. An absent field leaves the request's
/// field as it is.
#[derive(Clone, Debug, PartialEq, Eq)]
pub struct WalkRequestUpdate {
    pub dogs: Option<Vec<Dog>>,
    pub should_start_after: Option<i64>,
    pub should_start_before: Option<i64>,
    pub should_end_before: Option<i64>,
    pub should_end_after: Option<i64>,
    pub latitude: Option<i64>,
    pub longitude: Option<i64>,
    pub accepted_by: Option<String>,
    pub accepted_at: Option<i64>,
    pub canceled_at: Option<i64>,
    pub started_at: Option<i64>,
    pub finished_at: Option<i64>,
    pub unset_accepted_by: bool,
    pub unset_accepted_at: bool,
    pub add_to_acceptances: Option<String>,
    pub remove_from_acceptances: Option<String>,
}

/// What an update holds.
pub struct WalkRequestUpdateView {
    pub dogs: Option<Seq<Seq<char>>>,
    pub should_start_after: Option<i64>,
    pub should_start_before: Option<i64>,
    pub should_end_before: Option<i64>,
    pub should_end_after: Option<i64>,
    pub latitude: Option<i64>,
    pub longitude: Option<i64>,
    pub accepted_by: Option<Seq<char>>,
    pub accepted_at: Option<i64>,
    pub canceled_at: Option<i64>,
    pub started_at: Option<i64>,
    pub finished_at: Option<i64>,
    pub unset_accepted_by: bool,
    pub unset_accepted_at: bool,
    pub add_to_acceptances: Option<Seq<char>>,
    pub remove_from_acceptances: Option<Seq<char>>,
}

impl View for WalkRequestUpdate {
    type V = WalkRequestUpdateView;

    open spec fn view(&self) -> WalkRequestUpdateView {
        WalkRequestUpdateView {
            dogs: match self.dogs {
                Some(dogs) => Some(dog_ids(dogs@)),
                None => None,
            },
            should_start_after: self.should_start_after,
            should_start_before: self.should_start_before,
            should_end_before: self.should_end_before,
            should_end_after: self.should_end_after,
            latitude: self.latitude,
            longitude: self.longitude,
            accepted_by: opt_text(self.accepted_by),
            accepted_at: self.accepted_at,
            canceled_at: self.canceled_at,
            started_at: self.started_at,
            finished_at: self.finished_at,
            unset_accepted_by: self.unset_accepted_by,
            unset_accepted_at: self.unset_accepted_at,
            add_to_acceptances: opt_text(self.add_to_acceptances),
            remove_from_acceptances: opt_text(self.remove_from_acceptances),
        }
    }
}

/// The new value of an optional field: the assigned one where there is
/// one, else the old one.
pub open spec fn assigned<T>(new: Option<T>, old: Option<T>) -> Option<T> {
    if new is Some {
        new
    } else {
        old
    }
}

/// The volunteers after `walker`, where there is one, has been added: the
/// list is created where it was absent, and a walker already in it is not
/// added again.
pub open spec fn volunteers_with(
    list: Option<Seq<Seq<char>>>,
    walker: Option<Seq<char>>,
) -> Option<Seq<Seq<char>>> {
    match walker {
        None => list,
        Some(w) => match list {
            None => Some(seq![w]),
            Some(l) => Some(with_once(l, w)),
        },
    }
}

/// The volunteers after `walker`, where there is one, has been removed. An
/// absent list stays absent.
pub open spec fn volunteers_without(
    list: Option<Seq<Seq<char>>>,
    walker: Option<Seq<char>>,
) -> Option<Seq<Seq<char>>> {
    match walker {
        None => list,
        Some(w) => match list {
            None => None,
            Some(l) => Some(without(l, w)),
        },
    }
}

impl WalkRequestUpdateView {
    /// The update that changes nothing.
    pub open spec fn unchanged() -> WalkRequestUpdateView {
        WalkRequestUpdateView {
            dogs: None,
            should_start_after: None,
            should_start_before: None,
            should_end_before: None,
            should_end_after: None,
            latitude: None,
            longitude: None,
            accepted_by: None,
            accepted_at: None,
            canceled_at: None,
            started_at: None,
            finished_at: None,
            unset_accepted_by: false,
            unset_accepted_at: false,
            add_to_acceptances: None,
            remove_from_acceptances: None,
        }
    }

    /// The request after the update: fields are overwritten, then the
    /// assignment is cleared where asked, then a volunteer is added, then
    /// one is removed. The id, the owner, the distance and the store's
    /// bookkeeping timestamps stay as they are.
    pub open spec fn apply(self, r: WalkRequestView) -> WalkRequestView {
        WalkRequestView {
            id: r.id,
            dogs: match self.dogs {
                Some(dogs) => dogs,
                None => r.dogs,
            },
            should_start_after: assigned(self.should_start_after, r.should_start_after),
            should_start_before: assigned(self.should_start_before, r.should_start_before),
            should_end_after: assigned(self.should_end_after, r.should_end_after),
            should_end_before: assigned(self.should_end_before, r.should_end_before),
            latitude: match self.latitude {
                Some(latitude) => latitude,
                None => r.latitude,
            },
            longitude: match self.longitude {
                Some(longitude) => longitude,
                None => r.longitude,
            },
            distance: r.distance,
            created_by: r.created_by,
            canceled_at: assigned(self.canceled_at, r.canceled_at),
            accepted_by: if self.unset_accepted_by {
                None
            } else {
                assigned(self.accepted_by, r.accepted_by)
            },
            accepted_at: if self.unset_accepted_at {
                None
            } else {
                assigned(self.accepted_at, r.accepted_at)
            },
            started_at: assigned(self.started_at, r.started_at),
            finished_at: assigned(self.finished_at, r.finished_at),
            acceptances: volunteers_without(
                volunteers_with(r.acceptances, self.add_to_acceptances),
                self.remove_from_acceptances,
            ),
            created_at: r.created_at,
            updated_at: r.updated_at,
        }
    }
}

impl Default for WalkRequestUpdate {
    /// The update that changes nothing.
    fn default() -> (u: WalkRequestUpdate)
        ensures
            u@ == WalkRequestUpdateView::unchanged(),
    {
        WalkRequestUpdate {
            dogs: None,
            should_start_after: None,
            should_start_before: None,
            should_end_before: None,
            should_end_after: None,
            latitude: None,
            longitude: None,
            accepted_by: None,
            accepted_at: None,
            canceled_at: None,
            started_at: None,
            finished_at: None,
            unset_accepted_by: false,
            unset_accepted_at: false,
            add_to_acceptances: None,
            remove_from_acceptances: None,
        }
    }
}

/// The assigned timestamp where there is one, else the old one.
fn assign_time(new: Option<i64>, old: Option<i64>) -> (value: Option<i64>)
    ensures
        value == assigned(new, old),
{
    if new.is_some() {
        new
    } else {
        old
    }
}

/// The assigned coordinate where there is one, else the old one.
fn assign_coordinate(new: Option<i64>, old: i64) -> (value: i64)
    ensures
        value == match new {
            Some(n) => n,
            None => old,
        },
{
    match new {
        Some(n) => n,
        None => old,
    }
}

/// The walker assigned after an update: none where the update clears the
/// field, else the update's walker where it names one, else the old one.
fn assign_walker(clear: bool, new: &Option<String>, old: &Option<String>) -> (value: Option<String>)
    ensures
        opt_text(value) == if clear {
            None
        } else {
            assigned(opt_text(*new), opt_text(*old))
        },
{
    if clear {
        None
    } else {
        match new {
            Some(walker) => Some(walker.clone()),
            None => copy_opt_text(old),
        }
    }
}

/// The dogs after an update.
fn assign_dogs(new: &Option<Vec<Dog>>, old: &Vec<Dog>) -> (value: Vec<Dog>)
    ensures
        dog_ids(value@) == match *new {
            Some(dogs) => dog_ids(dogs@),
            None => dog_ids(old@),
        },
{
    match new {
        Some(dogs) => copy_dogs(dogs),
        None => copy_dogs(old),
    }
}

/// The volunteers after `walker`, where there is one, has been added.
fn add_volunteer(list: &Option<Vec<String>>, walker: &Option<String>) -> (value: Option<Vec<String>>)
    ensures
        opt_texts(value) == volunteers_with(opt_texts(*list), opt_text(*walker)),
{
    match walker {
        None => match list {
            Some(l) => Some(copy_texts(l)),
            None => None,
        },
        Some(w) => match list {
            Some(l) => Some(insert_text_once(l, w)),
            None => {
                let mut l: Vec<String> = Vec::new();
                l.push(w.clone());
                assert(texts(l@) =~= seq![w@]);
                Some(l)
            },
        },
    }
}

/// The volunteers after `walker`, where there is one, has been removed.
fn remove_volunteer(list: Option<Vec<String>>, walker: &Option<String>) -> (value: Option<Vec<String>>)
    ensures
        opt_texts(value) == volunteers_without(opt_texts(list), opt_text(*walker)),
{
    match walker {
        None => list,
        Some(w) => match list {
            Some(l) => Some(remove_text(&l, w)),
            None => None,
        },
    }
}

impl WalkRequestUpdate {
    /// Applies the update to `r`.
    pub fn apply(&self, r: &mut WalkRequest)
        ensures
            final(r)@ == self@.apply(old(r)@),
    {
        let dogs = assign_dogs(&self.dogs, &r.dogs);
        let accepted_by = assign_walker(self.unset_accepted_by, &self.accepted_by, &r.accepted_by);
        let grown = add_volunteer(&r.acceptances, &self.add_to_acceptances);
        let acceptances = remove_volunteer(grown, &self.remove_from_acceptances);
        r.dogs = dogs;
        r.should_start_after = assign_time(self.should_start_after, r.should_start_after);
        r.should_start_before = assign_time(self.should_start_before, r.should_start_before);
        r.should_end_after = assign_time(self.should_end_after, r.should_end_after);
        r.should_end_before = assign_time(self.should_end_before, r.should_end_before);
        r.latitude = assign_coordinate(self.latitude, r.latitude);
        r.longitude = assign_coordinate(self.longitude, r.longitude);
        r.canceled_at = assign_time(self.canceled_at, r.canceled_at);
        r.accepted_by = accepted_by;
        r.accepted_at = if self.unset_accepted_at {
            None
        } else {
            assign_time(self.accepted_at, r.accepted_at)
        };
        r.started_at = assign_time(self.started_at, r.started_at);
        r.finished_at = assign_time(self.finished_at, r.finished_at);
        r.acceptances = acceptances;
    }
}

/// What removing a walker from a list leaves: the other members, each as
/// often as before, so that a list without duplicates stays one.
pub proof fn lemma_without(list: Seq<Seq<char>>, item: Seq<char>)
    ensures
        !without(list, item).contains(item),
        forall|x: Seq<char>| x != item ==> (without(list, item).contains(x) <==> list.contains(x)),
        list.no_duplicates() ==> without(list, item).no_duplicates(),
        !list.contains(item) ==> without(list, item) == list,
    decreases list.len(),
{
    let keep = |x: Seq<char>| x != item;
    reveal(Seq::filter);
    if list.len() > 0 {
        let init = list.drop_last();
        let last = list.last();
        lemma_without(init, item);
        assert(list =~= init.push(last));
        let rest = without(init, item);
        assert forall|x: Seq<char>| x != item implies (without(list, item).contains(x)
            <==> list.contains(x)) by {
            if list.contains(x) {
                let i = choose|i: int| 0 <= i < list.len() && list[i] == x;
                if i < init.len() {
                    assert(init[i] == x);
                    assert(init.contains(x));
                    let j = choose|j: int| 0 <= j < rest.len() && rest[j] == x;
                    assert(without(list, item)[j] == x);
                } else {
                    assert(last == x);
                    assert(without(list, item).last() == x);
                }
            }
            if without(list, item).contains(x) {
                let j = choose|j: int|
                    0 <= j < without(list, item).len() && without(list, item)[j] == x;
                if j < rest.len() {
                    assert(rest[j] == x);
                    assert(rest.contains(x));
                    assert(without(init, item).contains(x));
                    assert(init.contains(x));
                    let i = choose|i: int| 0 <= i < init.len() && init[i] == x;
                    assert(list[i] == x);
                } else {
                    assert(list[list.len() - 1] == x);
                }
            }
        }
        if without(list, item).contains(item) {
            let j = choose|j: int|
                0 <= j < without(list, item).len() && without(list, item)[j] == item;
            if j < rest.len() {
                assert(rest[j] == item);
                assert(rest.contains(item));
            }
        }
        if list.no_duplicates() {
            assert(init.no_duplicates());
            if keep(last) {
                if rest.contains(last) {
                    assert(init.contains(last));
                    let i = choose|i: int| 0 <= i < init.len() && init[i] == last;
                    assert(list[i] == list[list.len() - 1]);
                }
                assert(forall|j: int| 0 <= j < rest.len() ==> rest[j] != last) by {
                    assert forall|j: int| 0 <= j < rest.len() implies rest[j] != last by {
                        if rest[j] == last {
                            assert(rest.contains(last));
                        }
                    }
                }
            }
        }
        if !list.contains(item) {
            assert(last != item) by {
                assert(list[list.len() - 1] == last);
            }
            assert(!init.contains(item)) by {
                if init.contains(item) {
                    let i = choose|i: int| 0 <= i < init.len() && init[i] == item;
                    assert(list[i] == item);
                }
            }
        }
    }
}

/// Adding a walker to a list without duplicates leaves one without
/// duplicates, in which the walker occurs.
pub proof fn lemma_with_once(list: Seq<Seq<char>>, item: Seq<char>)
    ensures
        with_once(list, item).contains(item),
        forall|x: Seq<char>| list.contains(x) ==> with_once(list, item).contains(x),
        list.no_duplicates() ==> with_once(list, item).no_duplicates(),
        with_once(with_once(list, item), item) == with_once(list, item),
{
    if !list.contains(item) {
        let grown = list.push(item);
        assert(grown[list.len() as int] == item);
        assert forall|x: Seq<char>| list.contains(x) implies grown.contains(x) by {
            let i = choose|i: int| 0 <= i < list.len() && list[i] == x;
            assert(grown[i] == x);
        }
        if list.no_duplicates() {
            assert forall|i: int, j: int|
                0 <= i < grown.len() && 0 <= j < grown.len() && i != j implies grown[i]
                != grown[j] by {
                if i < list.len() && j < list.len() {
                } else if i < list.len() {
                    assert(list[i] == grown[i]);
                } else {
                    assert(list[j] == grown[j]);
                }
            }
        }
    }
}

/// An update never lists a walker twice among the volunteers of a request
/// that lists none twice.
pub proof fn lemma_apply_keeps_wf(u: WalkRequestUpdateView, r: WalkRequestView)
    requires
        r.wf(),
    ensures
        u.apply(r).wf(),
{
    let grown = volunteers_with(r.acceptances, u.add_to_acceptances);
    assert(grown is Some ==> grown->0.no_duplicates()) by {
        if let Some(w) = u.add_to_acceptances {
            match r.acceptances {
                Some(l) => {
                    lemma_with_once(l, w);
                },
                None => {},
            }
        }
    }
    if let Some(w) = u.remove_from_acceptances {
        if let Some(l) = grown {
            lemma_without(l, w);
        }
    }
}

/// No update changes the id or the owner of a request, nor the store's
/// own bookkeeping.
pub proof fn lemma_apply_keeps_identity(u: WalkRequestUpdateView, r: WalkRequestView)
    ensures
        u.apply(r).id == r.id,
        u.apply(r).created_by == r.created_by,
        u.apply(r).created_at == r.created_at,
        u.apply(r).updated_at == r.updated_at,
{
}

/// Adding the same walker to the volunteers twice is adding the walker
/// once: the second update changes nothing, and the walker occurs exactly
/// once among the volunteers of a request that listed nobody twice.
pub proof fn lemma_adding_volunteer_is_idempotent(walker: Seq<char>, r: WalkRequestView)
    ensures
        ({
            let add = WalkRequestUpdateView {
                add_to_acceptances: Some(walker),
                ..WalkRequestUpdateView::unchanged()
            };
            &&& add.apply(add.apply(r)) == add.apply(r)
            &&& add.apply(r).volunteers().contains(walker)
            &&& r.wf() ==> add.apply(r).volunteers().to_multiset().count(walker) == 1
        }),
{
    let add = WalkRequestUpdateView {
        add_to_acceptances: Some(walker),
        ..WalkRequestUpdateView::unchanged()
    };
    let once = add.apply(r);
    match r.acceptances {
        Some(l) => {
            lemma_with_once(l, walker);
        },
        None => {
            assert(seq![walker][0] == walker);
            assert(with_once(seq![walker], walker) == seq![walker]);
        },
    }
    if r.wf() {
        lemma_apply_keeps_wf(add, r);
        once.volunteers().lemma_multiset_has_no_duplicates();
        once.volunteers().to_multiset_ensures();
    }
}

} // verus!
