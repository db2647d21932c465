//! The lifecycle of a walk request: for each transition the guard that the
//! request must meet and the change that is then made, to be executed by a
//! store as one step.

use crate::error::Error;
use crate::entities::{Status, WalkRequestView};
use crate::query::{includes_all, WalkRequestQuery, WalkRequestQueryView};
use crate::update::{
    lemma_apply_keeps_wf, lemma_with_once, lemma_without, WalkRequestUpdate, WalkRequestUpdateView,
};
use vstd::prelude::*;

verus! {

/// A step in the life of a walk request.
#[derive(Clone, Copy, Debug, PartialEq, Eq, Structural)]
pub enum Transition {
    /// A walker takes an unassigned request.
    Accept,
    /// A walker volunteers for a request.
    Volunteer,
    /// A volunteer withdraws, unless already assigned.
    RemoveAcceptance,
    /// The owner assigns one of the volunteers.
    AssignAccepter,
    /// The owner dismisses the assigned walker.
    DismissAccepter,
    /// The assigned walker resigns.
    ResignAcceptance,
    /// The owner cancels a request that nobody is assigned to.
    CancelUnaccepted,
    /// The owner cancels a request that a walker is assigned to.
    CancelAccepted,
    /// The assigned walker starts the walk.
    StartWalk,
    /// The assigned walker finishes the walk.
    FinishWalk,
}

/// A guard and the change to make where it holds.
#[derive(Clone, Debug, PartialEq, Eq)]
pub struct Plan {
    pub query: WalkRequestQuery,
    pub update: WalkRequestUpdate,
}

impl Transition {
    /// The condition under which the transition applies to a request: it
    /// has the id `request_id`, and its assignment is as the transition
    /// needs it for `walker`.
    pub open spec fn guard(self, request_id: Seq<char>, walker: Seq<char>) -> WalkRequestQueryView {
        let any = WalkRequestQueryView::unconstrained();
        match self {
            Transition::Accept | Transition::CancelUnaccepted => WalkRequestQueryView {
                id: Some(request_id),
                accepted_by_is_null: Some(true),
                ..any
            },
            Transition::Volunteer => WalkRequestQueryView { id: Some(request_id), ..any },
            Transition::RemoveAcceptance => WalkRequestQueryView {
                id: Some(request_id),
                accepted_by_neq: Some(walker),
                ..any
            },
            Transition::AssignAccepter => WalkRequestQueryView {
                id: Some(request_id),
                accepted_by_is_null: Some(true),
                acceptances_includes_all: Some(seq![walker]),
                ..any
            },
            Transition::DismissAccepter
            | Transition::ResignAcceptance
            | Transition::CancelAccepted
            | Transition::StartWalk
            | Transition::FinishWalk => WalkRequestQueryView {
                id: Some(request_id),
                accepted_by: Some(walker),
                ..any
            },
        }
    }

    /// The change that the transition makes for `walker` at the time
    /// `now`.
    pub open spec fn change(self, walker: Seq<char>, now: i64) -> WalkRequestUpdateView {
        let nothing = WalkRequestUpdateView::unchanged();
        match self {
            Transition::Accept | Transition::AssignAccepter => WalkRequestUpdateView {
                accepted_by: Some(walker),
                accepted_at: Some(now),
                ..nothing
            },
            Transition::Volunteer => WalkRequestUpdateView {
                add_to_acceptances: Some(walker),
                ..nothing
            },
            Transition::RemoveAcceptance => WalkRequestUpdateView {
                remove_from_acceptances: Some(walker),
                ..nothing
            },
            Transition::DismissAccepter => WalkRequestUpdateView {
                unset_accepted_by: true,
                unset_accepted_at: true,
                ..nothing
            },
            Transition::ResignAcceptance => WalkRequestUpdateView {
                unset_accepted_by: true,
                unset_accepted_at: true,
                remove_from_acceptances: Some(walker),
                ..nothing
            },
            Transition::CancelUnaccepted | Transition::CancelAccepted => WalkRequestUpdateView {
                canceled_at: Some(now),
                ..nothing
            },
            Transition::StartWalk => WalkRequestUpdateView { started_at: Some(now), ..nothing },
            Transition::FinishWalk => WalkRequestUpdateView { finished_at: Some(now), ..nothing },
        }
    }

    /// Whether the transition hands back the request it changed. The
    /// others report how many requests they changed.
    pub open spec fn returns_request(self) -> bool {
        self == Transition::Accept || self == Transition::StartWalk || self
            == Transition::FinishWalk
    }

    /// What the caller is told where the transition did not apply.
    pub open spec fn refusal(self) -> Seq<char> {
        match self {
            Transition::RemoveAcceptance => "请求不存在或狗狗主人已通过请求"@,
            Transition::AssignAccepter | Transition::DismissAccepter => "请求不存在或该用户已取消报名"@,
            Transition::ResignAcceptance => "请求不存在或已被狗狗主人取消"@,
            Transition::Volunteer
            | Transition::CancelUnaccepted
            | Transition::CancelAccepted => "请求不存在"@,
            Transition::Accept | Transition::StartWalk | Transition::FinishWalk => "代遛请求不存在"@,
        }
    }

    /// What the caller is told where the transition did not apply.
    pub fn refusal_text(&self) -> (text: String)
        ensures
            text@ == self.refusal(),
    {
        match self {
            Transition::RemoveAcceptance => "请求不存在或狗狗主人已通过请求".to_owned(),
            Transition::AssignAccepter | Transition::DismissAccepter => "请求不存在或该用户已取消报名".to_owned(),
            Transition::ResignAcceptance => "请求不存在或已被狗狗主人取消".to_owned(),
            Transition::Volunteer
            | Transition::CancelUnaccepted
            | Transition::CancelAccepted => "请求不存在".to_owned(),
            Transition::Accept | Transition::StartWalk | Transition::FinishWalk => "代遛请求不存在".to_owned(),
        }
    }

    /// The guard and the change of the transition, for a store to execute
    /// as one step.
    pub fn plan(&self, request_id: &str, walker: &str, now: i64) -> (plan: Plan)
        ensures
            plan.query@ == self.guard(request_id@, walker@),
            plan.update@ == self.change(walker@, now),
    {
        let mut query = WalkRequestQuery::default();
        let mut update = WalkRequestUpdate::default();
        query.id = Some(request_id.to_owned());
        match self {
            Transition::Accept => {
                query.accepted_by_is_null = Some(true);
                update.accepted_by = Some(walker.to_owned());
                update.accepted_at = Some(now);
            },
            Transition::Volunteer => {
                update.add_to_acceptances = Some(walker.to_owned());
            },
            Transition::RemoveAcceptance => {
                query.accepted_by_neq = Some(walker.to_owned());
                update.remove_from_acceptances = Some(walker.to_owned());
            },
            Transition::AssignAccepter => {
                let mut wanted: Vec<String> = Vec::new();
                wanted.push(walker.to_owned());
                assert(crate::text::texts(wanted@) =~= seq![walker@]);
                query.accepted_by_is_null = Some(true);
                query.acceptances_includes_all = Some(wanted);
                update.accepted_by = Some(walker.to_owned());
                update.accepted_at = Some(now);
            },
            Transition::DismissAccepter => {
                query.accepted_by = Some(walker.to_owned());
                update.unset_accepted_by = true;
                update.unset_accepted_at = true;
            },
            Transition::ResignAcceptance => {
                query.accepted_by = Some(walker.to_owned());
                update.unset_accepted_by = true;
                update.unset_accepted_at = true;
                update.remove_from_acceptances = Some(walker.to_owned());
            },
            Transition::CancelUnaccepted => {
                query.accepted_by_is_null = Some(true);
                update.canceled_at = Some(now);
            },
            Transition::CancelAccepted => {
                query.accepted_by = Some(walker.to_owned());
                update.canceled_at = Some(now);
            },
            Transition::StartWalk => {
                query.accepted_by = Some(walker.to_owned());
                update.started_at = Some(now);
            },
            Transition::FinishWalk => {
                query.accepted_by = Some(walker.to_owned());
                update.finished_at = Some(now);
            },
        }
        Plan { query, update }
    }

    /// Reads the number of requests that a transition changed: it went
    /// through where that is exactly one.
    pub fn settle(&self, affected: u64) -> (outcome: Result<(), Error>)
        ensures
            affected == 1 ==> outcome == Ok::<(), Error>(()),
            affected != 1 ==> outcome == Err::<(), Error>(Error::GuardFailure(*self)),
    {
        if affected == 1 {
            Ok(())
        } else {
            Err(Error::GuardFailure(*self))
        }
    }
}

impl Transition {
    /// Whether the transition applies to `r`.
    pub open spec fn applies(self, request_id: Seq<char>, walker: Seq<char>, r: WalkRequestView) -> bool {
        self.guard(request_id, walker).matches(r)
    }

    /// The request after an attempt at the transition: changed where the
    /// guard holds, else as it was.
    pub open spec fn attempt(
        self,
        request_id: Seq<char>,
        walker: Seq<char>,
        now: i64,
        r: WalkRequestView,
    ) -> WalkRequestView {
        if self.applies(request_id, walker, r) {
            self.change(walker, now).apply(r)
        } else {
            r
        }
    }
}

/// A guard names one walker among the volunteers exactly when the walker
/// volunteered.
pub proof fn lemma_includes_one(have: Seq<Seq<char>>, walker: Seq<char>)
    ensures
        includes_all(have, seq![walker]) <==> have.contains(walker),
{
    assert(seq![walker][0] == walker);
}

/// What each guard asks of a request, spelled out.
pub proof fn lemma_guards(request_id: Seq<char>, walker: Seq<char>, r: WalkRequestView)
    ensures
        Transition::Accept.applies(request_id, walker, r) <==> r.id == request_id
            && r.accepted_by is None,
        Transition::Volunteer.applies(request_id, walker, r) <==> r.id == request_id,
        Transition::RemoveAcceptance.applies(request_id, walker, r) <==> r.id == request_id
            && r.accepted_by != Some(walker),
        Transition::AssignAccepter.applies(request_id, walker, r) <==> r.id == request_id
            && r.accepted_by is None && r.volunteers().contains(walker),
        Transition::DismissAccepter.applies(request_id, walker, r) <==> r.id == request_id
            && r.accepted_by == Some(walker),
        Transition::ResignAcceptance.applies(request_id, walker, r) <==> r.id == request_id
            && r.accepted_by == Some(walker),
        Transition::CancelUnaccepted.applies(request_id, walker, r) <==> r.id == request_id
            && r.accepted_by is None,
        Transition::CancelAccepted.applies(request_id, walker, r) <==> r.id == request_id
            && r.accepted_by == Some(walker),
        Transition::StartWalk.applies(request_id, walker, r) <==> r.id == request_id
            && r.accepted_by == Some(walker),
        Transition::FinishWalk.applies(request_id, walker, r) <==> r.id == request_id
            && r.accepted_by == Some(walker),
{
    lemma_includes_one(r.volunteers(), walker);
}

/// Only the walker who is assigned to a request can start or finish its
/// walk.
pub proof fn lemma_walk_belongs_to_assigned_walker(
    request_id: Seq<char>,
    walker: Seq<char>,
    r: WalkRequestView,
)
    requires
        Transition::StartWalk.applies(request_id, walker, r) || Transition::FinishWalk.applies(
            request_id,
            walker,
            r,
        ),
    ensures
        r.accepted_by == Some(walker),
{
}

/// Every transition keeps the assigned walker and the time of the
/// assignment paired, keeps the volunteers free of duplicates, and leaves
/// the id and the owner of the request alone.
pub proof fn lemma_transitions_keep_invariants(
    transition: Transition,
    request_id: Seq<char>,
    walker: Seq<char>,
    now: i64,
    r: WalkRequestView,
)
    ensures
        r.assignment_paired() ==> transition.attempt(request_id, walker, now, r).assignment_paired(),
        r.wf() ==> transition.attempt(request_id, walker, now, r).wf(),
        transition.attempt(request_id, walker, now, r).id == r.id,
        transition.attempt(request_id, walker, now, r).created_by == r.created_by,
{
    if r.wf() {
        lemma_apply_keeps_wf(transition.change(walker, now), r);
    }
}

/// What a transition that applies leaves behind: a cancellation leaves
/// the request canceled; an assignment leaves it accepted by the walker at
/// the time given, unless it was canceled before; a dismissal or a
/// resignation leaves nobody assigned; volunteering and withdrawing leave
/// the status alone; a start and a finish record their time.
pub proof fn lemma_outcome_of_transition(
    transition: Transition,
    request_id: Seq<char>,
    walker: Seq<char>,
    now: i64,
    r: WalkRequestView,
)
    requires
        transition.applies(request_id, walker, r),
    ensures
        ({
            let after = transition.attempt(request_id, walker, now, r);
            &&& (transition == Transition::CancelUnaccepted || transition
                == Transition::CancelAccepted) ==> after.canceled_at == Some(now) && after.status()
                == Status::Canceled
            &&& (transition == Transition::Accept || transition == Transition::AssignAccepter)
                ==> after.accepted_by == Some(walker) && after.accepted_at == Some(now) && (
            r.canceled_at is None ==> after.status() == Status::Accepted)
            &&& (transition == Transition::DismissAccepter || transition
                == Transition::ResignAcceptance) ==> after.accepted_by is None && after.accepted_at
                is None
            &&& transition == Transition::ResignAcceptance ==> !after.volunteers().contains(walker)
            &&& transition == Transition::RemoveAcceptance ==> !after.volunteers().contains(walker)
                && after.status() == r.status()
            &&& transition == Transition::Volunteer ==> after.volunteers().contains(walker)
                && after.status() == r.status()
            &&& transition == Transition::StartWalk ==> after.started_at == Some(now)
            &&& transition == Transition::FinishWalk ==> after.finished_at == Some(now)
        }),
{
    match r.acceptances {
        Some(list) => {
            lemma_with_once(list, walker);
            lemma_without(list, walker);
        },
        None => {
            assert(seq![walker][0] == walker);
            assert(!Seq::<Seq<char>>::empty().contains(walker));
        },
    }
}

/// After the owner dismissed a walker from a request, the walker cannot
/// resign from it: whether or not the dismissal applied, the guard of the
/// resignation fails, and the request stays as the dismissal left it.
pub proof fn lemma_resign_after_dismiss_is_refused(
    request_id: Seq<char>,
    walker: Seq<char>,
    dismissed_at: i64,
    resigned_at: i64,
    r: WalkRequestView,
)
    ensures
        ({
            let dismissed = Transition::DismissAccepter.attempt(request_id, walker, dismissed_at, r);
            &&& !Transition::ResignAcceptance.applies(request_id, walker, dismissed)
            &&& Transition::ResignAcceptance.attempt(request_id, walker, resigned_at, dismissed)
                == dismissed
        }),
{
}

/// One attempt to assign a walker to a request: directly, or from among
/// the volunteers.
pub ghost struct Attempt {
    pub direct: bool,
    pub walker: Seq<char>,
    pub now: i64,
}

impl Attempt {
    /// The transition that is attempted.
    pub open spec fn transition(self) -> Transition {
        if self.direct {
            Transition::Accept
        } else {
            Transition::AssignAccepter
        }
    }

    /// The attempt can succeed on a request that nobody is assigned to: it
    /// is direct, or its walker volunteered.
    pub open spec fn eligible(self, r: WalkRequestView) -> bool {
        self.direct || r.volunteers().contains(self.walker)
    }
}

/// The request after the attempts were made on it one after another.
pub open spec fn after_attempts(r: WalkRequestView, attempts: Seq<Attempt>) -> WalkRequestView
    decreases attempts.len(),
{
    if attempts.len() == 0 {
        r
    } else {
        let a = attempts.last();
        a.transition().attempt(r.id, a.walker, a.now, after_attempts(r, attempts.drop_last()))
    }
}

/// How many of the attempts, made one after another, applied.
pub open spec fn successes(r: WalkRequestView, attempts: Seq<Attempt>) -> nat
    decreases attempts.len(),
{
    if attempts.len() == 0 {
        0
    } else {
        let a = attempts.last();
        let before = after_attempts(r, attempts.drop_last());
        let won: nat = if a.transition().applies(r.id, a.walker, before) {
            1
        } else {
            0
        };
        successes(r, attempts.drop_last()) + won
    }
}

/// Of any number of attempts to assign a walker to one unassigned request,
/// in whatever order the store takes them, at most one applies; and
/// exactly one does where any of them can. All others find the guard
/// failed.
pub proof fn lemma_one_attempt_wins(r: WalkRequestView, attempts: Seq<Attempt>)
    requires
        r.accepted_by is None,
    ensures
        successes(r, attempts) <= 1,
        successes(r, attempts) == 1 <==> exists|i: int|
            0 <= i < attempts.len() && #[trigger] attempts[i].eligible(r),
        successes(r, attempts) == 0 ==> after_attempts(r, attempts) == r,
        successes(r, attempts) == 1 ==> after_attempts(r, attempts).accepted_by is Some,
        after_attempts(r, attempts).id == r.id,
        after_attempts(r, attempts).acceptances == r.acceptances,
    decreases attempts.len(),
{
    if attempts.len() > 0 {
        let a = attempts.last();
        let earlier = attempts.drop_last();
        let before = after_attempts(r, earlier);
        lemma_one_attempt_wins(r, earlier);
        lemma_guards(r.id, a.walker, before);
        if successes(r, earlier) == 1 {
            let i = choose|i: int| 0 <= i < earlier.len() && #[trigger] earlier[i].eligible(r);
            assert(attempts[i].eligible(r));
        } else {
            if exists|i: int| 0 <= i < attempts.len() && #[trigger] attempts[i].eligible(r) {
                let i = choose|i: int| 0 <= i < attempts.len() && #[trigger] attempts[i].eligible(r);
                if i < earlier.len() {
                    assert(earlier[i].eligible(r));
                }
                assert(a.eligible(r));
            }
            if a.eligible(r) {
                assert(attempts[attempts.len() - 1].eligible(r));
            }
        }
    }
}

} // verus!
