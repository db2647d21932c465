use walk_requests::error::{Error, ErrorKind, Invalid};
use walk_requests::lifecycle::{Plan, Transition};
use walk_requests::query::WalkRequestQuery;
use walk_requests::update::WalkRequestUpdate;

const ALL: [Transition; 10] = [
    Transition::Accept,
    Transition::Volunteer,
    Transition::RemoveAcceptance,
    Transition::AssignAccepter,
    Transition::DismissAccepter,
    Transition::ResignAcceptance,
    Transition::CancelUnaccepted,
    Transition::CancelAccepted,
    Transition::StartWalk,
    Transition::FinishWalk,
];

fn id() -> Option<String> {
    Some("r1".to_string())
}

fn walker() -> Option<String> {
    Some("w1".to_string())
}

#[test]
fn accept_plan() {
    let expected = Plan {
        query: WalkRequestQuery { id: id(), accepted_by_is_null: Some(true), ..Default::default() },
        update: WalkRequestUpdate {
            accepted_by: walker(),
            accepted_at: Some(1000),
            ..Default::default()
        },
    };
    assert_eq!(Transition::Accept.plan("r1", "w1", 1000), expected);
}

#[test]
fn volunteer_plan() {
    let expected = Plan {
        query: WalkRequestQuery { id: id(), ..Default::default() },
        update: WalkRequestUpdate { add_to_acceptances: walker(), ..Default::default() },
    };
    assert_eq!(Transition::Volunteer.plan("r1", "w1", 1000), expected);
}

#[test]
fn remove_acceptance_plan() {
    let expected = Plan {
        query: WalkRequestQuery { id: id(), accepted_by_neq: walker(), ..Default::default() },
        update: WalkRequestUpdate { remove_from_acceptances: walker(), ..Default::default() },
    };
    assert_eq!(Transition::RemoveAcceptance.plan("r1", "w1", 1000), expected);
}

#[test]
fn assign_accepter_plan() {
    let expected = Plan {
        query: WalkRequestQuery {
            id: id(),
            accepted_by_is_null: Some(true),
            acceptances_includes_all: Some(vec!["w1".to_string()]),
            ..Default::default()
        },
        update: WalkRequestUpdate {
            accepted_by: walker(),
            accepted_at: Some(-5),
            ..Default::default()
        },
    };
    assert_eq!(Transition::AssignAccepter.plan("r1", "w1", -5), expected);
}

#[test]
fn dismiss_accepter_plan() {
    let expected = Plan {
        query: WalkRequestQuery { id: id(), accepted_by: walker(), ..Default::default() },
        update: WalkRequestUpdate {
            unset_accepted_by: true,
            unset_accepted_at: true,
            ..Default::default()
        },
    };
    assert_eq!(Transition::DismissAccepter.plan("r1", "w1", 1000), expected);
}

#[test]
fn resign_acceptance_plan() {
    let expected = Plan {
        query: WalkRequestQuery { id: id(), accepted_by: walker(), ..Default::default() },
        update: WalkRequestUpdate {
            unset_accepted_by: true,
            unset_accepted_at: true,
            remove_from_acceptances: walker(),
            ..Default::default()
        },
    };
    assert_eq!(Transition::ResignAcceptance.plan("r1", "w1", 1000), expected);
}

#[test]
fn cancel_unaccepted_plan() {
    let expected = Plan {
        query: WalkRequestQuery { id: id(), accepted_by_is_null: Some(true), ..Default::default() },
        update: WalkRequestUpdate { canceled_at: Some(1000), ..Default::default() },
    };
    assert_eq!(Transition::CancelUnaccepted.plan("r1", "w1", 1000), expected);
    assert_eq!(Transition::CancelUnaccepted.plan("r1", "", 1000), expected);
}

#[test]
fn cancel_accepted_plan() {
    let expected = Plan {
        query: WalkRequestQuery { id: id(), accepted_by: walker(), ..Default::default() },
        update: WalkRequestUpdate { canceled_at: Some(1000), ..Default::default() },
    };
    assert_eq!(Transition::CancelAccepted.plan("r1", "w1", 1000), expected);
}

#[test]
fn start_walk_plan() {
    let expected = Plan {
        query: WalkRequestQuery { id: id(), accepted_by: walker(), ..Default::default() },
        update: WalkRequestUpdate { started_at: Some(i64::MAX), ..Default::default() },
    };
    assert_eq!(Transition::StartWalk.plan("r1", "w1", i64::MAX), expected);
}

#[test]
fn finish_walk_plan() {
    let expected = Plan {
        query: WalkRequestQuery { id: id(), accepted_by: walker(), ..Default::default() },
        update: WalkRequestUpdate { finished_at: Some(0), ..Default::default() },
    };
    assert_eq!(Transition::FinishWalk.plan("r1", "w1", 0), expected);
}

#[test]
fn every_plan_names_the_request_and_is_well_formed() {
    for t in ALL {
        let plan = t.plan("some id", "some walker", 1);
        assert_eq!(plan.query.id.as_deref(), Some("some id"));
        assert_eq!(plan.query.nearby, None);
        assert!(plan.query.is_valid());
    }
}

#[test]
fn exactly_one_affected_request_is_success() {
    for t in ALL {
        assert_eq!(t.settle(1), Ok(()));
        assert_eq!(t.settle(0), Err(Error::GuardFailure(t)));
        assert_eq!(t.settle(2), Err(Error::GuardFailure(t)));
        assert_eq!(t.settle(u64::MAX), Err(Error::GuardFailure(t)));
    }
}

#[test]
fn refusals() {
    assert_eq!(Transition::RemoveAcceptance.refusal_text(), "请求不存在或狗狗主人已通过请求");
    assert_eq!(Transition::AssignAccepter.refusal_text(), "请求不存在或该用户已取消报名");
    assert_eq!(Transition::DismissAccepter.refusal_text(), "请求不存在或该用户已取消报名");
    assert_eq!(Transition::ResignAcceptance.refusal_text(), "请求不存在或已被狗狗主人取消");
    assert_eq!(Transition::CancelUnaccepted.refusal_text(), "请求不存在");
    assert_eq!(Transition::CancelAccepted.refusal_text(), "请求不存在");
    assert_eq!(Transition::Volunteer.refusal_text(), "请求不存在");
    assert_eq!(Transition::Accept.refusal_text(), "代遛请求不存在");
    assert_eq!(Transition::StartWalk.refusal_text(), "代遛请求不存在");
    assert_eq!(Transition::FinishWalk.refusal_text(), "代遛请求不存在");
}

#[test]
fn error_kinds() {
    assert_eq!(Error::Validation(Invalid::Nearby).kind(), ErrorKind::Validation);
    assert_eq!(Error::Validation(Invalid::Pagination).kind(), ErrorKind::Validation);
    assert_eq!(Error::NotFound.kind(), ErrorKind::GuardFailure);
    assert_eq!(Error::NotMatched.kind(), ErrorKind::GuardFailure);
    for t in ALL {
        assert_eq!(Error::GuardFailure(t).kind(), ErrorKind::GuardFailure);
    }
    assert_eq!(Error::Store("down".to_string()).kind(), ErrorKind::Store);
}

#[test]
fn error_messages() {
    assert_eq!(
        Error::Validation(Invalid::Nearby).message(),
        "Invalid nearby query, expect [longitude, latitude, radius]"
    );
    assert_eq!(
        Error::Validation(Invalid::Pagination).message(),
        "Invalid pagination, expect page >= 1 and size >= 0"
    );
    assert_eq!(Error::NotFound.message(), "walk request not found");
    assert_eq!(Error::NotMatched.message(), "代遛请求不存在");
    assert_eq!(Error::Store("connection reset".to_string()).message(), "connection reset");
    assert_eq!(Error::Store(String::new()).message(), "");
    for t in ALL {
        assert_eq!(Error::GuardFailure(t).message(), t.refusal_text());
    }
}
