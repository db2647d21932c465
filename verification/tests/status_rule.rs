use walk_requests::entities::{Dog, Status, WalkRequest};

fn request(
    canceled_at: Option<i64>,
    accepted_at: Option<i64>,
    started_at: Option<i64>,
    finished_at: Option<i64>,
) -> WalkRequest {
    WalkRequest { canceled_at, accepted_at, started_at, finished_at, ..Default::default() }
}

#[test]
fn a_request_without_timestamps_is_waiting() {
    assert_eq!(request(None, None, None, None).status(), Status::Waiting);
    assert_eq!(WalkRequest::default().status(), Status::Waiting);
}

#[test]
fn each_timestamp_alone_gives_its_status() {
    assert_eq!(request(Some(1), None, None, None).status(), Status::Canceled);
    assert_eq!(request(None, Some(1), None, None).status(), Status::Accepted);
    assert_eq!(request(None, None, Some(1), None).status(), Status::Started);
    assert_eq!(request(None, None, None, Some(1)).status(), Status::Finished);
}

#[test]
fn cancellation_outranks_everything() {
    assert_eq!(request(Some(4), Some(1), Some(2), Some(3)).status(), Status::Canceled);
    assert_eq!(request(Some(4), None, None, Some(3)).status(), Status::Canceled);
}

#[test]
fn assignment_outranks_start_and_finish() {
    assert_eq!(request(None, Some(1), Some(2), Some(3)).status(), Status::Accepted);
    assert_eq!(request(None, Some(1), None, Some(3)).status(), Status::Accepted);
}

#[test]
fn start_outranks_finish() {
    assert_eq!(request(None, None, Some(2), Some(3)).status(), Status::Started);
}

#[test]
fn the_value_of_a_timestamp_does_not_matter() {
    assert_eq!(request(Some(0), None, None, None).status(), Status::Canceled);
    assert_eq!(request(Some(i64::MIN), None, None, None).status(), Status::Canceled);
    assert_eq!(request(None, Some(i64::MAX), None, None).status(), Status::Accepted);
    assert_eq!(request(None, None, Some(-1), None).status(), Status::Started);
}

#[test]
fn status_depends_on_the_four_timestamps_alone() {
    let plain = request(None, Some(7), None, None);
    let busy = WalkRequest {
        id: "42".to_string(),
        dogs: vec![Dog { id: "d1".to_string() }],
        should_start_after: Some(1),
        should_start_before: Some(2),
        should_end_after: Some(3),
        should_end_before: Some(4),
        latitude: 5,
        longitude: 6,
        distance: Some(9),
        created_by: "owner1".to_string(),
        accepted_by: Some("w1".to_string()),
        acceptances: Some(vec!["w1".to_string(), "w2".to_string()]),
        created_at: Some(10),
        updated_at: Some(11),
        ..request(None, Some(7), None, None)
    };
    assert_eq!(plain.status(), busy.status());
    assert_eq!(busy.status(), Status::Accepted);
}

#[test]
fn status_is_stable_under_repeated_evaluation() {
    let r = request(None, None, Some(2), Some(3));
    let first = r.status();
    for _ in 0..10 {
        assert_eq!(r.status(), first);
    }
    assert_eq!(r, request(None, None, Some(2), Some(3)));
}

#[test]
fn derive_agrees_with_the_request() {
    let cases = [None, Some(5i64)];
    for c in cases {
        for a in cases {
            for s in cases {
                for f in cases {
                    assert_eq!(Status::derive(c, a, s, f), request(c, a, s, f).status());
                }
            }
        }
    }
}

#[test]
fn status_names() {
    assert_eq!(Status::Waiting.name(), "Waiting");
    assert_eq!(Status::Accepted.name(), "Accepted");
    assert_eq!(Status::Started.name(), "Started");
    assert_eq!(Status::Finished.name(), "Finished");
    assert_eq!(Status::Canceled.name(), "Canceled");
}

#[test]
fn the_field_of_creation_is_named() {
    assert_eq!(WalkRequest::created_at(), "created_at");
}

#[test]
fn a_duplicate_equals_the_request() {
    let r = WalkRequest {
        id: "3".to_string(),
        dogs: vec![Dog { id: "d1".to_string() }, Dog { id: "d2".to_string() }],
        accepted_by: Some("w1".to_string()),
        acceptances: Some(vec!["w1".to_string()]),
        distance: Some(12),
        ..Default::default()
    };
    assert_eq!(r.duplicate(), r);
    assert_eq!(WalkRequest::default().duplicate(), WalkRequest::default());
}
