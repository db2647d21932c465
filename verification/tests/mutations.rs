use walk_requests::entities::{Dog, WalkRequest};
use walk_requests::text::{contains_text, copy_texts, insert_text_once, remove_text};
use walk_requests::update::WalkRequestUpdate;

fn texts(items: &[&str]) -> Vec<String> {
    items.iter().map(|s| s.to_string()).collect()
}

fn sample() -> WalkRequest {
    WalkRequest {
        id: "7".to_string(),
        dogs: vec![Dog { id: "d1".to_string() }],
        should_start_after: Some(10),
        should_start_before: Some(20),
        should_end_after: Some(30),
        should_end_before: Some(40),
        latitude: 1,
        longitude: 2,
        created_by: "owner1".to_string(),
        accepted_by: Some("w1".to_string()),
        accepted_at: Some(100),
        acceptances: Some(texts(&["w1", "w2"])),
        created_at: Some(5),
        updated_at: Some(5),
        ..Default::default()
    }
}

fn applied(update: &WalkRequestUpdate, r: &WalkRequest) -> WalkRequest {
    let mut r = r.clone();
    update.apply(&mut r);
    r
}

#[test]
fn the_default_update_changes_nothing() {
    let u = WalkRequestUpdate::default();
    assert_eq!(applied(&u, &sample()), sample());
    assert_eq!(applied(&u, &WalkRequest::default()), WalkRequest::default());
    assert!(!u.unset_accepted_by);
    assert!(!u.unset_accepted_at);
}

#[test]
fn assignments_overwrite() {
    let u = WalkRequestUpdate {
        dogs: Some(vec![Dog { id: "d8".to_string() }, Dog { id: "d9".to_string() }]),
        should_start_after: Some(11),
        should_start_before: Some(21),
        should_end_after: Some(31),
        should_end_before: Some(41),
        latitude: Some(-3),
        longitude: Some(-4),
        accepted_by: Some("w9".to_string()),
        accepted_at: Some(200),
        canceled_at: Some(300),
        started_at: Some(400),
        finished_at: Some(500),
        ..Default::default()
    };
    let expected = WalkRequest {
        dogs: vec![Dog { id: "d8".to_string() }, Dog { id: "d9".to_string() }],
        should_start_after: Some(11),
        should_start_before: Some(21),
        should_end_after: Some(31),
        should_end_before: Some(41),
        latitude: -3,
        longitude: -4,
        accepted_by: Some("w9".to_string()),
        accepted_at: Some(200),
        canceled_at: Some(300),
        started_at: Some(400),
        finished_at: Some(500),
        ..sample()
    };
    assert_eq!(applied(&u, &sample()), expected);
}

#[test]
fn a_single_assignment_leaves_the_rest() {
    let u = WalkRequestUpdate { started_at: Some(400), ..Default::default() };
    assert_eq!(applied(&u, &sample()), WalkRequest { started_at: Some(400), ..sample() });
    let dogs = WalkRequestUpdate { dogs: Some(vec![]), ..Default::default() };
    assert_eq!(applied(&dogs, &sample()), WalkRequest { dogs: vec![], ..sample() });
}

#[test]
fn clears_unset_the_assignment() {
    let u = WalkRequestUpdate {
        unset_accepted_by: true,
        unset_accepted_at: true,
        ..Default::default()
    };
    let expected = WalkRequest { accepted_by: None, accepted_at: None, ..sample() };
    assert_eq!(applied(&u, &sample()), expected);
    assert_eq!(applied(&u, &expected), expected);
    let only_walker = WalkRequestUpdate { unset_accepted_by: true, ..Default::default() };
    assert_eq!(applied(&only_walker, &sample()), WalkRequest { accepted_by: None, ..sample() });
}

#[test]
fn a_clear_wins_over_an_assignment_of_the_same_field() {
    let u = WalkRequestUpdate {
        accepted_by: Some("w9".to_string()),
        accepted_at: Some(200),
        unset_accepted_by: true,
        unset_accepted_at: true,
        ..Default::default()
    };
    let expected = WalkRequest { accepted_by: None, accepted_at: None, ..sample() };
    assert_eq!(applied(&u, &sample()), expected);
}

#[test]
fn adding_a_volunteer() {
    let u = WalkRequestUpdate { add_to_acceptances: Some("w3".to_string()), ..Default::default() };
    let expected = WalkRequest { acceptances: Some(texts(&["w1", "w2", "w3"])), ..sample() };
    assert_eq!(applied(&u, &sample()), expected);
}

#[test]
fn adding_a_volunteer_creates_the_list() {
    let u = WalkRequestUpdate { add_to_acceptances: Some("w1".to_string()), ..Default::default() };
    let r = WalkRequest { acceptances: None, ..sample() };
    assert_eq!(applied(&u, &r), WalkRequest { acceptances: Some(texts(&["w1"])), ..sample() });
    let empty = WalkRequest { acceptances: Some(vec![]), ..sample() };
    assert_eq!(applied(&u, &empty), WalkRequest { acceptances: Some(texts(&["w1"])), ..sample() });
}

#[test]
fn adding_the_same_volunteer_twice_leaves_one_occurrence() {
    let u = WalkRequestUpdate { add_to_acceptances: Some("w3".to_string()), ..Default::default() };
    let once = applied(&u, &sample());
    let twice = applied(&u, &once);
    assert_eq!(twice, once);
    let list = twice.acceptances.unwrap();
    assert_eq!(list.iter().filter(|w| w.as_str() == "w3").count(), 1);
    assert_eq!(list, texts(&["w1", "w2", "w3"]));

    let present = WalkRequestUpdate {
        add_to_acceptances: Some("w1".to_string()),
        ..Default::default()
    };
    assert_eq!(applied(&present, &sample()), sample());

    let fresh = WalkRequest { acceptances: None, ..sample() };
    let again = applied(&u, &applied(&u, &fresh));
    assert_eq!(again.acceptances, Some(texts(&["w3"])));
}

#[test]
fn removing_a_volunteer() {
    let u = WalkRequestUpdate {
        remove_from_acceptances: Some("w1".to_string()),
        ..Default::default()
    };
    assert_eq!(applied(&u, &sample()), WalkRequest { acceptances: Some(texts(&["w2"])), ..sample() });
    let absent = WalkRequestUpdate {
        remove_from_acceptances: Some("w9".to_string()),
        ..Default::default()
    };
    assert_eq!(applied(&absent, &sample()), sample());
    let none = WalkRequest { acceptances: None, ..sample() };
    assert_eq!(applied(&u, &none), none);
    let last = WalkRequest { acceptances: Some(texts(&["w1"])), ..sample() };
    assert_eq!(applied(&u, &last), WalkRequest { acceptances: Some(vec![]), ..sample() });
}

#[test]
fn removing_takes_every_occurrence() {
    let r = WalkRequest { acceptances: Some(texts(&["w1", "w2", "w1", "w3", "w1"])), ..sample() };
    let u = WalkRequestUpdate {
        remove_from_acceptances: Some("w1".to_string()),
        ..Default::default()
    };
    assert_eq!(applied(&u, &r).acceptances, Some(texts(&["w2", "w3"])));
}

#[test]
fn add_then_remove_in_one_update() {
    let same = WalkRequestUpdate {
        add_to_acceptances: Some("w3".to_string()),
        remove_from_acceptances: Some("w3".to_string()),
        ..Default::default()
    };
    assert_eq!(applied(&same, &sample()), sample());
    let swap = WalkRequestUpdate {
        add_to_acceptances: Some("w3".to_string()),
        remove_from_acceptances: Some("w1".to_string()),
        ..Default::default()
    };
    assert_eq!(applied(&swap, &sample()).acceptances, Some(texts(&["w2", "w3"])));
}

#[test]
fn all_four_categories_at_once() {
    let u = WalkRequestUpdate {
        canceled_at: Some(900),
        unset_accepted_by: true,
        unset_accepted_at: true,
        add_to_acceptances: Some("w3".to_string()),
        remove_from_acceptances: Some("w2".to_string()),
        ..Default::default()
    };
    let expected = WalkRequest {
        canceled_at: Some(900),
        accepted_by: None,
        accepted_at: None,
        acceptances: Some(texts(&["w1", "w3"])),
        ..sample()
    };
    assert_eq!(applied(&u, &sample()), expected);
}

#[test]
fn no_update_touches_identity_or_bookkeeping() {
    let u = WalkRequestUpdate {
        dogs: Some(vec![]),
        latitude: Some(9),
        longitude: Some(9),
        accepted_by: Some("x".to_string()),
        accepted_at: Some(1),
        canceled_at: Some(2),
        started_at: Some(3),
        finished_at: Some(4),
        add_to_acceptances: Some("y".to_string()),
        remove_from_acceptances: Some("w1".to_string()),
        ..Default::default()
    };
    let r = WalkRequest { distance: Some(77), ..sample() };
    let after = applied(&u, &r);
    assert_eq!(after.id, "7");
    assert_eq!(after.created_by, "owner1");
    assert_eq!(after.created_at, Some(5));
    assert_eq!(after.updated_at, Some(5));
    assert_eq!(after.distance, Some(77));
}

#[test]
fn text_lists() {
    let list = texts(&["a", "b", "a"]);
    assert!(contains_text(&list, &"a".to_string()));
    assert!(contains_text(&list, &"b".to_string()));
    assert!(!contains_text(&list, &"c".to_string()));
    assert!(!contains_text(&vec![], &"a".to_string()));
    assert_eq!(copy_texts(&list), list);
    assert_eq!(remove_text(&list, &"a".to_string()), texts(&["b"]));
    assert_eq!(remove_text(&list, &"c".to_string()), list);
    assert_eq!(insert_text_once(&list, &"c".to_string()), texts(&["a", "b", "a", "c"]));
    assert_eq!(insert_text_once(&list, &"b".to_string()), list);
    assert_eq!(insert_text_once(&vec![], &"b".to_string()), texts(&["b"]));
}
