use walk_requests::entities::{Dog, WalkRequest};
use walk_requests::query::{ids_of, includes_all_texts, includes_any_texts, WalkRequestQuery};

fn texts(items: &[&str]) -> Vec<String> {
    items.iter().map(|s| s.to_string()).collect()
}

fn sample() -> WalkRequest {
    WalkRequest {
        id: "7".to_string(),
        dogs: vec![Dog { id: "d1".to_string() }, Dog { id: "d2".to_string() }],
        created_by: "owner1".to_string(),
        accepted_by: Some("w1".to_string()),
        accepted_at: Some(100),
        acceptances: Some(texts(&["w1", "w2"])),
        ..Default::default()
    }
}

fn unassigned() -> WalkRequest {
    WalkRequest { accepted_by: None, accepted_at: None, ..sample() }
}

#[test]
fn the_empty_query_matches_everything() {
    let q = WalkRequestQuery::default();
    assert!(q.matches(&sample()));
    assert!(q.matches(&unassigned()));
    assert!(q.matches(&WalkRequest::default()));
}

#[test]
fn the_default_query_constrains_nothing() {
    let q = WalkRequestQuery::default();
    assert_eq!(
        q,
        WalkRequestQuery {
            id: None,
            dog_ids_includes_all: None,
            dog_ids_includes_any: None,
            nearby: None,
            accepted_by: None,
            accepted_by_neq: None,
            accepted_by_is_null: None,
            acceptances_includes_all: None,
            acceptances_includes_any: None,
            created_by: None,
        }
    );
}

#[test]
fn id_constraint() {
    let hit = WalkRequestQuery { id: Some("7".to_string()), ..Default::default() };
    let miss = WalkRequestQuery { id: Some("8".to_string()), ..Default::default() };
    let empty = WalkRequestQuery { id: Some(String::new()), ..Default::default() };
    assert!(hit.matches(&sample()));
    assert!(!miss.matches(&sample()));
    assert!(!empty.matches(&sample()));
    assert!(empty.matches(&WalkRequest::default()));
}

#[test]
fn dog_ids_includes_all() {
    let q = |ids: &[&str]| WalkRequestQuery {
        dog_ids_includes_all: Some(texts(ids)),
        ..Default::default()
    };
    assert!(q(&["d1"]).matches(&sample()));
    assert!(q(&["d2", "d1"]).matches(&sample()));
    assert!(q(&["d1", "d1"]).matches(&sample()));
    assert!(!q(&["d1", "d3"]).matches(&sample()));
    assert!(!q(&["d3"]).matches(&sample()));
    assert!(q(&[]).matches(&sample()));
    assert!(!q(&["d1"]).matches(&WalkRequest::default()));
}

#[test]
fn dog_ids_includes_any() {
    let q = |ids: &[&str]| WalkRequestQuery {
        dog_ids_includes_any: Some(texts(ids)),
        ..Default::default()
    };
    assert!(q(&["d1"]).matches(&sample()));
    assert!(q(&["d3", "d2"]).matches(&sample()));
    assert!(!q(&["d3", "d4"]).matches(&sample()));
    assert!(!q(&[]).matches(&sample()));
    assert!(!q(&["d1"]).matches(&WalkRequest::default()));
}

#[test]
fn accepted_by_equals() {
    let q = WalkRequestQuery { accepted_by: Some("w1".to_string()), ..Default::default() };
    assert!(q.matches(&sample()));
    assert!(!q.matches(&unassigned()));
    let other = WalkRequestQuery { accepted_by: Some("w2".to_string()), ..Default::default() };
    assert!(!other.matches(&sample()));
}

#[test]
fn accepted_by_differs() {
    let q = WalkRequestQuery { accepted_by_neq: Some("w1".to_string()), ..Default::default() };
    assert!(!q.matches(&sample()));
    assert!(q.matches(&unassigned()));
    let other = WalkRequestQuery { accepted_by_neq: Some("w2".to_string()), ..Default::default() };
    assert!(other.matches(&sample()));
}

#[test]
fn accepted_by_is_null() {
    let absent = WalkRequestQuery { accepted_by_is_null: Some(true), ..Default::default() };
    let present = WalkRequestQuery { accepted_by_is_null: Some(false), ..Default::default() };
    assert!(!absent.matches(&sample()));
    assert!(absent.matches(&unassigned()));
    assert!(present.matches(&sample()));
    assert!(!present.matches(&unassigned()));
}

#[test]
fn an_empty_walker_is_not_an_absent_one() {
    let r = WalkRequest { accepted_by: Some(String::new()), ..sample() };
    let absent = WalkRequestQuery { accepted_by_is_null: Some(true), ..Default::default() };
    let empty = WalkRequestQuery { accepted_by: Some(String::new()), ..Default::default() };
    assert!(!absent.matches(&r));
    assert!(empty.matches(&r));
    assert!(!empty.matches(&unassigned()));
}

#[test]
fn acceptances_includes_all() {
    let q = |ids: &[&str]| WalkRequestQuery {
        acceptances_includes_all: Some(texts(ids)),
        ..Default::default()
    };
    assert!(q(&["w1"]).matches(&sample()));
    assert!(q(&["w2", "w1"]).matches(&sample()));
    assert!(!q(&["w3"]).matches(&sample()));
    assert!(!q(&["w1", "w3"]).matches(&sample()));
    assert!(q(&[]).matches(&sample()));
    let none = WalkRequest { acceptances: None, ..sample() };
    assert!(!q(&["w1"]).matches(&none));
    assert!(q(&[]).matches(&none));
}

#[test]
fn acceptances_includes_any() {
    let q = |ids: &[&str]| WalkRequestQuery {
        acceptances_includes_any: Some(texts(ids)),
        ..Default::default()
    };
    assert!(q(&["w3", "w2"]).matches(&sample()));
    assert!(!q(&["w3"]).matches(&sample()));
    assert!(!q(&[]).matches(&sample()));
    let none = WalkRequest { acceptances: None, ..sample() };
    assert!(!q(&["w1"]).matches(&none));
}

#[test]
fn created_by_constraint() {
    let q = WalkRequestQuery { created_by: Some("owner1".to_string()), ..Default::default() };
    assert!(q.matches(&sample()));
    let other = WalkRequestQuery { created_by: Some("owner2".to_string()), ..Default::default() };
    assert!(!other.matches(&sample()));
}

#[test]
fn constraints_compose_with_and() {
    let both = WalkRequestQuery {
        id: Some("7".to_string()),
        accepted_by: Some("w1".to_string()),
        created_by: Some("owner1".to_string()),
        dog_ids_includes_any: Some(texts(&["d2"])),
        acceptances_includes_all: Some(texts(&["w2"])),
        ..Default::default()
    };
    assert!(both.matches(&sample()));
    let one_fails = WalkRequestQuery { created_by: Some("owner2".to_string()), ..both.clone() };
    assert!(!one_fails.matches(&sample()));
    let contradictory = WalkRequestQuery {
        accepted_by: Some("w1".to_string()),
        accepted_by_neq: Some("w1".to_string()),
        ..Default::default()
    };
    assert!(!contradictory.matches(&sample()));
    assert!(!contradictory.matches(&unassigned()));
}

#[test]
fn matching_ignores_proximity() {
    let q = WalkRequestQuery { nearby: Some(vec![1, 2, 0]), ..Default::default() };
    let far = WalkRequest { longitude: 1000, latitude: 1000, ..sample() };
    assert!(q.matches(&far));
    let malformed = WalkRequestQuery { nearby: Some(vec![1]), ..Default::default() };
    assert!(malformed.matches(&far));
}

#[test]
fn a_proximity_constraint_needs_three_components() {
    let q = |n: Vec<i64>| WalkRequestQuery { nearby: Some(n), ..Default::default() };
    assert!(WalkRequestQuery::default().is_valid());
    assert!(q(vec![1, 2, 3]).is_valid());
    assert!(q(vec![0, 0, -1]).is_valid());
    assert!(!q(vec![]).is_valid());
    assert!(!q(vec![1]).is_valid());
    assert!(!q(vec![1, 2]).is_valid());
    assert!(!q(vec![1, 2, 3, 4]).is_valid());
}

#[test]
fn list_helpers() {
    let have = texts(&["a", "b", "c"]);
    assert!(includes_all_texts(&have, &texts(&["c", "a"])));
    assert!(!includes_all_texts(&have, &texts(&["c", "d"])));
    assert!(includes_all_texts(&have, &texts(&[])));
    assert!(includes_all_texts(&texts(&[]), &texts(&[])));
    assert!(includes_any_texts(&have, &texts(&["x", "b"])));
    assert!(!includes_any_texts(&have, &texts(&["x", "y"])));
    assert!(!includes_any_texts(&have, &texts(&[])));
    assert_eq!(ids_of(&sample().dogs), texts(&["d1", "d2"]));
    assert_eq!(ids_of(&[].to_vec()), texts(&[]));
}
