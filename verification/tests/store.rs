use walk_requests::entities::{Dog, Status, WalkRequest};
use walk_requests::error::{Error, Invalid};
use walk_requests::memory::MemoryRepository;
use walk_requests::paging::Pagination;
use walk_requests::query::WalkRequestQuery;
use walk_requests::repository::{Repository, WalkRequestCreate, WalkingLocationCreate};
use walk_requests::sorting::{Order, SortBy};
use walk_requests::update::WalkRequestUpdate;

fn create(owner: &str, longitude: i64, latitude: i64) -> WalkRequestCreate {
    WalkRequestCreate {
        dogs: vec![Dog { id: "d1".to_string() }],
        should_start_after: Some(10),
        should_start_before: Some(20),
        should_end_before: Some(40),
        should_end_after: Some(30),
        latitude,
        longitude,
        created_by: owner.to_string(),
    }
}

fn created(id: &str, owner: &str, longitude: i64, latitude: i64, now: i64) -> WalkRequest {
    WalkRequest {
        id: id.to_string(),
        dogs: vec![Dog { id: "d1".to_string() }],
        should_start_after: Some(10),
        should_start_before: Some(20),
        should_end_after: Some(30),
        should_end_before: Some(40),
        latitude,
        longitude,
        created_by: owner.to_string(),
        created_at: Some(now),
        updated_at: Some(now),
        ..Default::default()
    }
}

fn ids(requests: &[WalkRequest]) -> Vec<&str> {
    requests.iter().map(|r| r.id.as_str()).collect()
}

fn all(store: &MemoryRepository) -> Vec<WalkRequest> {
    store.query_walk_requests(WalkRequestQuery::default(), None, None).unwrap()
}

/// Five requests on a line: request `i` lies at longitude `10 * i`.
fn line() -> MemoryRepository {
    let mut store = MemoryRepository::new();
    for i in 0..5 {
        let owner = if i % 2 == 0 { "even" } else { "odd" };
        store.create_walk_request_at(create(owner, 10 * i, 0), 1000 + i).unwrap();
    }
    store
}

#[test]
fn a_new_store_is_empty() {
    let store = MemoryRepository::new();
    assert_eq!(all(&store), vec![]);
    assert_eq!(store.get_walk_request("0"), Err(Error::NotFound));
    assert_eq!(store.track("0"), vec![]);
}

#[test]
fn ids_are_the_numerals_in_order_of_creation() {
    let mut store = MemoryRepository::new();
    let issued: Vec<String> =
        (0..12).map(|i| store.create_walk_request_at(create("o", 0, 0), i).unwrap()).collect();
    let expected: Vec<String> = (0..12).map(|i| i.to_string()).collect();
    assert_eq!(issued, expected);
    assert_eq!(ids(&all(&store)), expected.iter().map(|s| s.as_str()).collect::<Vec<_>>());
}

#[test]
fn a_created_request_is_stored_as_asked() {
    let mut store = MemoryRepository::new();
    let id = store.create_walk_request_at(create("owner1", 3, 4), 1234).unwrap();
    assert_eq!(id, "0");
    assert_eq!(store.get_walk_request("0"), Ok(created("0", "owner1", 3, 4, 1234)));
    assert_eq!(all(&store), vec![created("0", "owner1", 3, 4, 1234)]);
}

#[test]
fn create_through_the_capability_reads_the_clock() {
    let mut store = MemoryRepository::new();
    let id = store.create_walk_request(create("owner1", 3, 4)).unwrap();
    assert_eq!(id, "0");
    let r = store.get_walk_request(&id).unwrap();
    let now = r.created_at.unwrap();
    assert!(now > 1_600_000_000_000);
    assert_eq!(r, created("0", "owner1", 3, 4, now));
    let second = store.create_walk_request(create("owner2", 0, 0)).unwrap();
    assert_eq!(second, "1");
    assert!(store.get_walk_request("1").unwrap().created_at.unwrap() >= now);
}

#[test]
fn get_finds_by_id_only() {
    let store = line();
    assert_eq!(store.get_walk_request("3"), Ok(created("3", "odd", 30, 0, 1003)));
    assert_eq!(store.get_walk_request("5"), Err(Error::NotFound));
    assert_eq!(store.get_walk_request(""), Err(Error::NotFound));
    assert_eq!(store.get_walk_request("03"), Err(Error::NotFound));
    assert_eq!(store.get_walk_request("odd"), Err(Error::NotFound));
}

#[test]
fn update_by_id_changes_and_returns_the_request() {
    let mut store = line();
    let update = WalkRequestUpdate { started_at: Some(77), ..Default::default() };
    let expected = WalkRequest { started_at: Some(77), ..created("2", "even", 20, 0, 1002) };
    assert_eq!(store.update_walk_request("2", update.clone()), Ok(expected.clone()));
    assert_eq!(store.get_walk_request("2"), Ok(expected.clone()));
    assert_eq!(expected.status(), Status::Started);
    assert_eq!(store.get_walk_request("1"), Ok(created("1", "odd", 10, 0, 1001)));
    assert_eq!(store.update_walk_request("9", update), Err(Error::NotMatched));
    assert_eq!(all(&store).len(), 5);
}

#[test]
fn update_by_query_changes_the_first_match_only() {
    let mut store = line();
    let query = WalkRequestQuery { created_by: Some("odd".to_string()), ..Default::default() };
    let update = WalkRequestUpdate { canceled_at: Some(5), ..Default::default() };
    let expected = WalkRequest { canceled_at: Some(5), ..created("1", "odd", 10, 0, 1001) };
    assert_eq!(store.update_walk_request_by_query(query, update), Ok(expected.clone()));
    assert_eq!(
        all(&store),
        vec![
            created("0", "even", 0, 0, 1000),
            expected,
            created("2", "even", 20, 0, 1002),
            created("3", "odd", 30, 0, 1003),
            created("4", "even", 40, 0, 1004),
        ]
    );
}

#[test]
fn update_by_query_without_a_match_changes_nothing() {
    let mut store = line();
    let before = all(&store);
    let query = WalkRequestQuery { created_by: Some("nobody".to_string()), ..Default::default() };
    let update = WalkRequestUpdate { canceled_at: Some(5), ..Default::default() };
    assert_eq!(store.update_walk_request_by_query(query, update), Err(Error::NotMatched));
    assert_eq!(all(&store), before);
}

#[test]
fn update_many_changes_every_match_and_counts_them() {
    let mut store = line();
    let query = WalkRequestQuery { created_by: Some("even".to_string()), ..Default::default() };
    let update = WalkRequestUpdate {
        add_to_acceptances: Some("w1".to_string()),
        ..Default::default()
    };
    assert_eq!(store.update_walk_requests_by_query(query.clone(), update.clone()), Ok(3));
    let with = |r: WalkRequest| WalkRequest { acceptances: Some(vec!["w1".to_string()]), ..r };
    let expected = vec![
        with(created("0", "even", 0, 0, 1000)),
        created("1", "odd", 10, 0, 1001),
        with(created("2", "even", 20, 0, 1002)),
        created("3", "odd", 30, 0, 1003),
        with(created("4", "even", 40, 0, 1004)),
    ];
    assert_eq!(all(&store), expected);
    // The count is of the requests selected, changed or not.
    assert_eq!(store.update_walk_requests_by_query(query, update), Ok(3));
    assert_eq!(all(&store), expected);
}

#[test]
fn update_many_without_a_match_counts_zero() {
    let mut store = line();
    let before = all(&store);
    let query = WalkRequestQuery { id: Some("17".to_string()), ..Default::default() };
    let update = WalkRequestUpdate { canceled_at: Some(5), ..Default::default() };
    assert_eq!(store.update_walk_requests_by_query(query, update), Ok(0));
    assert_eq!(all(&store), before);
    let mut empty = MemoryRepository::new();
    assert_eq!(
        empty.update_walk_requests_by_query(WalkRequestQuery::default(), WalkRequestUpdate::default()),
        Ok(0)
    );
}

#[test]
fn a_malformed_proximity_constraint_is_refused_everywhere() {
    let mut store = line();
    let before = all(&store);
    let bad = || WalkRequestQuery { nearby: Some(vec![0, 0]), ..Default::default() };
    let update = || WalkRequestUpdate { canceled_at: Some(5), ..Default::default() };
    let refused = Error::Validation(Invalid::Nearby);
    assert_eq!(store.query_walk_requests(bad(), None, None), Err(refused.clone()));
    assert_eq!(store.update_walk_request_by_query(bad(), update()), Err(refused.clone()));
    assert_eq!(store.update_walk_requests_by_query(bad(), update()), Err(refused.clone()));
    assert_eq!(
        store.query_walk_requests(bad(), None, Some(Pagination::new(0, 0))),
        Err(refused.clone())
    );
    let too_many = WalkRequestQuery { nearby: Some(vec![0, 0, 5, 5]), ..Default::default() };
    assert_eq!(store.query_walk_requests(too_many, None, None), Err(refused.clone()));
    let empty = WalkRequestQuery { nearby: Some(vec![]), ..Default::default() };
    assert_eq!(store.query_walk_requests(empty, None, None), Err(refused));
    assert_eq!(all(&store), before);
}

#[test]
fn a_page_that_does_not_exist_is_refused() {
    let store = line();
    let refused = Err(Error::Validation(Invalid::Pagination));
    assert_eq!(
        store.query_walk_requests(WalkRequestQuery::default(), None, Some(Pagination::new(0, 5))),
        refused
    );
    let near = WalkRequestQuery { nearby: Some(vec![0, 0, 100]), ..Default::default() };
    assert_eq!(store.query_walk_requests(near, None, Some(Pagination::new(1, -1))), refused);
}

#[test]
fn a_plain_query_filters_in_store_order() {
    let store = line();
    let query = WalkRequestQuery { created_by: Some("even".to_string()), ..Default::default() };
    let found = store.query_walk_requests(query, None, None).unwrap();
    assert_eq!(ids(&found), ["0", "2", "4"]);
    assert!(found.iter().all(|r| r.distance.is_none()));
}

#[test]
fn a_plain_query_orders_then_pages() {
    let store = line();
    let newest_first = Some(SortBy { field: "created_at".to_string(), order: Order::Desc });
    let found = store
        .query_walk_requests(
            WalkRequestQuery::default(),
            newest_first.clone(),
            Some(Pagination::new(1, 2)),
        )
        .unwrap();
    assert_eq!(ids(&found), ["4", "3"]);
    let found = store
        .query_walk_requests(WalkRequestQuery::default(), newest_first, Some(Pagination::new(3, 2)))
        .unwrap();
    assert_eq!(ids(&found), ["0"]);
}

#[test]
fn distance_is_measured_along_the_grid() {
    let mut store = MemoryRepository::new();
    store.create_walk_request_at(create("o", 3, 4), 1).unwrap();
    store.create_walk_request_at(create("o", -3, -4), 2).unwrap();
    store.create_walk_request_at(create("o", 10, 0), 3).unwrap();
    let near = WalkRequestQuery { nearby: Some(vec![0, 0, 100]), ..Default::default() };
    let found = store.query_walk_requests(near, None, None).unwrap();
    let distances: Vec<(&str, Option<u64>)> =
        found.iter().map(|r| (r.id.as_str(), r.distance)).collect();
    assert_eq!(distances, [("0", Some(7)), ("1", Some(7)), ("2", Some(10))]);
    let from = WalkRequestQuery { nearby: Some(vec![10, -1, 100]), ..Default::default() };
    let found = store.query_walk_requests(from, None, None).unwrap();
    let distances: Vec<(&str, Option<u64>)> =
        found.iter().map(|r| (r.id.as_str(), r.distance)).collect();
    assert_eq!(distances, [("2", Some(1)), ("0", Some(12)), ("1", Some(16))]);
}

#[test]
fn distances_at_the_ends_of_the_range() {
    let mut store = MemoryRepository::new();
    store.create_walk_request_at(create("o", i64::MAX, i64::MAX), 1).unwrap();
    store.create_walk_request_at(create("o", i64::MIN, i64::MIN), 2).unwrap();
    store.create_walk_request_at(create("o", 0, 0), 3).unwrap();
    let near = WalkRequestQuery { nearby: Some(vec![i64::MIN, i64::MIN, i64::MAX]), ..Default::default() };
    let found = store.query_walk_requests(near, None, None).unwrap();
    assert_eq!(ids(&found), ["1"]);
    assert_eq!(found[0].distance, Some(0));
    let near = WalkRequestQuery { nearby: Some(vec![0, 0, i64::MAX]), ..Default::default() };
    let found = store.query_walk_requests(near, None, None).unwrap();
    assert_eq!(ids(&found), ["2"]);
    let near = WalkRequestQuery { nearby: Some(vec![1, 0, i64::MAX]), ..Default::default() };
    let found = store.query_walk_requests(near, None, None).unwrap();
    assert_eq!(ids(&found), ["2"]);
    assert_eq!(found[0].distance, Some(1));
}

#[test]
fn nothing_beyond_the_radius_is_returned() {
    let store = line();
    for radius in [-1, 0, 5, 10, 25, 40, 1000] {
        let near = WalkRequestQuery { nearby: Some(vec![0, 0, radius]), ..Default::default() };
        let found = store.query_walk_requests(near, None, None).unwrap();
        let expected: Vec<String> =
            (0..5i64).filter(|i| 10 * i <= radius).map(|i| i.to_string()).collect();
        assert_eq!(ids(&found), expected.iter().map(|s| s.as_str()).collect::<Vec<_>>());
        for r in &found {
            assert_eq!(r.distance, Some(r.longitude as u64));
            assert!(r.distance.unwrap() as i64 <= radius);
        }
    }
}

#[test]
fn the_nearest_comes_first() {
    let store = line();
    let near = WalkRequestQuery { nearby: Some(vec![40, 0, 1000]), ..Default::default() };
    let found = store.query_walk_requests(near, None, None).unwrap();
    assert_eq!(ids(&found), ["4", "3", "2", "1", "0"]);
    assert_eq!(found[0].distance, Some(0));
    let near = WalkRequestQuery { nearby: Some(vec![14, 0, 1000]), ..Default::default() };
    let found = store.query_walk_requests(near, None, None).unwrap();
    assert_eq!(ids(&found), ["1", "2", "0", "3", "4"]);
    assert_eq!(
        found.iter().map(|r| r.distance.unwrap()).collect::<Vec<_>>(),
        [4, 6, 14, 16, 26]
    );
}

#[test]
fn requests_equally_far_keep_the_store_order() {
    let store = line();
    let near = WalkRequestQuery { nearby: Some(vec![20, 0, 1000]), ..Default::default() };
    let found = store.query_walk_requests(near, None, None).unwrap();
    assert_eq!(ids(&found), ["2", "1", "3", "0", "4"]);
}

#[test]
fn proximity_composes_with_the_other_constraints() {
    let store = line();
    let near = WalkRequestQuery {
        nearby: Some(vec![40, 0, 25]),
        created_by: Some("even".to_string()),
        ..Default::default()
    };
    let found = store.query_walk_requests(near, None, None).unwrap();
    assert_eq!(ids(&found), ["4", "2"]);
}

#[test]
fn an_explicit_order_reorders_the_page_of_the_nearest() {
    let store = line();
    let near = || WalkRequestQuery { nearby: Some(vec![40, 0, 1000]), ..Default::default() };
    let oldest_first = Some(SortBy { field: "created_at".to_string(), order: Order::Asc });
    let found =
        store.query_walk_requests(near(), oldest_first.clone(), Some(Pagination::new(1, 3))).unwrap();
    assert_eq!(ids(&found), ["2", "3", "4"]);
    let found =
        store.query_walk_requests(near(), oldest_first, Some(Pagination::new(2, 3))).unwrap();
    assert_eq!(ids(&found), ["0", "1"]);
}

#[test]
fn a_query_does_not_change_the_store() {
    let store = line();
    let before = all(&store);
    let near = WalkRequestQuery { nearby: Some(vec![0, 0, 1000]), ..Default::default() };
    store.query_walk_requests(near, None, None).unwrap();
    assert_eq!(all(&store), before);
    assert!(before.iter().all(|r| r.distance.is_none()));
}

#[test]
fn a_conditional_update_can_be_guarded_by_proximity() {
    let mut store = line();
    let near = WalkRequestQuery { nearby: Some(vec![40, 0, 10]), ..Default::default() };
    let update = WalkRequestUpdate { canceled_at: Some(9), ..Default::default() };
    assert_eq!(store.update_walk_requests_by_query(near.clone(), update.clone()), Ok(2));
    let canceled: Vec<String> =
        all(&store).into_iter().filter(|r| r.canceled_at == Some(9)).map(|r| r.id).collect();
    assert_eq!(canceled, ["3", "4"]);
    let first = store.update_walk_request_by_query(
        near,
        WalkRequestUpdate { started_at: Some(1), ..Default::default() },
    );
    assert_eq!(first.unwrap().id, "3");
}

#[test]
fn locations_are_appended() {
    let mut store = line();
    let at = |walk_request_id, longitude, latitude| WalkingLocationCreate {
        walk_request_id,
        longitude,
        latitude,
    };
    assert_eq!(store.create_walking_location_at(at("1", 5, 6), 100), Ok("0".to_string()));
    assert_eq!(store.create_walking_location_at(at("2", 7, 8), 101), Ok("1".to_string()));
    assert_eq!(store.create_walking_location_at(at("1", 9, 10), 102), Ok("2".to_string()));
    assert_eq!(store.create_walking_location_at(at("no such request", 0, 0), 103), Ok("3".to_string()));
    assert_eq!(store.track("1"), [(5, 6), (9, 10)]);
    assert_eq!(store.track("2"), [(7, 8)]);
    assert_eq!(store.track("3"), []);
    assert_eq!(store.track("no such request"), [(0, 0)]);
    assert_eq!(store.create_walking_location(at("2", 1, 1)), Ok("4".to_string()));
    assert_eq!(store.track("2"), [(7, 8), (1, 1)]);
    assert_eq!(all(&store).len(), 5);
}

#[test]
fn a_copy_of_the_store_is_independent() {
    let mut store = line();
    let copy = store.clone();
    store.create_walk_request_at(create("o", 0, 0), 1).unwrap();
    assert_eq!(all(&store).len(), 6);
    assert_eq!(all(&copy).len(), 5);
}
