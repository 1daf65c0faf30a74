//! Shard counts and worker indexes.

use worker_lib::cache::route::{route_index, route_shards, MAX_ROUTE_SHARDS};
use worker_lib::cache::supervisor::Supervisor;

fn ids(count: usize) -> Vec<String> {
    (0..count).map(|n| format!("worker-id-{:06}", n)).collect()
}

#[test]
fn small_pools_need_no_route() {
    assert_eq!(route_shards(0), None);
    assert_eq!(route_shards(1), None);
}

#[test]
fn shard_count_is_the_pool_size_up_to_the_limit() {
    assert_eq!(MAX_ROUTE_SHARDS, 255);
    assert_eq!(route_shards(2), Some(2));
    assert_eq!(route_shards(32), Some(32));
    assert_eq!(route_shards(255), Some(255));
    assert_eq!(route_shards(256), Some(255));
    assert_eq!(route_shards(100_000), Some(255));
}

#[test]
fn route_index_takes_the_answer_in_range() {
    assert_eq!(route_index(4, Some(0)), 0);
    assert_eq!(route_index(4, Some(3)), 3);
    assert_eq!(route_index(300, Some(255)), 255);
}

#[test]
fn route_index_falls_back_to_zero() {
    assert_eq!(route_index(4, None), 0);
    assert_eq!(route_index(4, Some(4)), 0);
    assert_eq!(route_index(4, Some(200)), 0);
    assert_eq!(route_index(0, Some(3)), 0);
    assert_eq!(route_index(0, None), 0);
}

#[test]
fn route_index_is_the_same_on_every_call() {
    for pool_size in [1usize, 2, 7, 255, 256, 1000] {
        for answer in 0..=255u8 {
            let first = route_index(pool_size, Some(answer));
            assert_eq!(route_index(pool_size, Some(answer)), first);
            assert!(first < pool_size);
        }
        assert_eq!(route_index(pool_size, None), 0);
    }
}

#[test]
fn single_worker_pool_routes_everything_to_zero() {
    let supervisor = Supervisor::new(ids(1)).expect("should create the supervisor");
    assert_eq!(route_shards(supervisor.pool_size), None);
    for answer in 0..=255u8 {
        assert_eq!(supervisor.get_route(Some(answer)), 0);
    }
    assert_eq!(supervisor.get_route(None), 0);
}

#[test]
fn supervisor_route_agrees_with_route_index() {
    let supervisor = Supervisor::new(ids(5)).expect("should create the supervisor");
    for answer in 0..=255u8 {
        let route = supervisor.get_route(Some(answer));
        assert_eq!(route, route_index(5, Some(answer)));
        assert!(route < 5);
    }
    assert_eq!(supervisor.get_route(Some(4)), 4);
    assert_eq!(supervisor.get_route(Some(5)), 0);
}
