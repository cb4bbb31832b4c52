use std::time::Duration;

use pgtest_wire::connection_warm::pool::{ConnectionWarmPool, DatabaseId, WarmReservation};
use pgtest_wire::connection_warm::scheduler::warm_pool;
use pgtest_wire::connection_warm::ConnectionWarmConfig;
use pgtest_wire::params::StartupParams;

/// Sessions are plain numbers here; odd ones count as broken.
type Pool = ConnectionWarmPool<u32>;

fn usable(session: &u32) -> bool {
    session % 2 == 0
}

fn map_of(pairs: &[(&str, &str)]) -> StartupParams {
    let mut params = StartupParams::new();
    for (name, value) in pairs {
        params.insert((*name).to_owned(), (*value).to_owned());
    }
    params
}

fn reservation_pool(per_database: u16, max_total: usize) -> Pool {
    // Concurrency governs socket attempts later, not reservation capacity.
    let config = ConnectionWarmConfig::try_new(
        per_database,
        max_total,
        1,
        Duration::ZERO,
        StartupParams::new(),
    )
    .unwrap();
    let mut pool = Pool::new(config, "postgres");
    for (id, name) in [(1, "physical_One_雪"), (2, "physical_two")] {
        assert_eq!(
            pool.register_database(DatabaseId(id), name.to_owned()),
            per_database > 0
        );
    }
    pool
}

fn assert_counts(pool: &Pool, total: usize, expected: &[(u64, usize)]) {
    assert_eq!(pool.capacity_used(), total);
    assert_eq!(pool.database_count(), expected.len());
    for &(id, in_flight) in expected {
        let database = pool.database(DatabaseId(id)).unwrap();
        assert_eq!(database.in_flight, in_flight, "database {id}");
        assert_eq!(database.idle, 0);
    }
    assert_eq!(total, expected.iter().map(|(_, count)| count).sum::<usize>());
}

fn reserve(pool: &mut Pool, id: u64) -> Option<WarmReservation> {
    pool.try_reserve(DatabaseId(id), 0)
}

fn publish(pool: &mut Pool, id: u64, session: u32) {
    let mut reservation = reserve(pool, id).unwrap();
    assert_eq!(pool.publish(&mut reservation, session), Ok(()));
    assert!(!reservation.is_active());
}

fn checkout(pool: &mut Pool, id: u64, params: &StartupParams) -> Option<u32> {
    pool.try_checkout(DatabaseId(id), params, usable).session
}

#[test]
fn disabled_and_unknown_databases_do_not_reserve_capacity() {
    let mut disabled = reservation_pool(0, 3);
    assert!(reserve(&mut disabled, 1).is_none());
    assert_counts(&disabled, 0, &[]);

    let mut enabled = reservation_pool(2, 3);
    assert!(reserve(&mut enabled, 99).is_none());
    assert_counts(&enabled, 0, &[(1, 0), (2, 0)]);
    let mut reservation = reserve(&mut enabled, 1).unwrap();
    assert!(reserve(&mut enabled, 99).is_none());
    assert_counts(&enabled, 1, &[(1, 1), (2, 0)]);
    enabled.release(&mut reservation);
    assert_counts(&enabled, 0, &[(1, 0), (2, 0)]);
}

#[test]
fn reservation_owns_the_registered_name_and_releases_on_drop() {
    let mut pool = reservation_pool(2, 4);
    let reservation = reserve(&mut pool, 1).unwrap();
    assert_eq!(reservation.database_name(), "physical_One_雪");
    assert!(!pool.register_database(DatabaseId(1), "replacement".to_owned()));
    assert_eq!(reservation.database_name(), "physical_One_雪");
    assert_counts(&pool, 1, &[(1, 1), (2, 0)]);

    let mut moved_reservation = reservation;
    pool.release(&mut moved_reservation);
    assert_counts(&pool, 0, &[(1, 0), (2, 0)]);
    assert_eq!(pool.database(DatabaseId(1)).unwrap().name, "physical_One_雪");
}

#[test]
fn per_database_limit_preserves_other_databases_and_allows_reuse() {
    let mut pool = reservation_pool(2, 8);
    let mut first = reserve(&mut pool, 1).unwrap();
    let mut second = reserve(&mut pool, 1).unwrap();
    assert!(reserve(&mut pool, 1).is_none());
    assert_counts(&pool, 2, &[(1, 2), (2, 0)]);
    let mut other = reserve(&mut pool, 2).unwrap();
    assert_counts(&pool, 3, &[(1, 2), (2, 1)]);

    pool.release(&mut first);
    assert_counts(&pool, 2, &[(1, 1), (2, 1)]);
    let mut replacement = reserve(&mut pool, 1).unwrap();
    assert!(reserve(&mut pool, 1).is_none());
    assert_counts(&pool, 3, &[(1, 2), (2, 1)]);
    pool.release(&mut second);
    pool.release(&mut replacement);
    assert_counts(&pool, 1, &[(1, 0), (2, 1)]);
    pool.release(&mut other);
    assert_counts(&pool, 0, &[(1, 0), (2, 0)]);
}

#[test]
fn global_limit_is_shared_across_databases_and_reusable() {
    let mut pool = reservation_pool(4, 2);
    let mut first = reserve(&mut pool, 1).unwrap();
    let mut second = reserve(&mut pool, 2).unwrap();
    for id in [1, 2] {
        assert!(reserve(&mut pool, id).is_none());
        assert_counts(&pool, 2, &[(1, 1), (2, 1)]);
    }
    pool.release(&mut first);
    assert_counts(&pool, 1, &[(1, 0), (2, 1)]);
    let mut replacement = reserve(&mut pool, 2).unwrap();
    assert_counts(&pool, 2, &[(1, 0), (2, 2)]);
    assert!(reserve(&mut pool, 1).is_none());
    pool.release(&mut second);
    pool.release(&mut replacement);
    assert_counts(&pool, 0, &[(1, 0), (2, 0)]);
}

#[test]
fn inactive_reservation_does_not_release_capacity_again() {
    let mut pool = reservation_pool(2, 3);
    let mut settled = reserve(&mut pool, 1).unwrap();
    let mut outstanding = reserve(&mut pool, 2).unwrap();
    pool.release(&mut settled);
    assert!(!settled.is_active());
    pool.release(&mut settled);
    assert_counts(&pool, 1, &[(1, 0), (2, 1)]);
    pool.release(&mut outstanding);
    assert_counts(&pool, 0, &[(1, 0), (2, 0)]);
}

fn registration_pool() -> Pool {
    let config =
        ConnectionWarmConfig::try_new(2, 1, 1, Duration::ZERO, StartupParams::new()).unwrap();
    Pool::new(config, "postgres")
}

#[test]
fn disabled_pool_does_not_register_databases() {
    let mut pool = Pool::new(ConnectionWarmConfig::default(), "postgres");
    for id in [DatabaseId(1), DatabaseId(2)] {
        assert!(!pool.register_database(id, "physical_database".to_owned()));
    }
    assert_eq!(pool.database_count(), 0);
    assert_eq!(pool.capacity_used(), 0);
}

#[test]
fn registration_stores_exact_identity_and_name_with_empty_state() {
    let mut pool = registration_pool();
    let id = DatabaseId(42);
    let name = "Template_MixedCase_雪";
    assert!(pool.register_database(id, name.to_owned()));

    assert_eq!(pool.database_count(), 1);
    let database = pool.database(id).unwrap();
    assert_eq!(database.name, name);
    assert_eq!(database.idle, 0);
    assert_eq!(database.in_flight, 0);
    assert_eq!(pool.capacity_used(), 0);
}

#[test]
fn duplicate_registration_preserves_existing_name_and_accounting() {
    let mut pool = registration_pool();
    let id = DatabaseId(7);
    assert!(pool.register_database(id, "original_database".to_owned()));
    let _outstanding = pool.try_reserve(id, 0).unwrap();

    for name in ["original_database", "replacement_database"] {
        assert!(!pool.register_database(id, name.to_owned()));
        assert_eq!(pool.database_count(), 1);
        let database = pool.database(id).unwrap();
        assert_eq!(database.name, "original_database");
        assert_eq!(database.idle, 0);
        assert_eq!(database.in_flight, 1);
        assert_eq!(pool.capacity_used(), 1);
    }
}

#[test]
fn distinct_database_ids_remain_independent_even_with_equal_names() {
    let mut pool = registration_pool();
    assert!(pool.register_database(DatabaseId(1), "same_name".to_owned()));
    assert!(pool.register_database(DatabaseId(2), "same_name".to_owned()));
    assert!(pool.register_database(DatabaseId(3), "different_name".to_owned()));

    assert_eq!(pool.database_count(), 3);
    for (id, name) in [(1, "same_name"), (2, "same_name"), (3, "different_name")] {
        let database = pool.database(DatabaseId(id)).unwrap();
        assert_eq!(database.name, name);
        assert_eq!(database.idle, 0);
        assert_eq!(database.in_flight, 0);
    }
    assert_eq!(pool.capacity_used(), 0);
}

#[test]
fn registration_does_not_consume_capacity_or_require_a_free_connection_slot() {
    let mut pool = registration_pool();
    assert_eq!(pool.config().max_total(), 1);
    for id in 1..=3 {
        assert!(pool.register_database(DatabaseId(id), format!("database_{id}")));
        assert_eq!(pool.capacity_used(), 0);
    }
    // Metadata registration must still work when connection capacity is full.
    let _outstanding = pool.try_reserve(DatabaseId(1), 0).unwrap();
    assert!(pool.register_database(DatabaseId(4), "database_4".to_owned()));

    assert_eq!(pool.database_count(), 4);
    assert_eq!(pool.capacity_used(), 1);
    assert_eq!(pool.database(DatabaseId(1)).unwrap().in_flight, 1);
    let database = pool.database(DatabaseId(4)).unwrap();
    assert_eq!(database.idle, 0);
    assert_eq!(database.in_flight, 0);
}

#[test]
fn default_pool_is_disabled_and_empty_with_a_resolved_user() {
    let config = ConnectionWarmConfig::default();
    let pool = Pool::new(config.clone(), "postgres");

    assert_eq!(pool.config(), &config);
    assert!(!pool.config().is_enabled());
    assert_eq!(pool.profile().parameters(), &map_of(&[("user", "postgres")]));
    assert_eq!(pool.database_count(), 0);
    assert_eq!(pool.capacity_used(), 0);
}

#[test]
fn enabled_pool_retains_settings_and_starts_empty() {
    let params = map_of(&[
        ("application_name", "vitest"),
        ("options", "-c search_path=public"),
    ]);
    for wait in [Duration::ZERO, Duration::from_millis(250)] {
        let config = ConnectionWarmConfig::try_new(8, 2, 1, wait, params.clone()).unwrap();
        let pool = Pool::new(config.clone(), "test_user");

        assert_eq!(pool.config(), &config);
        assert!(pool.config().is_enabled());
        let mut expected = params.clone();
        expected.insert("user".to_owned(), "test_user".to_owned());
        assert_eq!(pool.profile().parameters(), &expected);
        assert_eq!(pool.database_count(), 0);
        assert_eq!(pool.capacity_used(), 0);
    }
}

#[test]
fn pool_constructor_preserves_explicit_users_even_when_disabled() {
    for count in [0, 1] {
        for user in ["explicit_user", ""] {
            let params = map_of(&[("user", user), ("application_name", "")]);
            let config =
                ConnectionWarmConfig::try_new(count, 2, 1, Duration::ZERO, params.clone())
                    .unwrap();
            let pool = Pool::new(config.clone(), "postgres");

            assert_eq!(pool.config(), &config);
            assert_eq!(pool.profile().parameters(), &params);
            assert_eq!(pool.database_count(), 0);
            assert_eq!(pool.capacity_used(), 0);
        }
    }
}

fn checkout_params() -> StartupParams {
    map_of(&[
        ("user", "postgres"),
        ("application_name", "vitest"),
        ("options", "-c search_path=public"),
        ("client_encoding", "UTF8"),
    ])
}

fn checkout_pool(per_database: u16, max_total: usize) -> Pool {
    let mut startup_params = checkout_params();
    startup_params.remove("user"); // Checkout must match the resolved default user.
    let config = ConnectionWarmConfig::try_new(
        per_database,
        max_total,
        1,
        Duration::ZERO,
        startup_params,
    )
    .unwrap();
    let mut pool = Pool::new(config, "postgres");
    for id in [1, 2] {
        // Equal names deliberately demonstrate that the key is DatabaseId.
        assert_eq!(
            pool.register_database(DatabaseId(id), "physical".to_owned()),
            per_database > 0
        );
    }
    pool
}

fn snapshot(pool: &Pool) -> (usize, Vec<Option<(String, usize, usize)>>) {
    let databases = [1, 2].map(|id| {
        pool.database(DatabaseId(id)).map(|state| (state.name, state.idle, state.in_flight))
    });
    (pool.capacity_used(), databases.to_vec())
}

#[test]
fn unknown_and_empty_databases_miss_without_changing_state() {
    let mut pool = checkout_pool(1, 2);
    let before = snapshot(&pool);
    assert!(checkout(&mut pool, 99, &checkout_params()).is_none());
    assert!(checkout(&mut pool, 1, &checkout_params()).is_none());
    assert_eq!(snapshot(&pool), before);

    let mut reservation = reserve(&mut pool, 1).unwrap();
    let before = snapshot(&pool);
    // An in-flight attempt is not an idle session; checkout must not wait for
    // it.
    assert!(checkout(&mut pool, 1, &checkout_params()).is_none());
    assert_eq!(snapshot(&pool), before);
    pool.release(&mut reservation);
}

#[test]
fn mismatched_clients_leave_the_spare_available() {
    let mut pool = checkout_pool(1, 1);
    publish(&mut pool, 1, 2);
    let before = snapshot(&pool);
    let matching = checkout_params();
    let mut mismatches = Vec::new();
    for (key, _) in matching.pairs() {
        let mut missing = matching.clone();
        missing.remove(key);
        mismatches.push(missing);
        let mut changed = matching.clone();
        changed.insert(key.clone(), "different".to_owned());
        mismatches.push(changed);
    }
    let mut extra = matching.clone();
    extra.insert("extra".to_owned(), String::new());
    mismatches.push(extra);
    for value in ["", "false", "true", "database"] {
        let mut replication = matching.clone();
        replication.insert("replication".to_owned(), value.to_owned());
        mismatches.push(replication);
    }
    for client in mismatches {
        assert!(checkout(&mut pool, 1, &client).is_none());
        assert_eq!(snapshot(&pool), before);
    }
    let mut routed = matching.clone();
    routed.insert("database".to_owned(), "template/lease".to_owned());
    assert_eq!(checkout(&mut pool, 1, &routed), Some(2));
    assert_eq!(pool.capacity_used(), 0);
}

#[test]
fn checkout_is_first_in_first_out_within_one_database() {
    let mut pool = checkout_pool(2, 2);
    publish(&mut pool, 1, 2);
    publish(&mut pool, 1, 4);
    let before = snapshot(&pool);
    for id in [2, 99] {
        assert!(checkout(&mut pool, id, &checkout_params()).is_none());
        assert_eq!(snapshot(&pool), before);
    }
    assert_eq!(checkout(&mut pool, 1, &checkout_params()), Some(2));
    assert_eq!(pool.capacity_used(), 1);
    assert_eq!(checkout(&mut pool, 1, &checkout_params()), Some(4));
    assert_eq!(pool.capacity_used(), 0);
    assert_eq!(checkout(&mut pool, 1, &checkout_params()), None);
}

#[test]
fn checkout_frees_both_limits_at_once() {
    let mut pool = checkout_pool(2, 3);
    publish(&mut pool, 1, 2);
    let mut pending = reserve(&mut pool, 1).unwrap();
    let mut other = reserve(&mut pool, 2).unwrap();
    assert!(reserve(&mut pool, 1).is_none());
    assert!(reserve(&mut pool, 2).is_none());

    assert_eq!(checkout(&mut pool, 1, &checkout_params()), Some(2));
    assert_eq!(pool.capacity_used(), 2);
    assert_eq!(pool.database(DatabaseId(1)).unwrap().in_flight, 1);
    assert_eq!(pool.database(DatabaseId(1)).unwrap().idle, 0);
    let mut replacement = reserve(&mut pool, 1).unwrap();
    assert_eq!(pool.capacity_used(), 3);
    for reservation in [&mut replacement, &mut pending, &mut other] {
        pool.release(reservation);
    }
    assert_eq!(pool.capacity_used(), 0);
}

#[test]
fn checkout_skips_and_discards_broken_spares() {
    let mut pool = checkout_pool(3, 3);
    publish(&mut pool, 1, 1);
    publish(&mut pool, 1, 3);
    publish(&mut pool, 1, 4);
    let found = pool.try_checkout(DatabaseId(1), &checkout_params(), usable);
    assert_eq!(found.session, Some(4));
    assert_eq!(found.discarded, vec![1, 3]);
    assert_eq!(pool.capacity_used(), 0);

    publish(&mut pool, 1, 5);
    let found = pool.try_checkout(DatabaseId(1), &checkout_params(), usable);
    assert_eq!(found.session, None);
    assert_eq!(found.discarded, vec![5]);
    assert_eq!(pool.capacity_used(), 0);
    assert!(reserve(&mut pool, 1).is_some());
}

#[test]
fn eviction_takes_one_broken_spare_at_a_time() {
    let mut pool = checkout_pool(3, 6);
    for session in [2, 3, 4] {
        publish(&mut pool, 1, session);
    }
    publish(&mut pool, 2, 7);
    let mut evicted = vec![
        pool.evict_unhealthy(usable).unwrap(),
        pool.evict_unhealthy(usable).unwrap(),
    ];
    evicted.sort();
    assert_eq!(evicted, vec![3, 7]);
    assert_eq!(pool.evict_unhealthy(usable), None);
    assert_eq!(pool.capacity_used(), 2);
    assert_eq!(checkout(&mut pool, 1, &checkout_params()), Some(2));
    assert_eq!(checkout(&mut pool, 1, &checkout_params()), Some(4));
}

#[test]
fn publication_keeps_the_slot_and_counts_toward_both_limits() {
    let mut pool = reservation_pool(1, 1);
    publish(&mut pool, 1, 2);
    assert_eq!(pool.capacity_used(), 1);
    let database = pool.database(DatabaseId(1)).unwrap();
    assert_eq!((database.idle, database.in_flight), (1, 0));
    for id in [1, 2] {
        assert!(reserve(&mut pool, id).is_none());
    }

    let mut pool = reservation_pool(1, 3);
    publish(&mut pool, 1, 2);
    assert!(reserve(&mut pool, 1).is_none());
    assert!(reserve(&mut pool, 2).is_some());
    assert!(!pool.register_database(DatabaseId(1), "replacement".to_owned()));
    assert_eq!(pool.database(DatabaseId(1)).unwrap().idle, 1);
}

#[test]
fn settled_reservations_publish_nothing() {
    let mut pool = reservation_pool(2, 3);
    let mut reservation = reserve(&mut pool, 1).unwrap();
    pool.release(&mut reservation);
    assert_eq!(pool.publish(&mut reservation, 8), Err(8));
    assert_counts(&pool, 0, &[(1, 0), (2, 0)]);
}

#[test]
fn retirement_returns_spares_and_refuses_late_publication() {
    let mut pool = checkout_pool(3, 4);
    publish(&mut pool, 1, 2);
    publish(&mut pool, 1, 4);
    let mut late = reserve(&mut pool, 1).unwrap();
    publish(&mut pool, 2, 6);
    let idle = pool.retire_database(DatabaseId(1)).unwrap();
    assert_eq!(Vec::from(idle), vec![2, 4]);
    assert_eq!(pool.capacity_used(), 2);
    assert!(pool.retire_database(DatabaseId(1)).is_none());
    assert!(pool.retire_database(DatabaseId(99)).is_none());

    assert!(reserve(&mut pool, 1).is_none());
    assert!(checkout(&mut pool, 1, &checkout_params()).is_none());
    assert_eq!(pool.publish(&mut late, 8), Err(8));
    assert_eq!(pool.capacity_used(), 1);
    assert!(!pool.register_database(DatabaseId(1), "again".to_owned()));
    assert!(pool.database(DatabaseId(1)).unwrap().retiring);
    assert_eq!(checkout(&mut pool, 2, &checkout_params()), Some(6));
}

#[test]
fn shutdown_is_final_and_keeps_only_attempts_in_flight() {
    let mut pool = checkout_pool(2, 4);
    publish(&mut pool, 1, 2);
    publish(&mut pool, 2, 4);
    let mut pending = reserve(&mut pool, 2).unwrap();
    assert_eq!(pool.begin_shutdown(), vec![2, 4]);
    assert!(pool.is_cancelled());
    assert_eq!(pool.capacity_used(), 1);
    assert!(pool.begin_shutdown().is_empty());

    assert!(!pool.register_database(DatabaseId(3), "late".to_owned()));
    assert!(reserve(&mut pool, 1).is_none());
    assert!(pool.reserve_next(0).is_none());
    assert!(checkout(&mut pool, 1, &checkout_params()).is_none());
    assert!(!pool.record_failure(&pending, 0));
    assert_eq!(pool.publish(&mut pending, 8), Err(8));
    assert_eq!(pool.capacity_used(), 0);
    assert_eq!(pool.next_retry_deadline(true), None);
}

#[test]
fn pools_exist_only_where_warming_is_enabled() {
    assert!(warm_pool::<u32>(ConnectionWarmConfig::default(), "postgres").is_none());
    let config =
        ConnectionWarmConfig::try_new(1, 1, 1, Duration::ZERO, StartupParams::new()).unwrap();
    assert!(warm_pool::<u32>(config, "postgres").is_some());
}
