use std::time::Duration;

use pgtest_wire::buffer::RawBytes;
use pgtest_wire::connection_warm::attempt::{
    acquire_permit, connect_warm_session, ConnectEvent, PermitEvent, WarmAttemptError,
    WARM_ATTEMPT_TIMEOUT_MS,
};
use pgtest_wire::connection_warm::pool::{ConnectionWarmPool, DatabaseId};
use pgtest_wire::connection_warm::retry::WarmRetryStrategy;
use pgtest_wire::connection_warm::scheduler::{
    handle_completion, next_turn, start_scheduler, SchedulerEvent, SchedulerStep, WarmScheduler,
    WarmSchedulerError,
};
use pgtest_wire::connection_warm::shutdown::WarmShutdownError;
use pgtest_wire::connection_warm::startup::{
    InitialWarmUp, WaitEvent, WarmStartupOutcome, WarmUpStatus,
};
use pgtest_wire::connection_warm::ConnectionWarmConfig;
use pgtest_wire::params::StartupParams;
use pgtest_wire::postgres_upstream::{SessionBurst, UpstreamError, UpstreamSession};
use tokio_retry2::strategy::ExponentialFactorBackoff;

type Pool = ConnectionWarmPool<u32>;

const SECOND: u64 = 1_000_000_000;

fn pool(per_database: u16, max_total: usize, concurrency: usize, wait: Duration) -> Pool {
    let config = ConnectionWarmConfig::try_new(
        per_database,
        max_total,
        concurrency,
        wait,
        StartupParams::new(),
    )
    .unwrap();
    Pool::new(config, "postgres")
}

fn register(pool: &mut Pool, ids: &[u64]) {
    for id in ids {
        assert!(pool.register_database(DatabaseId(*id), format!("physical_{id}")));
    }
}

fn take(pool: &mut Pool, id: u64) -> Option<u32> {
    let params = pool.profile().parameters().clone();
    pool.try_checkout(DatabaseId(id), &params, |_| true).session
}

#[test]
fn delays_double_up_to_the_longest() {
    let mut outside =
        ExponentialFactorBackoff::from_millis(1_000, 2.0).max_delay(Duration::from_secs(30));
    let mut strategy = WarmRetryStrategy::new();
    for expected in [1, 2, 4, 8, 16, 30, 30, 30, 30] {
        let (delay, next) = strategy.after_failure();
        strategy = next;
        assert_eq!(delay, expected * 1_000);
        assert_eq!(outside.next(), Some(Duration::from_millis(delay)));
    }
}

fn fail(pool: &mut Pool, id: u64, now: u64) {
    let mut reservation = pool.try_reserve(DatabaseId(id), now).unwrap();
    let rejected = Err(WarmAttemptError::Upstream(UpstreamError::StartupRejected));
    let settlement = pool.settle_attempt(&mut reservation, rejected, false, now);
    assert!(matches!(
        settlement.result,
        Err(WarmAttemptError::Upstream(UpstreamError::StartupRejected))
    ));
    assert!(settlement.rejected.is_none());
    assert_eq!(pool.capacity_used(), 0);
}

#[test]
fn failures_back_off_and_success_resets_the_delay() {
    let mut pool = pool(1, 2, 1, Duration::ZERO);
    register(&mut pool, &[1, 2]);
    let mut now = 5;
    for seconds in [1, 2, 4, 8, 16, 30, 30] {
        fail(&mut pool, 1, now);
        let deadline = now + seconds * SECOND;
        assert_eq!(pool.database(DatabaseId(1)).unwrap().retry_at, Some(deadline.into()));
        assert_eq!(pool.next_retry_deadline(true), Some(deadline.into()));
        assert_eq!(pool.next_retry_deadline(false), None);
        assert!(pool.try_reserve(DatabaseId(1), now).is_none());
        // A healthy database still makes progress.
        let mut healthy = pool.reserve_next(now).unwrap();
        assert_eq!(healthy.database_name(), "physical_2");
        pool.release(&mut healthy);
        assert!(pool.try_reserve(DatabaseId(1), deadline - 1).is_none());
        now = deadline;
        let mut due = pool.reserve_next(now).unwrap();
        assert_eq!(due.database_id(), DatabaseId(1));
        if seconds == 2 {
            // Giving up neither advances nor resets the delay.
            let settlement =
                pool.settle_attempt(&mut due, Err(WarmAttemptError::Cancelled), true, now);
            assert!(matches!(settlement.result, Err(WarmAttemptError::Cancelled)));
        } else {
            pool.release(&mut due);
        }
    }
    let mut reservation = pool.try_reserve(DatabaseId(1), now).unwrap();
    let settlement = pool.settle_attempt(&mut reservation, Ok(8), false, now);
    assert!(matches!(settlement.result, Ok(true)));
    assert_eq!(pool.database(DatabaseId(1)).unwrap().retry_at, None);
    assert_eq!(take(&mut pool, 1), Some(8));
    fail(&mut pool, 1, now);
    assert_eq!(pool.next_retry_deadline(true), Some((now + SECOND).into()));
}

#[test]
fn abandoned_and_late_sessions_are_handed_back() {
    let mut pool = pool(2, 2, 1, Duration::ZERO);
    register(&mut pool, &[1]);
    let mut reservation = pool.try_reserve(DatabaseId(1), 0).unwrap();
    let settlement = pool.settle_attempt(&mut reservation, Ok(8), true, 0);
    assert!(matches!(settlement.result, Err(WarmAttemptError::Cancelled)));
    assert_eq!(settlement.rejected, Some(8));
    assert_eq!(pool.capacity_used(), 0);

    let mut reservation = pool.try_reserve(DatabaseId(1), 0).unwrap();
    assert!(pool.retire_database(DatabaseId(1)).unwrap().is_empty());
    let settlement = pool.settle_attempt(&mut reservation, Ok(8), false, 0);
    assert!(matches!(settlement.result, Ok(false)));
    assert_eq!(settlement.rejected, Some(8));
    assert_eq!(pool.capacity_used(), 0);
    assert!(pool.database(DatabaseId(1)).unwrap().retry_at.is_none());
}

fn session(ready: bool) -> UpstreamSession<u32> {
    let bytes = RawBytes::from(bytes::BytesMut::from(&b"burst"[..]));
    UpstreamSession { stream: 7, session_burst: SessionBurst { bytes, ready } }
}

#[test]
fn attempts_map_their_events_to_errors() {
    assert!(acquire_permit(PermitEvent::Acquired).is_ok());
    assert!(matches!(acquire_permit(PermitEvent::Cancelled), Err(WarmAttemptError::Cancelled)));
    assert!(matches!(
        acquire_permit(PermitEvent::Closed),
        Err(WarmAttemptError::ConcurrencyClosed)
    ));
    assert!(matches!(
        connect_warm_session::<u32>(ConnectEvent::Cancelled),
        Err(WarmAttemptError::Cancelled)
    ));
    assert!(matches!(
        connect_warm_session::<u32>(ConnectEvent::TimedOut),
        Err(WarmAttemptError::TimedOut)
    ));
    assert!(matches!(
        connect_warm_session::<u32>(ConnectEvent::Finished(Err(
            UpstreamError::UnsupportedAuthentication
        ))),
        Err(WarmAttemptError::Upstream(UpstreamError::UnsupportedAuthentication))
    ));
    let ready = connect_warm_session(ConnectEvent::Finished(Ok(session(true)))).ok().unwrap();
    assert_eq!(ready.stream, 7);
    assert_eq!(ready.session_burst.bytes.bytes(), b"burst");
    assert!(matches!(
        connect_warm_session(ConnectEvent::Finished(Ok(session(false)))),
        Err(WarmAttemptError::Upstream(UpstreamError::StartupRejected))
    ));
    assert_eq!(WARM_ATTEMPT_TIMEOUT_MS, 5_000);
    assert_eq!(
        WarmAttemptError::Cancelled.message(),
        Some("warm connection attempt cancelled")
    );
    assert_eq!(WarmAttemptError::TimedOut.message(), Some("warm connection timed out"));
}

#[test]
fn scheduling_goes_round_and_replenishes() {
    let mut pool = pool(2, 6, 1, Duration::ZERO);
    register(&mut pool, &[1, 2, 3]);
    let mut scheduler = WarmScheduler::new(pool.config());
    let mut session = 0;
    let mut warm_next = |pool: &mut Pool, expected: u64| {
        let plan = scheduler.plan(pool, 0);
        assert_eq!(plan.retry_at, None);
        assert_eq!(plan.launch.len(), 1);
        for mut reservation in plan.launch {
            assert_eq!(reservation.database_id(), DatabaseId(expected));
            session += 2;
            let settlement = pool.settle_attempt(&mut reservation, Ok(session), false, 0);
            let event = SchedulerEvent::AttemptEnded {
                database_id: DatabaseId(expected),
                result: settlement.result,
            };
            assert_eq!(scheduler.on_event(&event), Ok(SchedulerStep::Continue));
        }
    };
    for id in [1, 2, 3, 1, 2, 3] {
        warm_next(&mut pool, id);
    }
    assert!(pool.reserve_next(0).is_none());
    assert!(take(&mut pool, 2).is_some());
    warm_next(&mut pool, 2);
    assert_eq!(pool.retire_database(DatabaseId(1)).unwrap().len(), 2);
    register(&mut pool, &[4]);
    warm_next(&mut pool, 4);
    warm_next(&mut pool, 4);
    assert_eq!(pool.capacity_used(), 6);
    assert!(pool.reserve_next(0).is_none());
}

#[test]
fn schedulers_bound_the_attempts_under_way() {
    let mut pool = pool(4, 5, 2, Duration::ZERO);
    let ids: Vec<u64> = (1..=20).collect();
    register(&mut pool, &ids);
    let mut scheduler = WarmScheduler::new(pool.config());
    let mut plan = scheduler.plan(&mut pool, 0);
    let names: Vec<&str> = plan.launch.iter().map(|attempt| attempt.database_name()).collect();
    assert_eq!(names, vec!["physical_1", "physical_2"]);
    assert_eq!(pool.capacity_used(), 2);
    assert!(scheduler.plan(&mut pool, 0).launch.is_empty());

    pool.retire_database(DatabaseId(1));
    let cancelled = Err(WarmAttemptError::Cancelled);
    let settlement = pool.settle_attempt(&mut plan.launch[0], cancelled, true, 0);
    let event = SchedulerEvent::AttemptEnded {
        database_id: DatabaseId(1),
        result: settlement.result,
    };
    assert_eq!(scheduler.on_event(&event), Ok(SchedulerStep::Continue));
    let next = scheduler.plan(&mut pool, 0).launch;
    assert_eq!(next.len(), 1);
    assert_eq!(next[0].database_name(), "physical_3");
    assert_eq!(pool.capacity_used(), 2);
}

#[test]
fn full_pools_set_no_timer_even_with_an_overdue_retry() {
    let mut pool = pool(1, 1, 1, Duration::ZERO);
    register(&mut pool, &[1, 2]);
    fail(&mut pool, 1, 0);
    let mut scheduler = WarmScheduler::new(pool.config());
    let mut plan = scheduler.plan(&mut pool, 0);
    assert_eq!(plan.launch[0].database_name(), "physical_2");
    assert_eq!(plan.retry_at, None);
    let settlement = pool.settle_attempt(&mut plan.launch[0], Ok(2), false, 0);
    let event = SchedulerEvent::AttemptEnded {
        database_id: DatabaseId(2),
        result: settlement.result,
    };
    assert_eq!(scheduler.on_event(&event), Ok(SchedulerStep::Continue));
    let plan = scheduler.plan(&mut pool, 31 * SECOND);
    assert!(plan.launch.is_empty());
    assert_eq!(plan.retry_at, None);
    assert_eq!(take(&mut pool, 2), Some(2));
    let plan = scheduler.plan(&mut pool, SECOND - 1);
    // The other database is replaced first; the retry still waits.
    assert_eq!(plan.launch[0].database_name(), "physical_2");
}

#[test]
fn retries_are_planned_while_a_slot_is_free() {
    let mut pool = pool(1, 4, 3, Duration::ZERO);
    register(&mut pool, &[1, 2]);
    fail(&mut pool, 1, 0);
    let mut scheduler = WarmScheduler::new(pool.config());
    let plan = scheduler.plan(&mut pool, 0);
    assert_eq!(plan.launch.len(), 1);
    assert_eq!(plan.retry_at, Some(SECOND.into()));
    let plan = scheduler.plan(&mut pool, SECOND);
    assert_eq!(plan.launch[0].database_name(), "physical_1");
    assert_eq!(plan.retry_at, None);
}

#[test]
fn schedulers_start_and_stop() {
    let mut enabled = pool(1, 1, 1, Duration::ZERO);
    let disabled = pool(0, 1, 1, Duration::ZERO);
    assert_eq!(start_scheduler(&disabled, true), Ok(SchedulerStep::Stop));
    assert_eq!(start_scheduler(&enabled, false), Ok(SchedulerStep::Continue));
    assert_eq!(start_scheduler(&enabled, true), Err(WarmSchedulerError::AlreadyRunning));
    enabled.begin_shutdown();
    assert_eq!(start_scheduler(&enabled, true), Ok(SchedulerStep::Stop));

    assert_eq!(next_turn(true, true, true), Ok(SchedulerStep::Stop));
    assert_eq!(next_turn(false, true, true), Err(WarmSchedulerError::ConcurrencyClosed));
    assert_eq!(next_turn(false, false, true), Err(WarmSchedulerError::StatePoisoned));
    assert_eq!(next_turn(false, false, false), Ok(SchedulerStep::Continue));

    let id = DatabaseId(1);
    assert_eq!(handle_completion(id, &Ok(true)), Ok(()));
    assert_eq!(handle_completion(id, &Ok(false)), Ok(()));
    assert_eq!(handle_completion(id, &Err(WarmAttemptError::Cancelled)), Ok(()));
    assert_eq!(handle_completion(id, &Err(WarmAttemptError::TimedOut)), Ok(()));
    assert_eq!(
        handle_completion(id, &Err(WarmAttemptError::ConcurrencyClosed)),
        Err(WarmSchedulerError::ConcurrencyClosed)
    );

    let mut scheduler = WarmScheduler::new(enabled.config());
    for (event, step) in [
        (SchedulerEvent::Cancelled, Ok(SchedulerStep::Stop)),
        (SchedulerEvent::StatePoisoned, Err(WarmSchedulerError::StatePoisoned)),
        (SchedulerEvent::Changed, Ok(SchedulerStep::Continue)),
        (SchedulerEvent::RetryDue, Ok(SchedulerStep::Continue)),
        (SchedulerEvent::SpareEvicted, Ok(SchedulerStep::Continue)),
    ] {
        assert_eq!(scheduler.on_event(&event), step);
    }
    assert_eq!(
        WarmSchedulerError::AlreadyRunning.message(),
        "a warm scheduler is already running for this pool"
    );
    assert_eq!(WarmSchedulerError::StatePoisoned.message(), "warm pool state lock poisoned");
    assert_eq!(
        WarmShutdownError::StatePoisoned.message(),
        "cannot confirm warm pool shutdown: state lock poisoned"
    );
}

fn warm(pool: &mut Pool, id: u64, session: u32) {
    let mut reservation = pool.try_reserve(DatabaseId(id), 0).unwrap();
    assert_eq!(pool.publish(&mut reservation, session), Ok(()));
}

#[test]
fn warm_up_outcomes_are_known_at_once_without_a_wait() {
    assert_eq!(
        InitialWarmUp::begin(&pool(0, 1, 1, Duration::from_secs(1))).err(),
        Some(WarmStartupOutcome::Disabled)
    );
    assert_eq!(
        InitialWarmUp::begin(&pool(0, 1, 1, Duration::ZERO)).err(),
        Some(WarmStartupOutcome::Disabled)
    );
    assert_eq!(
        InitialWarmUp::begin(&pool(1, 1, 1, Duration::ZERO)).err(),
        Some(WarmStartupOutcome::BackgroundOnly)
    );
    let empty = pool(1, 1, 1, Duration::from_secs(1));
    let warm_up = InitialWarmUp::begin(&empty).unwrap();
    assert_eq!(
        warm_up.observe(&empty),
        WarmUpStatus::Finished(WarmStartupOutcome::Ready { connections: 0 })
    );
}

#[test]
fn warm_up_waits_for_the_initial_databases_within_the_cap() {
    let mut pool = pool(2, 3, 1, Duration::from_millis(250));
    register(&mut pool, &[1, 2]);
    let warm_up = InitialWarmUp::begin(&pool).unwrap();
    // A database that is created later does not count.
    register(&mut pool, &[3]);
    warm(&mut pool, 3, 2);
    assert_eq!(warm_up.observe(&pool), WarmUpStatus::Waiting { ready: 0 });
    warm(&mut pool, 1, 4);
    assert_eq!(warm_up.observe(&pool), WarmUpStatus::Waiting { ready: 1 });
    assert_eq!(warm_up.after_wait(WaitEvent::Changed, 1), None);
    assert_eq!(
        warm_up.after_wait(WaitEvent::Deadline, 1),
        Some(WarmStartupOutcome::TimedOut { ready: 1, target: 3 })
    );
    assert_eq!(
        warm_up.after_wait(WaitEvent::Cancelled, 1),
        Some(WarmStartupOutcome::Stopped)
    );
    assert!(take(&mut pool, 3).is_some());
    warm(&mut pool, 1, 6);
    warm(&mut pool, 2, 8);
    assert_eq!(
        warm_up.observe(&pool),
        WarmUpStatus::Finished(WarmStartupOutcome::Ready { connections: 3 })
    );
    // A retired database no longer counts.
    pool.retire_database(DatabaseId(1));
    assert_eq!(warm_up.observe(&pool), WarmUpStatus::Waiting { ready: 1 });
    pool.begin_shutdown();
    assert_eq!(
        warm_up.observe(&pool),
        WarmUpStatus::Finished(WarmStartupOutcome::Stopped)
    );
}

#[test]
fn attempts_stay_within_the_limit_over_a_whole_run() {
    let mut pool = pool(4, 5, 2, Duration::ZERO);
    register(&mut pool, &(1..=20).collect::<Vec<_>>());
    let mut scheduler = WarmScheduler::new(pool.config());
    let mut under_way = scheduler.plan(&mut pool, 0).launch;
    assert_eq!(under_way.len(), 2);
    for now in 1..10 {
        assert!(scheduler.plan(&mut pool, now).launch.is_empty());
        assert_eq!(pool.capacity_used(), 2);
    }

    // One attempt becomes a spare, and another takes its place.
    let mut done = under_way.remove(0);
    let database_id = done.database_id();
    let settlement = pool.settle_attempt(&mut done, Ok(7), false, 10);
    assert!(matches!(settlement.result, Ok(true)));
    assert!(scheduler.plan(&mut pool, 10).launch.is_empty());
    let ended = SchedulerEvent::AttemptEnded { database_id, result: settlement.result };
    assert_eq!(scheduler.on_event(&ended), Ok(SchedulerStep::Continue));
    under_way.append(&mut scheduler.plan(&mut pool, 10).launch);
    assert_eq!(under_way.len(), 2);
    assert_eq!(pool.capacity_used(), 3);

    // The scheduler is dropped with its attempts; the spare stays.
    for mut reservation in under_way {
        pool.release(&mut reservation);
    }
    for id in 1..=20 {
        assert_eq!(pool.database(DatabaseId(id)).unwrap().in_flight, 0);
    }
    assert_eq!(pool.capacity_used(), 1);
    assert_eq!(take(&mut pool, database_id.0), Some(7));
}

#[test]
fn abandoned_attempts_do_not_advance_the_backoff() {
    let mut pool = pool(2, 4, 2, Duration::ZERO);
    register(&mut pool, &[1, 2]);
    let mut now = 0;
    for expected in [1, 2, 4, 8, 16, 30, 30] {
        let mut given_up = pool.try_reserve(DatabaseId(1), now).unwrap();
        let cancelled = Err(WarmAttemptError::Cancelled);
        assert!(pool.settle_attempt(&mut given_up, cancelled, false, now).result.is_err());
        fail(&mut pool, 1, now);
        assert_eq!(
            pool.database(DatabaseId(1)).unwrap().retry_at,
            Some((now + expected * SECOND).into())
        );
        assert_eq!(pool.database(DatabaseId(2)).unwrap().retry_at, None);
        assert_eq!(pool.capacity_used(), 0);
        now += expected * SECOND;
    }
}

#[test]
fn failures_back_off_to_the_end_of_the_clock() {
    let mut pool = pool(1, 1, 1, Duration::ZERO);
    register(&mut pool, &[1]);
    fail(&mut pool, 1, u64::MAX);
    let deadline = u128::from(u64::MAX) + u128::from(SECOND);
    assert_eq!(pool.next_retry_deadline(true), Some(deadline));
    assert!(pool.try_reserve(DatabaseId(1), u64::MAX).is_none());
}

#[test]
fn only_server_and_network_faults_are_failures() {
    assert!(WarmAttemptError::TimedOut.is_failure());
    assert!(WarmAttemptError::Upstream(UpstreamError::StartupRejected).is_failure());
    assert!(!WarmAttemptError::Cancelled.is_failure());
    assert!(!WarmAttemptError::ConcurrencyClosed.is_failure());
}
