//! The scheduler that keeps every database at its target.
use vstd::prelude::*;

use crate::connection_warm::attempt::WarmAttemptError;
use crate::connection_warm::pool;
use crate::connection_warm::pool::{ConnectionWarmPool, DatabaseId, WarmReservation};
use crate::connection_warm::{self, ConnectionWarmConfig};

verus! {

/// Why the scheduler stopped.
#[derive(Debug, Clone, Copy, PartialEq, Eq, Structural)]
pub enum WarmSchedulerError {
    AlreadyRunning,
    StatePoisoned,
    ConcurrencyClosed,
}

impl WarmSchedulerError {
    /// The text of the error.
    pub fn message(&self) -> (message: &'static str)
        ensures
            message@ == match self {
                WarmSchedulerError::AlreadyRunning =>
                "a warm scheduler is already running for this pool"@,
                WarmSchedulerError::StatePoisoned => "warm pool state lock poisoned"@,
                WarmSchedulerError::ConcurrencyClosed =>
                "warm connection concurrency limiter closed"@,
            },
    {
        match self {
            WarmSchedulerError::AlreadyRunning =>
            "a warm scheduler is already running for this pool",
            WarmSchedulerError::StatePoisoned => "warm pool state lock poisoned",
            WarmSchedulerError::ConcurrencyClosed => "warm connection concurrency limiter closed",
        }
    }
}

/// Whether the scheduler goes on.
#[derive(Debug, Clone, Copy, PartialEq, Eq, Structural)]
pub enum SchedulerStep {
    Continue,
    Stop,
}

/// What wakes the scheduler.
#[derive(Debug)]
pub enum SchedulerEvent {
    /// The pool was shut down.
    Cancelled,
    /// An attempt has ended.
    AttemptEnded { database_id: DatabaseId, result: Result<bool, WarmAttemptError> },
    /// An unusable spare was taken out of the pool.
    SpareEvicted,
    /// The state of the pool was left behind by a panic.
    StatePoisoned,
    /// The state of the pool has changed.
    Changed,
    /// A retry is due.
    RetryDue,
}

/// Whether a scheduler may start.
pub open spec fn start_decision(enabled: bool, cancelled: bool, running: bool) -> Result<
    SchedulerStep,
    WarmSchedulerError,
> {
    if !enabled || cancelled {
        Ok(SchedulerStep::Stop)
    } else if running {
        Err(WarmSchedulerError::AlreadyRunning)
    } else {
        Ok(SchedulerStep::Continue)
    }
}

/// Whether a scheduler may start on a pool, `running` telling whether another
/// one runs on it.
pub fn start_scheduler<S>(pool: &ConnectionWarmPool<S>, running: bool) -> (r: Result<
    SchedulerStep,
    WarmSchedulerError,
>)
    ensures
        r == start_decision(pool@.config.per_database != 0, pool@.cancelled, running),
{
    if !pool.config().is_enabled() || pool.is_cancelled() {
        return Ok(SchedulerStep::Stop);
    }
    if running {
        return Err(WarmSchedulerError::AlreadyRunning);
    }
    Ok(SchedulerStep::Continue)
}

/// Whether a scheduler may take another turn.
pub open spec fn turn_decision(cancelled: bool, permits_closed: bool, poisoned: bool) -> Result<
    SchedulerStep,
    WarmSchedulerError,
> {
    if cancelled {
        Ok(SchedulerStep::Stop)
    } else if permits_closed {
        Err(WarmSchedulerError::ConcurrencyClosed)
    } else if poisoned {
        Err(WarmSchedulerError::StatePoisoned)
    } else {
        Ok(SchedulerStep::Continue)
    }
}

/// Whether the scheduler may take another turn.
pub fn next_turn(cancelled: bool, permits_closed: bool, poisoned: bool) -> (r: Result<
    SchedulerStep,
    WarmSchedulerError,
>)
    ensures
        r == turn_decision(cancelled, permits_closed, poisoned),
{
    if cancelled {
        Ok(SchedulerStep::Stop)
    } else if permits_closed {
        Err(WarmSchedulerError::ConcurrencyClosed)
    } else if poisoned {
        Err(WarmSchedulerError::StatePoisoned)
    } else {
        Ok(SchedulerStep::Continue)
    }
}

/// What the end of an attempt means for the scheduler. A failure was already
/// recorded with the database, which is tried again later.
pub fn handle_completion(database_id: DatabaseId, result: &Result<bool, WarmAttemptError>) -> (r:
    Result<(), WarmSchedulerError>)
    ensures
        r == (match result {
            Err(WarmAttemptError::ConcurrencyClosed) => Err(WarmSchedulerError::ConcurrencyClosed),
            _ => Ok(()),
        }),
{
    match result {
        Err(WarmAttemptError::ConcurrencyClosed) => Err(WarmSchedulerError::ConcurrencyClosed),
        _ => Ok(()),
    }
}

/// What an event means for the scheduler.
pub open spec fn event_step(event: SchedulerEvent) -> Result<SchedulerStep, WarmSchedulerError> {
    match event {
        SchedulerEvent::Cancelled => Ok(SchedulerStep::Stop),
        SchedulerEvent::AttemptEnded {
            result: Err(WarmAttemptError::ConcurrencyClosed),
            ..
        } => Err(WarmSchedulerError::ConcurrencyClosed),
        SchedulerEvent::StatePoisoned => Err(WarmSchedulerError::StatePoisoned),
        _ => Ok(SchedulerStep::Continue),
    }
}

/// Decide what an event means for the scheduler.
fn on_event(event: &SchedulerEvent) -> (r: Result<SchedulerStep, WarmSchedulerError>)
    ensures
        r == event_step(*event),
{
    match event {
        SchedulerEvent::Cancelled => Ok(SchedulerStep::Stop),
        SchedulerEvent::AttemptEnded { database_id, result } => match handle_completion(
            *database_id,
            result,
        ) {
            Ok(()) => Ok(SchedulerStep::Continue),
            Err(error) => Err(error),
        },
        SchedulerEvent::StatePoisoned => Err(WarmSchedulerError::StatePoisoned),
        _ => Ok(SchedulerStep::Continue),
    }
}

/// The state after the database at place `k` was served.
pub open spec fn served<S>(state: pool::WarmPoolView<S>, k: int) -> pool::WarmPoolView<S> {
    pool::reserved(pool::rotated(state, k + 1), state.order[k])
}

/// Some database may be served.
pub open spec fn can_serve<S>(state: pool::WarmPoolView<S>, now: u64) -> bool {
    exists|k: int| #[trigger] pool::is_first_eligible(state, k, now)
}

/// The state and the reservations after `slots` databases were served in turn,
/// or fewer where no other may be served.
pub open spec fn serve_all<S>(state: pool::WarmPoolView<S>, now: u64, slots: nat) -> (
    pool::WarmPoolView<S>,
    Seq<pool::WarmReservationView>,
)
    decreases slots,
{
    if slots == 0 || !can_serve(state, now) {
        (state, Seq::empty())
    } else {
        let k = choose|k: int| #[trigger] pool::is_first_eligible(state, k, now);
        let rest = serve_all(served(state, k), now, (slots - 1) as nat);
        (rest.0, seq![pool::new_reservation(state, state.order[k])] + rest.1)
    }
}

/// Serving one database is serving the first that may be served.
pub(crate) proof fn lemma_serving_once<S>(state: pool::WarmPoolView<S>, k: int, now: u64)
    requires
        pool::is_first_eligible(state, k, now),
    ensures
        serve_all(state, now, 1).0 == served(state, k),
{
    let chosen = choose|k: int| #[trigger] pool::is_first_eligible(state, k, now);
    assert(can_serve(state, now));
    if chosen < k {
        assert(!pool::eligible(state, state.order[chosen], now));
    } else if k < chosen {
        assert(!pool::eligible(state, state.order[k], now));
    }
    assert(serve_all(served(state, k), now, 0).0 == served(state, k));
}

/// Where any database of the order may be served, one is.
pub proof fn lemma_eligible_database_is_served<S>(state: pool::WarmPoolView<S>, k: int, now: u64)
    requires
        0 <= k < state.order.len(),
        pool::eligible(state, state.order[k], now),
    ensures
        can_serve(state, now),
    decreases k,
{
    if !pool::is_first_eligible(state, k, now) {
        let j = choose|j: int|
            0 <= j < k && pool::eligible(state, #[trigger] state.order[j], now);
        lemma_eligible_database_is_served(state, j, now);
    }
}

/// The views of these reservations.
pub open spec fn reservation_views(reservations: Seq<WarmReservation>) -> Seq<
    pool::WarmReservationView,
> {
    reservations.map_values(|reservation: WarmReservation| reservation@)
}

/// Reserve slots for as many attempts as may still start, `running` of them
/// being under way.
fn fill_attempts<S>(
    pool: &mut ConnectionWarmPool<S>,
    running: usize,
    limit: usize,
    now: u64,
) -> (reservations: Vec<WarmReservation>)
    requires
        pool::accounted(old(pool)@),
    ensures
        pool::accounted(final(pool)@),
        (final(pool)@, reservation_views(reservations@)) == serve_all(
            old(pool)@,
            now,
            (if running < limit {
                limit - running
            } else {
                0
            }) as nat,
        ),
{
    let mut reservations: Vec<WarmReservation> = Vec::new();
    let mut slots: usize = if running < limit {
        limit - running
    } else {
        0
    };
    let ghost wanted = slots as nat;
    let ghost start = pool@;
    assert(reservation_views(reservations@) =~= Seq::empty());
    assert(serve_all(start, now, wanted).1 =~= reservation_views(reservations@) + serve_all(
        start,
        now,
        wanted,
    ).1);
    while slots > 0
        invariant_except_break
            pool::accounted(pool@),
            serve_all(start, now, wanted).0 == serve_all(pool@, now, slots as nat).0,
            serve_all(start, now, wanted).1 == reservation_views(reservations@) + serve_all(
                pool@,
                now,
                slots as nat,
            ).1,
        ensures
            pool::accounted(pool@),
            serve_all(start, now, wanted).0 == pool@,
            serve_all(start, now, wanted).1 == reservation_views(reservations@),
        decreases slots,
    {
        let ghost before = pool@;
        let ghost had = reservation_views(reservations@);
        match pool.reserve_next(now) {
            None => {
                proof {
                    assert(!can_serve(before, now)) by {
                        if can_serve(before, now) {
                            let k = choose|k: int| #[trigger]
                                pool::is_first_eligible(before, k, now);
                            assert(pool::eligible(before, before.order[k], now));
                        }
                    }
                    assert(had + Seq::<pool::WarmReservationView>::empty() =~= had);
                }
                break;
            },
            Some(reservation) => {
                proof {
                    let k = choose|k: int|
                        {
                            &&& #[trigger] pool::is_first_eligible(before, k, now)
                            &&& reservation@ == pool::new_reservation(before, before.order[k])
                            &&& pool@ == pool::reserved(
                                pool::rotated(before, k + 1),
                                before.order[k],
                            )
                        };
                    let chosen = choose|k: int| #[trigger]
                        pool::is_first_eligible(before, k, now);
                    assert(can_serve(before, now));
                    assert(chosen == k) by {
                        if chosen < k {
                            assert(!pool::eligible(before, before.order[chosen], now));
                        } else if k < chosen {
                            assert(!pool::eligible(before, before.order[k], now));
                        }
                    }
                    let rest = serve_all(pool@, now, (slots - 1) as nat);
                    assert(had + (seq![reservation@] + rest.1) =~= had.push(reservation@) + rest.1);
                }
                reservations.push(reservation);
                assert(reservation_views(reservations@) =~= had.push(reservation@));
                slots = slots - 1;
                proof {
                    if slots == 0 {
                        assert(reservation_views(reservations@)
                            + Seq::<pool::WarmReservationView>::empty() =~= reservation_views(
                            reservations@,
                        ));
                    }
                }
            },
        }
    }
    reservations
}

/// Where fewer slots were reserved than could have been, no database is left
/// that may be served; every reservation occupies capacity.
pub proof fn lemma_serving_fills_the_slots<S>(
    state: pool::WarmPoolView<S>,
    now: u64,
    slots: nat,
)
    ensures
        serve_all(state, now, slots).1.len() <= slots,
        serve_all(state, now, slots).1.len() < slots ==> !can_serve(
            serve_all(state, now, slots).0,
            now,
        ),
        serve_all(state, now, slots).0.capacity_used == state.capacity_used + serve_all(
            state,
            now,
            slots,
        ).1.len(),
    decreases slots,
{
    if slots > 0 && can_serve(state, now) {
        let k = choose|k: int| #[trigger] pool::is_first_eligible(state, k, now);
        lemma_serving_fills_the_slots(served(state, k), now, (slots - 1) as nat);
    }
}

/// Keeps count of the attempts that are under way.
pub struct WarmScheduler {
    running: usize,
    limit: usize,
}

/// What the scheduler does before it waits for the next event.
pub struct SchedulerPlan {
    /// The attempts to start.
    pub launch: Vec<WarmReservation>,
    /// The time at which to look again even if nothing happens.
    pub retry_at: Option<u128>,
}

/// With `running` attempts of at most `limit` under way, a scheduler that looks at
/// `before` at the time `now` starts the attempts of `launched`, which leaves
/// `after`, and looks again at `wake`.
pub open spec fn is_plan<S>(
    before: pool::WarmPoolView<S>,
    now: u64,
    limit: nat,
    running: nat,
    after: pool::WarmPoolView<S>,
    launched: Seq<pool::WarmReservationView>,
    wake: Option<u128>,
) -> bool {
    &&& (after, launched) == serve_all(before, now, (limit - running) as nat)
    &&& pool::is_next_deadline(after, running + launched.len() < limit, wake)
}

/// The attempts under way once the scheduler was told of `event`.
pub open spec fn running_after(event: SchedulerEvent, running: nat) -> int {
    running - (if event is AttemptEnded {
        1int
    } else {
        0
    })
}

impl WarmScheduler {
    /// The attempts under way.
    pub closed spec fn running(&self) -> nat {
        self.running as nat
    }

    /// The attempts that may be under way at the same time.
    pub closed spec fn limit(&self) -> nat {
        self.limit as nat
    }

    #[verifier::type_invariant]
    spec fn within_limit(self) -> bool {
        self.running <= self.limit
    }

    /// A scheduler that has started nothing.
    pub fn new(config: &ConnectionWarmConfig) -> (scheduler: WarmScheduler)
        ensures
            scheduler.running() == 0,
            scheduler.limit() == connection_warm::attempt_limit(config@),
    {
        WarmScheduler { running: 0, limit: config.attempt_limit() }
    }

    /// Start as many attempts as may run, and find out how long to wait.
    pub fn plan<S>(&mut self, pool: &mut ConnectionWarmPool<S>, now: u64) -> (plan: SchedulerPlan)
        requires
            pool::accounted(old(pool)@),
        ensures
            pool::accounted(final(pool)@),
            is_plan(
                old(pool)@,
                now,
                old(self).limit(),
                old(self).running(),
                final(pool)@,
                reservation_views(plan.launch@),
                plan.retry_at,
            ),
            final(self).running() == old(self).running() + plan.launch@.len(),
            final(self).running() <= final(self).limit(),
            final(self).limit() == old(self).limit(),
    {
        proof {
            use_type_invariant(&*self);
            lemma_serving_fills_the_slots(pool@, now, (self.limit - self.running) as nat);
        }
        let launch = fill_attempts(pool, self.running, self.limit, now);
        assert(reservation_views(launch@).len() == launch@.len());
        let running: usize = self.running + launch.len();
        self.running = running;
        let retry_at = pool.next_retry_deadline(running < self.limit);
        SchedulerPlan { launch, retry_at }
    }

    /// Decide what an event means, and stop counting an attempt that has ended.
    pub fn on_event(&mut self, event: &SchedulerEvent) -> (r: Result<
        SchedulerStep,
        WarmSchedulerError,
    >)
        requires
            event is AttemptEnded ==> old(self).running() > 0,
        ensures
            r == event_step(*event),
            final(self).running() == running_after(*event, old(self).running()),
            final(self).limit() == old(self).limit(),
    {
        proof {
            use_type_invariant(&*self);
        }
        if let SchedulerEvent::AttemptEnded { .. } = event {
            self.running = self.running - 1;
        }
        on_event(event)
    }
}

/// A pool for this configuration; none where warming is disabled.
pub fn warm_pool<S>(config: ConnectionWarmConfig, default_user: &str) -> (r: Option<
    ConnectionWarmPool<S>,
>)
    ensures
        match r {
            Some(pool) => {
                &&& config@.per_database != 0
                &&& pool::accounted(pool@)
                &&& pool@.config == config@
                &&& pool@.profile == connection_warm::resolved_profile(
                    config@.startup_params,
                    default_user@,
                )
                &&& pool@.databases == Map::<u64, pool::WarmEntryView<S>>::empty()
                &&& pool@.order == Seq::<u64>::empty()
                &&& pool@.capacity_used == 0
                &&& !pool@.cancelled
            },
            None => config@.per_database == 0,
        },
{
    if config.is_enabled() {
        Some(ConnectionWarmPool::new(config, default_user))
    } else {
        None
    }
}

} // verus!
