//! What holds of a scheduler over a whole run on its pool.
use vstd::prelude::*;

use crate::connection_warm;
use crate::connection_warm::{attempt, history, pool, scheduler};

verus! {

/// The sum of a number that each database has.
pub open spec fn summed<S>(
    databases: Map<u64, pool::WarmEntryView<S>>,
    weight: spec_fn(pool::WarmEntryView<S>) -> nat,
) -> nat
    decreases databases.dom().len(),
{
    if databases.dom().finite() && databases.dom().len() > 0 {
        let id = databases.dom().choose();
        weight(databases[id]) + summed(databases.remove(id), weight)
    } else {
        0
    }
}

/// The attempts of a database that hold a slot.
pub open spec fn attempts_of<S>() -> spec_fn(pool::WarmEntryView<S>) -> nat {
    |entry: pool::WarmEntryView<S>| entry.in_flight
}

/// The spares of a database.
pub open spec fn spares_of<S>() -> spec_fn(pool::WarmEntryView<S>) -> nat {
    |entry: pool::WarmEntryView<S>| entry.idle.len()
}

/// The attempts that hold a slot, over all databases.
pub open spec fn attempts_in_flight<S>(state: pool::WarmPoolView<S>) -> nat {
    summed(state.databases, attempts_of())
}

/// The spares of all databases.
pub open spec fn idle_spares<S>(state: pool::WarmPoolView<S>) -> nat {
    summed(state.databases, spares_of())
}

proof fn lemma_summed_remove<S>(
    databases: Map<u64, pool::WarmEntryView<S>>,
    weight: spec_fn(pool::WarmEntryView<S>) -> nat,
    id: u64,
)
    requires
        databases.dom().finite(),
        databases.dom().contains(id),
    ensures
        summed(databases, weight) == weight(databases[id]) + summed(databases.remove(id), weight),
    decreases databases.dom().len(),
{
    let first = databases.dom().choose();
    if first != id {
        let rest = databases.remove(first);
        lemma_summed_remove(rest, weight, id);
        lemma_summed_remove(databases.remove(id), weight, first);
        assert(rest.remove(id) =~= databases.remove(id).remove(first));
    }
}

/// The sum after one database has changed or was added.
proof fn lemma_summed_insert<S>(
    databases: Map<u64, pool::WarmEntryView<S>>,
    weight: spec_fn(pool::WarmEntryView<S>) -> nat,
    id: u64,
    entry: pool::WarmEntryView<S>,
)
    requires
        databases.dom().finite(),
    ensures
        summed(databases.insert(id, entry), weight) == weight(entry) + summed(databases, weight) - (
        if databases.dom().contains(id) {
            weight(databases[id])
        } else {
            0
        }),
{
    let changed = databases.insert(id, entry);
    lemma_summed_remove(changed, weight, id);
    if databases.dom().contains(id) {
        lemma_summed_remove(databases, weight, id);
        assert(changed.remove(id) =~= databases.remove(id));
    } else {
        assert(changed.remove(id) =~= databases);
    }
}

/// The sum depends on the numbers of the databases alone.
proof fn lemma_summed_same<S>(
    databases: Map<u64, pool::WarmEntryView<S>>,
    others: Map<u64, pool::WarmEntryView<S>>,
    weight: spec_fn(pool::WarmEntryView<S>) -> nat,
)
    requires
        databases.dom().finite(),
        databases.dom() == others.dom(),
        forall|id: u64| #[trigger]
            databases.dom().contains(id) ==> weight(databases[id]) == weight(others[id]),
    ensures
        summed(databases, weight) == summed(others, weight),
    decreases databases.dom().len(),
{
    if databases.dom().len() > 0 {
        let id = databases.dom().choose();
        lemma_summed_same(databases.remove(id), others.remove(id), weight);
    }
}

/// Where the sum is zero, the number of every database is; where it is not, some
/// database has one.
proof fn lemma_summed_zero<S>(
    databases: Map<u64, pool::WarmEntryView<S>>,
    weight: spec_fn(pool::WarmEntryView<S>) -> nat,
)
    requires
        databases.dom().finite(),
    ensures
        summed(databases, weight) == 0 <==> forall|id: u64| #[trigger]
            databases.dom().contains(id) ==> weight(databases[id]) == 0,
    decreases databases.dom().len(),
{
    if summed(databases, weight) == 0 {
        assert forall|id: u64| #[trigger] databases.dom().contains(id) implies weight(databases[id])
            == 0 by {
            lemma_summed_remove(databases, weight, id);
        }
    } else {
        let id = databases.dom().choose();
        let rest = databases.remove(id);
        lemma_summed_zero(rest, weight);
        if weight(databases[id]) == 0 {
            let other = choose|other: u64|
                rest.dom().contains(other) && weight(#[trigger] rest[other]) != 0;
            assert(databases.dom().contains(other));
        }
    }
}

/// The capacity in use is that of the attempts in flight and of the spares.
pub proof fn lemma_capacity_is_attempts_and_spares<S>(state: pool::WarmPoolView<S>)
    requires
        pool::accounted(state),
    ensures
        state.capacity_used == attempts_in_flight(state) + idle_spares(state),
{
    lemma_total_splits(state.databases);
}

proof fn lemma_total_splits<S>(databases: Map<u64, pool::WarmEntryView<S>>)
    requires
        databases.dom().finite(),
    ensures
        pool::total(databases) == summed(databases, attempts_of()) + summed(
            databases,
            spares_of(),
        ),
    decreases databases.dom().len(),
{
    if databases.dom().len() > 0 {
        lemma_total_splits(databases.remove(databases.dom().choose()));
    }
}

/// A pool whose databases are all empty has no spares.
pub(crate) proof fn lemma_no_spares<S>(state: pool::WarmPoolView<S>)
    requires
        state.databases.dom().finite(),
        forall|id: u64| #[trigger]
            state.databases.dom().contains(id) ==> state.databases[id].idle.len() == 0,
    ensures
        idle_spares(state) == 0,
{
    lemma_summed_zero(state.databases, spares_of());
}

/// Pools with the same attempts for each database have the same attempts.
pub(crate) proof fn lemma_same_attempts<S>(
    state: pool::WarmPoolView<S>,
    after: pool::WarmPoolView<S>,
)
    requires
        state.databases.dom().finite(),
        forall|id: u64| #[trigger]
            state.databases.dom().contains(id) <==> after.databases.dom().contains(id),
        forall|id: u64| #[trigger]
            state.databases.dom().contains(id) ==> state.databases[id].in_flight
                == after.databases[id].in_flight,
    ensures
        attempts_in_flight(state) == attempts_in_flight(after),
{
    assert(state.databases.dom() =~= after.databases.dom());
    lemma_summed_same(state.databases, after.databases, attempts_of());
}

/// The databases in order have all spares.
pub(crate) proof fn lemma_ordered_spares<S>(state: pool::WarmPoolView<S>)
    requires
        pool::accounted(state),
    ensures
        pool::all_idle(state.order, state.databases).len() == idle_spares(state),
{
    assert forall|id: u64| #[trigger]
        state.databases.dom().contains(id) && !state.order.contains(
            id,
        ) implies state.databases[id].idle.len() == 0 by {
        assert(pool::entry_accounted(state.config, state.databases[id]));
    }
    assert forall|k: int| 0 <= k < state.order.len() implies state.databases.dom().contains(
        #[trigger] state.order[k],
    ) by {
        assert(state.order.contains(state.order[k]));
    }
    lemma_listed_spares(state.order, state.databases, state.databases);
}

/// Where every spare belongs to a listed database, the listed spares are all.
proof fn lemma_listed_spares<S>(
    order: Seq<u64>,
    databases: Map<u64, pool::WarmEntryView<S>>,
    left: Map<u64, pool::WarmEntryView<S>>,
)
    requires
        left.dom().finite(),
        order.no_duplicates(),
        forall|k: int| 0 <= k < order.len() ==> left.dom().contains(#[trigger] order[k]),
        forall|id: u64| #[trigger] left.dom().contains(id) ==> left[id] == databases[id],
        forall|id: u64| #[trigger]
            left.dom().contains(id) && !order.contains(id) ==> left[id].idle.len() == 0,
    ensures
        pool::all_idle(order, databases).len() == summed(left, spares_of()),
    decreases order.len(),
{
    if order.len() == 0 {
        lemma_summed_zero(left, spares_of());
    } else {
        let id = order.last();
        let front = order.drop_last();
        let rest = left.remove(id);
        assert(order[order.len() - 1] == id);
        assert(left.dom().contains(id));
        lemma_summed_remove(left, spares_of(), id);
        assert forall|k: int| 0 <= k < front.len() implies rest.dom().contains(
            #[trigger] front[k],
        ) by {
            assert(front[k] == order[k]);
            assert(order[k] != order[order.len() - 1]);
        }
        assert forall|other: u64| #[trigger]
            rest.dom().contains(other) && !front.contains(other) implies rest[other].idle.len()
            == 0 by {
            if order.contains(other) {
                let k = choose|k: int| 0 <= k < order.len() && order[k] == other;
                assert(front[k] == other);
            }
        }
        lemma_listed_spares(front, databases, rest);
    }
}

/// A scheduler on its pool.
pub struct RunView<S> {
    pub pool: pool::WarmPoolView<S>,
    /// The attempts that the scheduler counts as under way.
    pub running: nat,
    /// Those among them that have ended without the scheduler having been told.
    pub ended: nat,
}

/// What happens to a scheduler or to its pool.
pub enum RunEvent<S> {
    /// The scheduler starts as many attempts as may run.
    Planned { now: u64 },
    /// An attempt ends by itself and is settled.
    Settled { id: u64, result: Result<S, attempt::WarmAttemptError>, cancelled: bool, now: u64 },
    /// The scheduler is told of the end of an attempt.
    Noted,
    /// An attempt under way is dropped with the scheduler.
    Dropped { id: u64 },
    /// Anyone does something to the pool that is no matter of attempts.
    Elsewhere(history::PoolEvent<S>),
}

/// `event` neither asks for a slot nor gives one back.
pub open spec fn leaves_attempts_alone<S>(event: history::PoolEvent<S>) -> bool {
    ||| event is Registered
    ||| event is Retired
    ||| event is CheckedOut
    ||| event is Evicted
    ||| event is ShutDown
}

/// The state that follows `state` on `event`; none where the event cannot
/// happen in that state.
pub open spec fn run_step<S>(state: RunView<S>, event: RunEvent<S>) -> Option<RunView<S>> {
    match event {
        RunEvent::Planned { now } => {
            let limit = connection_warm::attempt_limit(state.pool.config);
            let (after, launched) = scheduler::serve_all(
                state.pool,
                now,
                (limit - state.running) as nat,
            );
            Some(RunView { pool: after, running: state.running + launched.len(), ..state })
        },
        RunEvent::Settled { id, result, cancelled, now } => if history::in_flight(
            state.pool,
            id,
        ) {
            Some(
                RunView {
                    pool: attempt::attempt_settled(state.pool, id, result, cancelled, now),
                    ended: state.ended + 1,
                    ..state
                },
            )
        } else {
            None
        },
        RunEvent::Noted => if state.ended > 0 && state.running > 0 {
            Some(
                RunView {
                    running: (state.running - 1) as nat,
                    ended: (state.ended - 1) as nat,
                    ..state
                },
            )
        } else {
            None
        },
        RunEvent::Dropped { id } => if history::in_flight(state.pool, id) && state.running > 0 {
            Some(
                RunView {
                    pool: pool::released(state.pool, id),
                    running: (state.running - 1) as nat,
                    ..state
                },
            )
        } else {
            None
        },
        RunEvent::Elsewhere(event) => if leaves_attempts_alone(event) {
            match history::pool_step(state.pool, event) {
                Some(after) => Some(RunView { pool: after, ..state }),
                None => None,
            }
        } else {
            None
        },
    }
}

/// The state of a run that was in `start`, after `events`; none where they
/// cannot happen in this order.
pub open spec fn run_after<S>(start: RunView<S>, events: Seq<RunEvent<S>>) -> Option<RunView<S>>
    decreases events.len(),
{
    if events.len() == 0 {
        Some(start)
    } else {
        match run_after(start, events.drop_last()) {
            Some(state) => run_step(state, events.last()),
            None => None,
        }
    }
}

/// A scheduler that has started nothing, on a pool without reservations.
pub open spec fn is_start<S>(state: RunView<S>) -> bool {
    &&& pool::accounted(state.pool)
    &&& attempts_in_flight(state.pool) == 0
    &&& state.running == 0
    &&& state.ended == 0
}

/// The books of a run: the scheduler counts the attempts in flight and those of
/// whose end it was not told, and never more than its limit.
pub open spec fn run_accounted<S>(state: RunView<S>) -> bool {
    &&& pool::accounted(state.pool)
    &&& state.running == attempts_in_flight(state.pool) + state.ended
    &&& state.running <= connection_warm::attempt_limit(state.pool.config)
}

/// Serving databases puts one attempt in flight for each reservation.
proof fn lemma_serving_counts<S>(state: pool::WarmPoolView<S>, now: u64, slots: nat)
    requires
        state.databases.dom().finite(),
    ensures
        attempts_in_flight(scheduler::serve_all(state, now, slots).0) == attempts_in_flight(state)
            + scheduler::serve_all(state, now, slots).1.len(),
    decreases slots,
{
    if slots > 0 && scheduler::can_serve(state, now) {
        let k = choose|k: int| #[trigger] pool::is_first_eligible(state, k, now);
        let id = state.order[k];
        let after = scheduler::served(state, k);
        lemma_summed_insert(state.databases, attempts_of(), id, after.databases[id]);
        assert(after.databases =~= state.databases.insert(id, after.databases[id]));
        lemma_serving_counts(after, now, (slots - 1) as nat);
    }
}

/// What leaves attempts alone leaves their number alone.
proof fn lemma_elsewhere_counts<S>(state: pool::WarmPoolView<S>, event: history::PoolEvent<S>)
    requires
        pool::accounted(state),
        leaves_attempts_alone(event),
    ensures
        history::pool_step(state, event) matches Some(after) ==> attempts_in_flight(after)
            == attempts_in_flight(state),
{
    if let Some(after) = history::pool_step(state, event) {
        match event {
            history::PoolEvent::Registered { id, .. } | history::PoolEvent::Retired {
                id,
            } | history::PoolEvent::CheckedOut { id, .. } | history::PoolEvent::Evicted {
                id,
                ..
            } => {
                if after != state {
                    lemma_summed_insert(state.databases, attempts_of(), id, after.databases[id]);
                    assert(after.databases =~= state.databases.insert(id, after.databases[id]));
                }
            },
            _ => {
                assert(after.databases.dom() =~= state.databases.dom());
                lemma_summed_same(state.databases, after.databases, attempts_of());
            },
        }
    }
}

/// Everything that happens to a run keeps its books.
proof fn lemma_run_step<S>(state: RunView<S>, event: RunEvent<S>)
    requires
        run_accounted(state),
    ensures
        run_step(state, event) matches Some(after) ==> run_accounted(after) && after.pool.config
            == state.pool.config,
{
    if let Some(after) = run_step(state, event) {
        match event {
            RunEvent::Planned { now } => {
                let slots = (connection_warm::attempt_limit(state.pool.config) - state.running)
                    as nat;
                history::lemma_serving_keeps_accounts(state.pool, now, slots);
                history::lemma_serving_keeps_config(state.pool, now, slots);
                scheduler::lemma_serving_fills_the_slots(state.pool, now, slots);
                lemma_serving_counts(state.pool, now, slots);
            },
            RunEvent::Settled { id, result, cancelled, now } => {
                lemma_settled_accounted(state.pool, id, result, cancelled, now);
                lemma_summed_insert(
                    state.pool.databases,
                    attempts_of(),
                    id,
                    after.pool.databases[id],
                );
                assert(after.pool.databases =~= state.pool.databases.insert(
                    id,
                    after.pool.databases[id],
                ));
            },
            RunEvent::Dropped { id } => {
                history::lemma_step_keeps_accounts(
                    state.pool,
                    history::PoolEvent::Released { id },
                );
                lemma_summed_insert(
                    state.pool.databases,
                    attempts_of(),
                    id,
                    after.pool.databases[id],
                );
            },
            RunEvent::Elsewhere(event) => {
                history::lemma_step_keeps_accounts(state.pool, event);
                lemma_elsewhere_counts(state.pool, event);
            },
            RunEvent::Noted => {},
        }
    }
}

/// Settling an attempt keeps the accounts of the pool.
proof fn lemma_settled_accounted<S>(
    state: pool::WarmPoolView<S>,
    id: u64,
    result: Result<S, attempt::WarmAttemptError>,
    cancelled: bool,
    now: u64,
)
    requires
        pool::accounted(state),
        history::in_flight(state, id),
    ensures
        pool::accounted(attempt::attempt_settled(state, id, result, cancelled, now)),
        attempt::attempt_settled(state, id, result, cancelled, now).config == state.config,
{
    let after = attempt::attempt_settled(state, id, result, cancelled, now);
    assert(pool::entry_accounted(state.config, state.databases[id]));
    pool::lemma_occupied_within_capacity(state, id);
    pool::lemma_with_entry_accounted(state, id, after.databases[id], after.capacity_used);
    assert(after =~= pool::with_entry(state, id, after.databases[id], after.capacity_used));
}

proof fn lemma_run_is_accounted<S>(start: RunView<S>, events: Seq<RunEvent<S>>)
    requires
        is_start(start),
        run_after(start, events) is Some,
    ensures
        run_accounted(run_after(start, events)->Some_0),
        run_after(start, events)->Some_0.pool.config == start.pool.config,
    decreases events.len(),
{
    if events.len() > 0 {
        lemma_run_is_accounted(start, events.drop_last());
        lemma_run_step(run_after(start, events.drop_last())->Some_0, events.last());
    } else {
        connection_warm::lemma_attempt_limit_is_positive(start.pool.config);
    }
}

/// At every moment of a run, whatever is done to the pool meanwhile, no more
/// attempts are in flight than the scheduler counts, and it counts no more than
/// the configured concurrency nor than the global cap. Attempts in flight and
/// spares are all that occupies capacity.
pub proof fn lemma_run_stays_within_limit<S>(start: RunView<S>, events: Seq<RunEvent<S>>)
    requires
        is_start(start),
        run_after(start, events) is Some,
    ensures
        ({
            let state = run_after(start, events)->Some_0;
            &&& attempts_in_flight(state.pool) <= state.running
            &&& state.running <= connection_warm::attempt_limit(start.pool.config)
            &&& state.running <= start.pool.config.concurrency
            &&& state.running <= start.pool.config.max_total
            &&& state.pool.capacity_used == attempts_in_flight(state.pool) + idle_spares(
                state.pool,
            )
            &&& pool::accounted(state.pool)
        }),
{
    let state = run_after(start, events)->Some_0;
    lemma_run_is_accounted(start, events);
    lemma_capacity_is_attempts_and_spares(state.pool);
    connection_warm::lemma_attempt_limit_is_positive(start.pool.config);
}

/// `events` do nothing but drop attempts.
pub open spec fn only_drops<S>(events: Seq<RunEvent<S>>) -> bool {
    forall|i: int| 0 <= i < events.len() ==> (#[trigger] events[i]) is Dropped
}

/// `after` is `before` with fewer attempts in flight.
pub open spec fn differ_in_attempts<S>(
    before: pool::WarmPoolView<S>,
    after: pool::WarmPoolView<S>,
) -> bool {
    &&& after.config == before.config
    &&& after.profile == before.profile
    &&& after.order == before.order
    &&& after.cancelled == before.cancelled
    &&& after.databases.dom() == before.databases.dom()
    &&& forall|id: u64| #[trigger]
        before.databases.dom().contains(id) ==> after.databases[id] == (pool::WarmEntryView {
            in_flight: after.databases[id].in_flight,
            ..before.databases[id]
        })
}

proof fn lemma_drops<S>(state: RunView<S>, drops: Seq<RunEvent<S>>)
    requires
        run_accounted(state),
        only_drops(drops),
        run_after(state, drops) is Some,
    ensures
        run_accounted(run_after(state, drops)->Some_0),
        differ_in_attempts(state.pool, run_after(state, drops)->Some_0.pool),
        run_after(state, drops)->Some_0.ended == state.ended,
    decreases drops.len(),
{
    if drops.len() > 0 {
        let front = drops.drop_last();
        assert forall|i: int| 0 <= i < front.len() implies (#[trigger] front[i]) is Dropped by {
            assert(front[i] == drops[i]);
        }
        lemma_drops(state, front);
        let before = run_after(state, front)->Some_0;
        let after = run_after(state, drops)->Some_0;
        assert(drops[drops.len() - 1] is Dropped);
        lemma_run_step(before, drops.last());
        assert(after.pool.databases.dom() =~= before.pool.databases.dom());
    }
}

/// Once a scheduler has ended and all its attempts were dropped, nothing is in
/// flight, every spare that was in the pool is still there, and the spares are
/// all that occupies capacity.
pub proof fn lemma_ended_run_leaves_spares<S>(
    start: RunView<S>,
    events: Seq<RunEvent<S>>,
    drops: Seq<RunEvent<S>>,
)
    requires
        is_start(start),
        run_after(start, events) is Some,
        only_drops(drops),
        run_after(run_after(start, events)->Some_0, drops) is Some,
        run_after(run_after(start, events)->Some_0, drops)->Some_0.running == run_after(
            run_after(start, events)->Some_0,
            drops,
        )->Some_0.ended,
    ensures
        ({
            let last = run_after(start, events)->Some_0.pool;
            let left = run_after(run_after(start, events)->Some_0, drops)->Some_0.pool;
            &&& differ_in_attempts(last, left)
            &&& attempts_in_flight(left) == 0
            &&& forall|id: u64| #[trigger]
                left.databases.dom().contains(id) ==> left.databases[id].in_flight == 0
            &&& left.capacity_used == idle_spares(left)
            &&& idle_spares(left) == idle_spares(last)
        }),
{
    let state = run_after(start, events)->Some_0;
    let left = run_after(state, drops)->Some_0.pool;
    lemma_run_is_accounted(start, events);
    lemma_drops(state, drops);
    lemma_capacity_is_attempts_and_spares(left);
    lemma_summed_zero(left.databases, attempts_of());
    lemma_summed_same(state.pool.databases, left.databases, spares_of());
}

/// As long as an attempt is under way that has not ended, it can be dropped.
pub proof fn lemma_attempt_can_be_dropped<S>(start: RunView<S>, events: Seq<RunEvent<S>>)
    requires
        is_start(start),
        run_after(start, events) is Some,
        run_after(start, events)->Some_0.running > run_after(start, events)->Some_0.ended,
    ensures
        exists|id: u64| #[trigger]
            run_step(run_after(start, events)->Some_0, RunEvent::Dropped { id }) is Some,
{
    let state = run_after(start, events)->Some_0;
    lemma_run_is_accounted(start, events);
    lemma_summed_zero(state.pool.databases, attempts_of());
    let id = choose|id: u64|
        state.pool.databases.dom().contains(id) && (#[trigger] state.pool.databases[id]).in_flight
            != 0;
    assert(run_step(state, RunEvent::Dropped { id }) is Some);
}

} // verus!
