//! What holds of a warm pool over any row of operations.
use vstd::arithmetic::power2::*;
use vstd::prelude::*;

use crate::connection_warm;
use crate::connection_warm::{attempt, pool, retry, scheduler};

verus! {

/// One operation on a pool.
pub enum PoolEvent<S> {
    Registered { id: u64, name: Seq<char> },
    Retired { id: u64 },
    /// A slot was asked for, for one database.
    Reserved { id: u64, now: u64 },
    /// A slot was asked for, for whichever database is next.
    Served { now: u64 },
    /// An attempt ended without a session.
    Released { id: u64 },
    /// An attempt ended with a session.
    Published { id: u64, session: S },
    /// An attempt failed. It still holds its slot.
    Failed { id: u64, now: u64 },
    /// A client asked for a spare, and the `taken` oldest spares left the pool.
    CheckedOut { id: u64, client: Map<Seq<char>, Seq<char>>, taken: nat },
    /// The spare at place `index` left the pool.
    Evicted { id: u64, index: int },
    ShutDown,
}

/// An attempt for `id` holds a slot.
pub open spec fn in_flight<S>(state: pool::WarmPoolView<S>, id: u64) -> bool {
    state.databases.dom().contains(id) && state.databases[id].in_flight > 0
}

/// The state that follows `state` on `event`; none where the event cannot
/// happen in that state.
pub open spec fn pool_step<S>(state: pool::WarmPoolView<S>, event: PoolEvent<S>) -> Option<
    pool::WarmPoolView<S>,
> {
    match event {
        PoolEvent::Registered { id, name } => Some(
            if pool::can_register(state, id) {
                pool::registered(state, id, name)
            } else {
                state
            },
        ),
        PoolEvent::Retired { id } => Some(
            if pool::can_retire(state, id) {
                pool::retired(state, id)
            } else {
                state
            },
        ),
        PoolEvent::Reserved { id, now } => Some(
            if pool::eligible(state, id, now) {
                pool::reserved(state, id)
            } else {
                state
            },
        ),
        PoolEvent::Served { now } => Some(scheduler::serve_all(state, now, 1).0),
        PoolEvent::Released { id } => if in_flight(state, id) {
            Some(pool::released(state, id))
        } else {
            None
        },
        PoolEvent::Published { id, session } => if !in_flight(state, id) {
            None
        } else if pool::accepts(state, id) {
            Some(pool::published(state, id, session))
        } else {
            Some(pool::released(state, id))
        },
        PoolEvent::Failed { id, now } => if !state.databases.dom().contains(id) {
            None
        } else if pool::accepts(state, id) {
            Some(pool::failed(state, id, now))
        } else {
            Some(state)
        },
        PoolEvent::CheckedOut { id, client, taken } => if pool::can_checkout(state, id, client)
            && taken <= state.databases[id].idle.len() {
            Some(pool::taken(state, id, taken as int))
        } else if !pool::can_checkout(state, id, client) && taken == 0 {
            Some(state)
        } else {
            None
        },
        PoolEvent::Evicted { id, index } => if state.databases.dom().contains(id) && 0 <= index
            < state.databases[id].idle.len() {
            Some(pool::evicted(state, id, index))
        } else {
            None
        },
        PoolEvent::ShutDown => Some(pool::shut_down(state)),
    }
}

/// The state of a pool that was in `start`, after `events`; none where they
/// cannot happen in this order.
pub open spec fn pool_after<S>(start: pool::WarmPoolView<S>, events: Seq<PoolEvent<S>>) -> Option<
    pool::WarmPoolView<S>,
>
    decreases events.len(),
{
    if events.len() == 0 {
        Some(start)
    } else {
        match pool_after(start, events.drop_last()) {
            Some(state) => pool_step(state, events.last()),
            None => None,
        }
    }
}

/// `state` is that of a pool that was just made.
pub open spec fn is_new<S>(state: pool::WarmPoolView<S>) -> bool {
    &&& connection_warm::valid_config(state.config)
    &&& state.databases == Map::<u64, pool::WarmEntryView<S>>::empty()
    &&& state.order == Seq::<u64>::empty()
    &&& state.capacity_used == 0
    &&& !state.cancelled
}

/// Serving databases keeps the accounts.
pub proof fn lemma_serving_keeps_accounts<S>(state: pool::WarmPoolView<S>, now: u64, slots: nat)
    requires
        pool::accounted(state),
    ensures
        pool::accounted(scheduler::serve_all(state, now, slots).0),
    decreases slots,
{
    if slots > 0 && scheduler::can_serve(state, now) {
        let k = choose|k: int| #[trigger] pool::is_first_eligible(state, k, now);
        let id = state.order[k];
        let turned = pool::rotated(state, k + 1);
        pool::lemma_rotated_accounted(state, k + 1);
        let entry = state.databases[id];
        assert(pool::entry_accounted(state.config, entry));
        pool::lemma_with_entry_accounted(
            turned,
            id,
            pool::WarmEntryView { in_flight: entry.in_flight + 1, ..entry },
            state.capacity_used + 1,
        );
        lemma_serving_keeps_accounts(scheduler::served(state, k), now, (slots - 1) as nat);
    }
}

/// Every operation keeps the accounts.
pub proof fn lemma_step_keeps_accounts<S>(state: pool::WarmPoolView<S>, event: PoolEvent<S>)
    requires
        pool::accounted(state),
    ensures
        pool_step(state, event) matches Some(after) ==> pool::accounted(after) && after.config
            == state.config,
{
    if let Some(after) = pool_step(state, event) {
        match event {
            PoolEvent::Registered { id, name } => {
                if pool::can_register(state, id) {
                    pool::lemma_registered_accounted(state, id, name);
                }
            },
            PoolEvent::Retired { id } => {
                if pool::can_retire(state, id) {
                    pool::lemma_retired_accounted(state, id);
                }
            },
            PoolEvent::Served { now } => {
                lemma_serving_keeps_accounts(state, now, 1);
                lemma_serving_keeps_config(state, now, 1);
            },
            PoolEvent::ShutDown => {
                pool::lemma_shut_down_accounted(state);
            },
            PoolEvent::Reserved { id, .. } | PoolEvent::Released { id } | PoolEvent::Published {
                id,
                ..
            } | PoolEvent::Failed { id, .. } | PoolEvent::CheckedOut {
                id,
                ..
            } | PoolEvent::Evicted { id, .. } => {
                if state.databases.dom().contains(id) {
                    assert(pool::entry_accounted(state.config, state.databases[id]));
                    pool::lemma_occupied_within_capacity(state, id);
                    if after != state {
                        pool::lemma_with_entry_accounted(
                            state,
                            id,
                            after.databases[id],
                            after.capacity_used,
                        );
                    }
                }
            },
        }
    }
}

/// Serving databases does not touch the configuration.
pub proof fn lemma_serving_keeps_config<S>(state: pool::WarmPoolView<S>, now: u64, slots: nat)
    ensures
        scheduler::serve_all(state, now, slots).0.config == state.config,
    decreases slots,
{
    if slots > 0 && scheduler::can_serve(state, now) {
        let k = choose|k: int| #[trigger] pool::is_first_eligible(state, k, now);
        lemma_serving_keeps_config(scheduler::served(state, k), now, (slots - 1) as nat);
    }
}

/// The accounts of a pool hold whatever was done to it since it was made.
pub proof fn lemma_history_keeps_accounts<S>(
    start: pool::WarmPoolView<S>,
    events: Seq<PoolEvent<S>>,
)
    requires
        is_new(start),
    ensures
        pool_after(start, events) matches Some(state) ==> pool::accounted(state),
    decreases events.len(),
{
    if events.len() > 0 {
        lemma_history_keeps_accounts(start, events.drop_last());
        if let Some(state) = pool_after(start, events.drop_last()) {
            lemma_step_keeps_accounts(state, events.last());
        }
    }
}

/// The failures of `id` in `events` since its last session was published.
/// Attempts that were given up are no failures.
pub open spec fn failures_since_success<S>(events: Seq<PoolEvent<S>>, id: u64) -> nat
    decreases events.len(),
{
    if events.len() == 0 {
        0
    } else {
        let before = failures_since_success(events.drop_last(), id);
        match events.last() {
            PoolEvent::Failed { id: failed, .. } => if failed == id {
                before + 1
            } else {
                before
            },
            PoolEvent::Published { id: published, .. } => if published == id {
                0
            } else {
                before
            },
            _ => before,
        }
    }
}

/// Serving databases changes nothing about one of them but its attempts.
proof fn lemma_serving_keeps_failures<S>(
    state: pool::WarmPoolView<S>,
    now: u64,
    slots: nat,
    id: u64,
)
    ensures
        ({
            let after = scheduler::serve_all(state, now, slots).0;
            &&& after.cancelled == state.cancelled
            &&& after.databases.dom().contains(id) == state.databases.dom().contains(id)
            &&& after.databases[id].failures == state.databases[id].failures
            &&& after.databases[id].retiring == state.databases[id].retiring
        }),
    decreases slots,
{
    if slots > 0 && scheduler::can_serve(state, now) {
        let k = choose|k: int| #[trigger] pool::is_first_eligible(state, k, now);
        lemma_serving_keeps_failures(scheduler::served(state, k), now, (slots - 1) as nat, id);
    }
}

/// A pool counts the failures of a database since its registration or its last
/// success, as long as the database takes part in warming.
pub proof fn lemma_failures_are_counted<S>(
    start: pool::WarmPoolView<S>,
    events: Seq<PoolEvent<S>>,
    id: u64,
)
    requires
        is_new(start),
    ensures
        match pool_after(start, events) {
            Some(state) => {
                &&& state.databases.dom().contains(id) && pool::accepts(state, id)
                    ==> state.databases[id].failures == failures_since_success(events, id)
                &&& !state.databases.dom().contains(id) ==> failures_since_success(events, id) == 0
            },
            None => true,
        },
    decreases events.len(),
{
    if events.len() > 0 {
        let front = events.drop_last();
        lemma_failures_are_counted(start, front, id);
        if let Some(state) = pool_after(start, front) {
            if let PoolEvent::Served { now } = events.last() {
                lemma_serving_keeps_failures(state, now, 1, id);
            }
        }
    }
}

/// The delay after the `k`-th failure in a row, in seconds: one, doubled with
/// every further failure, but never more than thirty.
pub open spec fn backoff_seconds(k: nat) -> nat {
    if pow2((k - 1) as nat) < 30 {
        pow2((k - 1) as nat)
    } else {
        30
    }
}

/// The `k`-th failure of a database since its registration or its last success
/// keeps it from being tried for one second, doubled with every further failure
/// up to thirty seconds. Its spares, its attempts, the capacity in use and all
/// other databases stay as they are. Once the database is retired or the pool
/// shut down, a failure changes nothing.
pub proof fn lemma_kth_failure_backs_off<S>(
    start: pool::WarmPoolView<S>,
    events: Seq<PoolEvent<S>>,
    id: u64,
    now: u64,
)
    requires
        is_new(start),
        pool_after(start, events) is Some,
        pool_after(start, events)->Some_0.databases.dom().contains(id),
    ensures
        ({
            let before = pool_after(start, events)->Some_0;
            let history = events.push(PoolEvent::Failed { id, now });
            let k = failures_since_success(history, id);
            &&& pool_after(start, history) matches Some(after) && if pool::accepts(before, id) {
                let entry = before.databases[id];
                &&& k >= 1
                &&& after.databases == before.databases.insert(
                    id,
                    pool::WarmEntryView {
                        retry_at: Some((now + backoff_seconds(k) * 1_000_000_000) as u128),
                        failures: k,
                        ..entry
                    },
                )
                &&& now + backoff_seconds(k) * 1_000_000_000 <= u128::MAX
                &&& after.capacity_used == before.capacity_used
                &&& after.order == before.order
            } else {
                after == before
            }
        }),
{
    let before = pool_after(start, events)->Some_0;
    let history = events.push(PoolEvent::Failed { id, now });
    assert(history.drop_last() =~= events);
    lemma_failures_are_counted(start, events, id);
    if pool::accepts(before, id) {
        let k = failures_since_success(history, id);
        retry::lemma_retry_delay_bounds((k - 1) as nat);
        assert(retry::retry_delay_ms((k - 1) as nat) == 1_000 * backoff_seconds(k));
    }
}

/// The delays of failures in a row are 1, 2, 4, 8, 16 seconds, and 30 from then
/// on.
pub proof fn lemma_backoff_doubles_up_to_thirty(k: nat)
    requires
        k >= 1,
    ensures
        k == 1 ==> backoff_seconds(k) == 1,
        k <= 4 ==> backoff_seconds(k + 1) == 2 * backoff_seconds(k),
        k >= 6 ==> backoff_seconds(k) == 30,
{
    lemma2_to64();
    if k <= 5 {
        lemma_pow2_unfold(k);
    } else {
        lemma_pow2_at_least(k);
    }
}

/// Powers of two from the fifth on are at least thirty.
proof fn lemma_pow2_at_least(k: nat)
    requires
        k >= 6,
    ensures
        pow2((k - 1) as nat) >= 30,
    decreases k,
{
    lemma2_to64();
    if k > 6 {
        lemma_pow2_at_least((k - 1) as nat);
        lemma_pow2_unfold((k - 1) as nat);
    }
}

/// The operations by which an attempt for `id` is settled.
pub open spec fn settlement<S>(
    id: u64,
    result: Result<S, attempt::WarmAttemptError>,
    cancelled: bool,
    now: u64,
) -> Seq<PoolEvent<S>> {
    match result {
        Err(error) => if attempt::counts_as_failure(error) {
            seq![PoolEvent::Failed { id, now }, PoolEvent::Released { id }]
        } else {
            seq![PoolEvent::Released { id }]
        },
        Ok(session) => if cancelled {
            seq![PoolEvent::Released { id }]
        } else {
            seq![PoolEvent::Published { id, session }]
        },
    }
}

/// To settle an attempt is to note its failure, if it is one, and to give its
/// slot back, or to publish its session. An attempt that was given up is no
/// failure.
pub proof fn lemma_settlement_is_a_history<S>(
    state: pool::WarmPoolView<S>,
    id: u64,
    result: Result<S, attempt::WarmAttemptError>,
    cancelled: bool,
    now: u64,
)
    requires
        in_flight(state, id),
    ensures
        pool_after(state, settlement(id, result, cancelled, now)) == Some(
            attempt::attempt_settled(state, id, result, cancelled, now),
        ),
{
    reveal_with_fuel(pool_after, 3);
}

/// An attempt that was given up, before or after it had a session, does not
/// count: the next failure waits as if the attempt had never been.
pub proof fn lemma_giving_up_keeps_the_backoff<S>(
    events: Seq<PoolEvent<S>>,
    id: u64,
    result: Result<S, attempt::WarmAttemptError>,
    now: u64,
)
    requires
        result matches Err(error) ==> !attempt::counts_as_failure(error),
    ensures
        failures_since_success(events + settlement(id, result, true, now), id)
            == failures_since_success(events, id),
{
    let history = events + settlement(id, result, true, now);
    assert(history.drop_last() =~= events);
    assert(history.last() == PoolEvent::<S>::Released { id });
}

/// Serving databases touches no spare and no setting.
proof fn lemma_serving_keeps_spares<S>(
    state: pool::WarmPoolView<S>,
    now: u64,
    slots: nat,
    id: u64,
)
    ensures
        ({
            let after = scheduler::serve_all(state, now, slots).0;
            &&& after.config == state.config
            &&& after.profile == state.profile
            &&& after.databases[id].idle == state.databases[id].idle
        }),
    decreases slots,
{
    if slots > 0 && scheduler::can_serve(state, now) {
        let k = choose|k: int| #[trigger] pool::is_first_eligible(state, k, now);
        lemma_serving_keeps_spares(scheduler::served(state, k), now, (slots - 1) as nat, id);
    }
}

/// `event` takes no spare of `id` and does not end its warming.
pub open spec fn leaves_spares_alone<S>(event: PoolEvent<S>, id: u64) -> bool {
    match event {
        PoolEvent::Retired { id: other } => other != id,
        PoolEvent::CheckedOut { id: other, .. } => other != id,
        PoolEvent::Evicted { id: other, .. } => other != id,
        PoolEvent::ShutDown => false,
        _ => true,
    }
}

/// A spare waits for its client: as long as spares of its database are neither
/// taken nor evicted, the database is not retired and the pool not shut down,
/// every spare stays where it is, and whoever could be given it still can.
/// Failures, reservations, attempts that end and other databases do not matter.
pub proof fn lemma_spare_waits_for_its_client<S>(
    start: pool::WarmPoolView<S>,
    events: Seq<PoolEvent<S>>,
    id: u64,
    client: Map<Seq<char>, Seq<char>>,
)
    requires
        pool::can_checkout(start, id, client),
        pool_after(start, events) is Some,
        forall|i: int| 0 <= i < events.len() ==> leaves_spares_alone(#[trigger] events[i], id),
    ensures
        ({
            let after = pool_after(start, events)->Some_0;
            &&& pool::can_checkout(after, id, client)
            &&& start.databases[id].idle.len() <= after.databases[id].idle.len()
            &&& forall|k: int|
                0 <= k < start.databases[id].idle.len() ==> after.databases[id].idle[k]
                    == start.databases[id].idle[k]
        }),
    decreases events.len(),
{
    if events.len() > 0 {
        let front = events.drop_last();
        assert forall|i: int| 0 <= i < front.len() implies leaves_spares_alone(
            #[trigger] front[i],
            id,
        ) by {
            assert(front[i] == events[i]);
        }
        lemma_spare_waits_for_its_client(start, front, id, client);
        let before = pool_after(start, front)->Some_0;
        assert(leaves_spares_alone(events[events.len() - 1], id));
        if let PoolEvent::Served { now } = events.last() {
            lemma_serving_keeps_spares(before, now, 1, id);
            lemma_serving_keeps_failures(before, now, 1, id);
        }
    }
}

/// What every operation does to the database that it is not about: nothing.
/// Only a shutdown and the serving of whichever database is next are about all.
pub proof fn lemma_operations_mind_their_database<S>(
    state: pool::WarmPoolView<S>,
    event: PoolEvent<S>,
    id: u64,
)
    requires
        pool_step(state, event) is Some,
        state.databases.dom().contains(id),
        match event {
            PoolEvent::Registered { id: other, .. } => other != id,
            PoolEvent::Retired { id: other } => other != id,
            PoolEvent::Reserved { id: other, .. } => other != id,
            PoolEvent::Released { id: other } => other != id,
            PoolEvent::Published { id: other, .. } => other != id,
            PoolEvent::Failed { id: other, .. } => other != id,
            PoolEvent::CheckedOut { id: other, .. } => other != id,
            PoolEvent::Evicted { id: other, .. } => other != id,
            PoolEvent::Served { .. } => false,
            PoolEvent::ShutDown => false,
        },
    ensures
        pool_step(state, event)->Some_0.databases.dom().contains(id),
        pool_step(state, event)->Some_0.databases[id] == state.databases[id],
{
}

/// What is asked of a pool is done where it can be, and changes nothing where it
/// cannot. An attempt that ends always gives its slot back: with a session to a
/// database that takes part, as a spare; otherwise just so. A failure is noted
/// with a database that takes part.
pub proof fn lemma_operations_are_carried_out<S>(
    state: pool::WarmPoolView<S>,
    id: u64,
    name: Seq<char>,
    session: S,
    now: u64,
)
    ensures
        pool_step(state, PoolEvent::Registered { id, name }) == Some(
            if state.config.per_database > 0 && !state.cancelled && !state.databases.dom().contains(
                id,
            ) {
                pool::registered(state, id, name)
            } else {
                state
            },
        ),
        pool_step(state, PoolEvent::Retired { id }) == Some(
            if state.databases.dom().contains(id) && !state.databases[id].retiring {
                pool::retired(state, id)
            } else {
                state
            },
        ),
        pool_step(state, PoolEvent::Reserved { id, now }) == Some(
            if pool::eligible(state, id, now) {
                pool::reserved(state, id)
            } else {
                state
            },
        ),
        state.databases.dom().contains(id) && state.databases[id].in_flight > 0 ==> {
            let takes_part = !state.cancelled && !state.databases[id].retiring;
            &&& pool_step(state, PoolEvent::Released { id }) == Some(pool::released(state, id))
            &&& pool_step(state, PoolEvent::Published { id, session }) == Some(
                if takes_part {
                    pool::published(state, id, session)
                } else {
                    pool::released(state, id)
                },
            )
            &&& pool_step(state, PoolEvent::Failed { id, now }) == Some(
                if takes_part {
                    pool::failed(state, id, now)
                } else {
                    state
                },
            )
        },
        pool_step(state, PoolEvent::<S>::ShutDown) == Some(pool::shut_down(state)),
{
}

/// Asking for whichever database is next serves the first in order that may be
/// served, and nobody where none may be.
pub proof fn lemma_the_first_is_served<S>(state: pool::WarmPoolView<S>, now: u64, k: int)
    ensures
        0 <= k < state.order.len() && pool::eligible(state, state.order[k], now) && (forall|j: int|
            0 <= j < k ==> !pool::eligible(state, #[trigger] state.order[j], now)) ==> pool_step(
            state,
            PoolEvent::Served { now },
        ) == Some(pool::reserved(pool::rotated(state, k + 1), state.order[k])),
        (forall|j: int|
            0 <= j < state.order.len() ==> !pool::eligible(state, #[trigger] state.order[j], now))
            ==> pool_step(state, PoolEvent::Served { now }) == Some(state),
{
    if 0 <= k < state.order.len() && pool::eligible(state, state.order[k], now) && (forall|j: int|
        0 <= j < k ==> !pool::eligible(state, #[trigger] state.order[j], now)) {
        scheduler::lemma_serving_once(state, k, now);
    }
}

} // verus!
