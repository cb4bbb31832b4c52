//! What holds of a warm pool across its operations.
use vstd::prelude::*;

use crate::connection_warm;
use crate::connection_warm::attempt::WarmAttemptError;
use crate::connection_warm::scheduler::{SchedulerEvent, SchedulerStep, WarmSchedulerError};
use crate::connection_warm::{attempt, pool, retry, run, scheduler, startup};

verus! {

/// A database that was registered once cannot be registered again, not even
/// after it was retired.
pub proof fn lemma_registration_is_for_good<S>(
    state: pool::WarmPoolView<S>,
    id: u64,
    name: Seq<char>,
)
    ensures
        !pool::can_register(pool::registered(state, id, name), id),
        !pool::can_register(pool::retired(state, id), id),
{
}

/// A retired database is never served, never hands out a spare, takes no
/// session or failure, and cannot be retired again.
pub proof fn lemma_retirement_is_for_good<S>(
    state: pool::WarmPoolView<S>,
    id: u64,
    now: u64,
    client: Map<Seq<char>, Seq<char>>,
)
    ensures
        !pool::eligible(pool::retired(state, id), id, now),
        !pool::can_checkout(pool::retired(state, id), id, client),
        !pool::accepts(pool::retired(state, id), id),
        !pool::can_retire(pool::retired(state, id), id),
{
}

/// Retiring a database frees the capacity of its spares and leaves that of its
/// attempts in flight.
pub proof fn lemma_retirement_frees_spares<S>(state: pool::WarmPoolView<S>, id: u64)
    requires
        pool::accounted(state),
        pool::can_retire(state, id),
    ensures
        pool::retired(state, id).capacity_used + state.databases[id].idle.len()
            == state.capacity_used,
        pool::occupied(pool::retired(state, id).databases[id]) == state.databases[id].in_flight,
{
    pool::lemma_total_remove(state.databases, id);
}

/// Serving one database leaves every other one as it is.
pub proof fn lemma_databases_are_independent<S>(
    state: pool::WarmPoolView<S>,
    id: u64,
    other: u64,
    session: S,
    now: u64,
    n: int,
)
    requires
        id != other,
        state.databases.dom().contains(other),
    ensures
        pool::reserved(state, id).databases[other] == state.databases[other],
        pool::released(state, id).databases[other] == state.databases[other],
        pool::published(state, id, session).databases[other] == state.databases[other],
        pool::failed(state, id, now).databases[other] == state.databases[other],
        pool::taken(state, id, n).databases[other] == state.databases[other],
        pool::evicted(state, id, n).databases[other] == state.databases[other],
        pool::retired(state, id).databases[other] == state.databases[other],
{
}

/// Publication turns an attempt in flight into a spare: the capacity in use and
/// the room that the database takes stay the same.
pub proof fn lemma_publication_keeps_capacity<S>(
    state: pool::WarmPoolView<S>,
    id: u64,
    session: S,
)
    requires
        state.databases[id].in_flight > 0,
    ensures
        pool::published(state, id, session).capacity_used == state.capacity_used,
        pool::occupied(pool::published(state, id, session).databases[id]) == pool::occupied(
            state.databases[id],
        ),
{
}

/// Spares are handed out in the order of their publication: a new one comes
/// behind all others, and taking the oldest leaves the rest in order.
pub proof fn lemma_spares_are_first_in_first_out<S>(
    state: pool::WarmPoolView<S>,
    id: u64,
    session: S,
)
    ensures
        ({
            let idle = state.databases[id].idle;
            let after = pool::taken(pool::published(state, id, session), id, 1).databases[id].idle;
            if idle.len() == 0 {
                after == Seq::<S>::empty()
            } else {
                after == idle.skip(1).push(session)
            }
        }),
{
    let idle = state.databases[id].idle;
    let after = pool::taken(pool::published(state, id, session), id, 1).databases[id].idle;
    if idle.len() == 0 {
        assert(after =~= Seq::<S>::empty());
    } else {
        assert(after =~= idle.skip(1).push(session));
    }
}

/// Handing out a spare makes room at once, for its database and in the pool: a
/// replacement can be reserved as soon as no retry is due later.
pub proof fn lemma_checkout_makes_room<S>(
    state: pool::WarmPoolView<S>,
    id: u64,
    now: u64,
    client: Map<Seq<char>, Seq<char>>,
)
    requires
        pool::accounted(state),
        pool::can_checkout(state, id, client),
        state.databases[id].idle.len() > 0,
        state.databases[id].retry_at matches Some(deadline) ==> deadline <= now,
    ensures
        pool::eligible(pool::taken(state, id, 1), id, now),
{
    pool::lemma_total_remove(state.databases, id);
    assert(pool::entry_accounted(state.config, state.databases[id]));
}

/// A failure defers the next attempt by the current delay: not before, and,
/// with room left, not after.
pub proof fn lemma_failure_defers_the_next_attempt<S>(
    state: pool::WarmPoolView<S>,
    id: u64,
    failed_at: u64,
    now: u64,
)
    requires
        pool::eligible(state, id, failed_at),
    ensures
        pool::eligible(pool::failed(state, id, failed_at), id, now) == (now >= failed_at
            + retry::retry_delay_ms(state.databases[id].failures) * 1_000_000),
{
    retry::lemma_retry_delay_bounds(state.databases[id].failures);
}

/// Success resets the backoff: the failure after it waits the first delay.
pub proof fn lemma_success_resets_the_backoff<S>(
    state: pool::WarmPoolView<S>,
    id: u64,
    session: S,
    now: u64,
)
    ensures
        pool::retry_time(pool::published(state, id, session), id, now) == now
            + retry::FIRST_DELAY_MS * 1_000_000,
        pool::published(state, id, session).databases[id].retry_at is None,
{
    vstd::arithmetic::power2::lemma2_to64();
}

/// Reservations go round: the database that was served goes to the end, and
/// every database behind it comes closer to its turn.
pub proof fn lemma_reservations_go_round<S>(
    state: pool::WarmPoolView<S>,
    k: int,
    place: int,
    now: u64,
)
    requires
        pool::is_first_eligible(state, k, now),
        k < place < state.order.len(),
    ensures
        ({
            let after = pool::reserved(pool::rotated(state, k + 1), state.order[k]);
            &&& after.order.last() == state.order[k]
            &&& after.order[place - k - 1] == state.order[place]
        }),
{
}

/// After shutdown nothing is registered, served, published or handed out, and
/// no spare is left.
pub proof fn lemma_shutdown_is_final<S>(
    state: pool::WarmPoolView<S>,
    id: u64,
    now: u64,
    client: Map<Seq<char>, Seq<char>>,
)
    ensures
        !pool::can_register(pool::shut_down(state), id),
        !pool::eligible(pool::shut_down(state), id, now),
        !pool::accepts(pool::shut_down(state), id),
        !pool::can_checkout(pool::shut_down(state), id, client),
        state.databases.dom().contains(id) ==> pool::shut_down(state).databases[id].idle.len()
            == 0,
{
}

/// Shutting down twice is shutting down once.
pub proof fn lemma_shutdown_is_idempotent<S>(state: pool::WarmPoolView<S>)
    ensures
        pool::shut_down(pool::shut_down(state)) == pool::shut_down(state),
{
    let once = pool::shut_down(state);
    assert(pool::all_retired(once.databases) =~= once.databases);
}

/// A pool in which nothing is idle or in flight uses no capacity.
pub proof fn lemma_settled_pool_is_empty<S>(state: pool::WarmPoolView<S>)
    requires
        pool::accounted(state),
        forall|id: u64| #[trigger]
            state.databases.dom().contains(id) ==> pool::occupied(state.databases[id]) == 0,
    ensures
        state.capacity_used == 0,
{
    lemma_unoccupied_total(state.databases);
}

proof fn lemma_unoccupied_total<S>(databases: Map<u64, pool::WarmEntryView<S>>)
    requires
        databases.dom().finite(),
        forall|id: u64| #[trigger]
            databases.dom().contains(id) ==> pool::occupied(databases[id]) == 0,
    ensures
        pool::total(databases) == 0,
    decreases databases.dom().len(),
{
    if databases.dom().len() > 0 {
        let id = databases.dom().choose();
        lemma_unoccupied_total(databases.remove(id));
    }
}

/// `after` has the same settings as `state` and is shut down if that is.
pub open spec fn same_pool<S>(state: pool::WarmPoolView<S>, after: pool::WarmPoolView<S>) -> bool {
    &&& after.config == state.config
    &&& after.profile == state.profile
    &&& after.cancelled == state.cancelled
}

/// `after` knows the same databases as `state`, and all but `id` are as they
/// were.
pub open spec fn others_unchanged<S>(
    state: pool::WarmPoolView<S>,
    after: pool::WarmPoolView<S>,
    id: u64,
) -> bool {
    &&& same_pool(state, after)
    &&& forall|other: u64|
        other != id ==> (#[trigger] after.databases.dom().contains(other)
            <==> state.databases.dom().contains(other))
    &&& forall|other: u64|
        other != id && state.databases.dom().contains(other) ==> (#[trigger] after.databases[other])
            == state.databases[other]
}

/// A database may be served exactly when it takes part in warming, lacks a spare
/// or an attempt to its target, is not held back by a later retry, and the pool
/// runs below its cap. Time alone never takes that away.
pub proof fn lemma_room_is_served<S>(
    state: pool::WarmPoolView<S>,
    id: u64,
    now: u64,
    later: u64,
)
    ensures
        pool::eligible(state, id, now) <==> {
            &&& !state.cancelled
            &&& state.capacity_used < state.config.max_total
            &&& state.databases.dom().contains(id)
            &&& !state.databases[id].retiring
            &&& state.databases[id].idle.len() + state.databases[id].in_flight
                < state.config.per_database
            &&& (state.databases[id].retry_at is None || state.databases[id].retry_at->Some_0
                <= now)
        },
        pool::eligible(state, id, now) && now <= later ==> pool::eligible(state, id, later),
{
}

/// A database can be registered with any pool that warms and runs and does not
/// know it, however full the pool is. It is then known under its name, has
/// neither spares nor attempts, takes no capacity, and is served last; with
/// capacity left, it may be served at once.
pub proof fn lemma_registration_starts_warming<S>(
    state: pool::WarmPoolView<S>,
    id: u64,
    name: Seq<char>,
    now: u64,
)
    ensures
        pool::can_register(state, id) <==> state.config.per_database > 0 && !state.cancelled
            && !state.databases.dom().contains(id),
        ({
            let after = pool::registered(state, id, name);
            &&& others_unchanged(state, after, id)
            &&& after.capacity_used == state.capacity_used
            &&& after.order.len() == state.order.len() + 1
            &&& after.order.last() == id
            &&& forall|k: int| 0 <= k < state.order.len() ==> after.order[k] == state.order[k]
            &&& after.databases.dom().contains(id)
            &&& after.databases[id].name == name
            &&& after.databases[id].idle.len() == 0
            &&& after.databases[id].in_flight == 0
            &&& after.databases[id].failures == 0
            &&& pool::can_register(state, id) && state.capacity_used < state.config.max_total
                ==> pool::eligible(after, id, now)
        }),
{
}

/// A reservation is for the database that was asked for, under its name, and
/// takes one attempt and one unit of capacity; nothing else changes. Giving it
/// back unused gives back just that.
pub proof fn lemma_reservation_takes_one_slot<S>(state: pool::WarmPoolView<S>, id: u64)
    requires
        state.databases.dom().contains(id),
    ensures
        ({
            let after = pool::reserved(state, id);
            let before = state.databases[id];
            let entry = after.databases[id];
            &&& others_unchanged(state, after, id)
            &&& after.order == state.order
            &&& after.capacity_used == state.capacity_used + 1
            &&& entry.in_flight == before.in_flight + 1
            &&& entry.name == before.name
            &&& entry.idle == before.idle
            &&& entry.retry_at == before.retry_at
            &&& entry.failures == before.failures
            &&& entry.retiring == before.retiring
            &&& pool::new_reservation(state, id).database_id == id
            &&& pool::new_reservation(state, id).name == before.name
            &&& pool::new_reservation(state, id).active
            &&& !pool::settled(pool::new_reservation(state, id)).active
        }),
        state.databases[id].in_flight > 0 && state.capacity_used > 0 ==> pool::reserved(
            pool::released(state, id),
            id,
        ) == state,
{
    if state.databases[id].in_flight > 0 && state.capacity_used > 0 {
        let back = pool::reserved(pool::released(state, id), id);
        assert(back.databases[id] == state.databases[id]);
        assert(back.databases =~= state.databases);
    }
}

/// A published session is the newest spare of its database, in place of its
/// attempt; the database is no longer held back.
pub proof fn lemma_publication_adds_a_spare<S>(
    state: pool::WarmPoolView<S>,
    id: u64,
    session: S,
)
    requires
        state.databases.dom().contains(id),
        state.databases[id].in_flight > 0,
    ensures
        pool::accepts(state, id) <==> !state.cancelled && !state.databases[id].retiring,
        ({
            let after = pool::published(state, id, session);
            let before = state.databases[id];
            let entry = after.databases[id];
            &&& others_unchanged(state, after, id)
            &&& after.order == state.order
            &&& after.capacity_used == state.capacity_used
            &&& entry.idle.len() == before.idle.len() + 1
            &&& entry.idle.last() == session
            &&& forall|k: int| 0 <= k < before.idle.len() ==> entry.idle[k] == before.idle[k]
            &&& entry.in_flight == before.in_flight - 1
            &&& entry.retry_at is None
            &&& entry.failures == 0
            &&& entry.name == before.name
            &&& entry.retiring == before.retiring
        }),
{
}

/// Spares that leave the pool free their capacity and leave the other spares in
/// their order; nothing else changes.
pub proof fn lemma_leaving_spares_free_capacity<S>(
    state: pool::WarmPoolView<S>,
    id: u64,
    n: int,
)
    requires
        state.databases.dom().contains(id),
        0 <= n <= state.databases[id].idle.len(),
        n <= state.capacity_used,
    ensures
        ({
            let after = pool::taken(state, id, n);
            let before = state.databases[id];
            let entry = after.databases[id];
            &&& others_unchanged(state, after, id)
            &&& after.order == state.order
            &&& after.capacity_used == state.capacity_used - n
            &&& before.idle == before.idle.take(n) + entry.idle
            &&& entry.in_flight == before.in_flight
            &&& entry.retry_at == before.retry_at
            &&& entry.failures == before.failures
            &&& entry.name == before.name
            &&& entry.retiring == before.retiring
        }),
        n < state.databases[id].idle.len() && n < state.capacity_used ==> {
            let after = pool::evicted(state, id, n);
            let before = state.databases[id];
            let entry = after.databases[id];
            &&& others_unchanged(state, after, id)
            &&& after.order == state.order
            &&& after.capacity_used == state.capacity_used - 1
            &&& before.idle == entry.idle.insert(n, before.idle[n])
            &&& entry.in_flight == before.in_flight
            &&& entry.retry_at == before.retry_at
            &&& entry.failures == before.failures
            &&& entry.name == before.name
            &&& entry.retiring == before.retiring
        },
{
    let before = state.databases[id];
    assert(before.idle =~= before.idle.take(n) + pool::taken(state, id, n).databases[id].idle);
    if n < before.idle.len() && n < state.capacity_used {
        assert(before.idle =~= pool::evicted(state, id, n).databases[id].idle.insert(
            n,
            before.idle[n],
        ));
    }
}

/// A database can be retired as long as it takes part in warming, whatever else
/// it does. Its spares go, its attempts stay, and it leaves the order, in which
/// the others keep their places.
pub proof fn lemma_retirement_takes_spares_only<S>(state: pool::WarmPoolView<S>, k: int)
    requires
        pool::accounted(state),
        0 <= k < state.order.len(),
    ensures
        ({
            let id = state.order[k];
            let after = pool::retired(state, id);
            let before = state.databases[id];
            let entry = after.databases[id];
            &&& pool::can_retire(state, id)
            &&& others_unchanged(state, after, id)
            &&& after.order == state.order.remove(k)
            &&& entry.idle.len() == 0
            &&& entry.in_flight == before.in_flight
            &&& entry.name == before.name
            &&& entry.retry_at is None
            &&& entry.retiring
        }),
{
    let id = state.order[k];
    assert(state.order.contains(id));
    lemma_without_removes(state.order, k);
}

/// Taking a member out of an order leaves the others in their places.
proof fn lemma_without_removes(order: Seq<u64>, k: int)
    requires
        order.no_duplicates(),
        0 <= k < order.len(),
    ensures
        pool::without(order, order[k]) == order.remove(k),
    decreases order.len(),
{
    let front = order.drop_last();
    if k == order.len() - 1 {
        lemma_without_keeps(front, order[k]);
        assert(order.remove(k) =~= front);
    } else {
        assert(order[k] != order[order.len() - 1]);
        assert(front[k] == order[k]);
        lemma_without_removes(front, k);
        assert(order.remove(k) =~= front.remove(k).push(order.last()));
    }
}

/// An order without a member stays as it is when that is taken out.
proof fn lemma_without_keeps(order: Seq<u64>, id: u64)
    requires
        forall|k: int| 0 <= k < order.len() ==> order[k] != id,
    ensures
        pool::without(order, id) == order,
    decreases order.len(),
{
    if order.len() > 0 {
        assert(order.last() == order[order.len() - 1]);
        lemma_without_keeps(order.drop_last(), id);
        assert(order.drop_last().push(order.last()) =~= order);
    } else {
        assert(pool::without(order, id) =~= order);
    }
}

/// A shutdown keeps every database with its attempts in flight, and takes all
/// spares; nothing but attempts occupies capacity from then on.
pub proof fn lemma_shutdown_keeps_attempts_only<S>(state: pool::WarmPoolView<S>, id: u64)
    requires
        pool::accounted(state),
    ensures
        ({
            let after = pool::shut_down(state);
            &&& after.cancelled
            &&& after.order.len() == 0
            &&& after.config == state.config
            &&& after.profile == state.profile
            &&& after.databases.dom().contains(id) <==> state.databases.dom().contains(id)
            &&& state.databases.dom().contains(id) ==> {
                &&& after.databases[id].in_flight == state.databases[id].in_flight
                &&& after.databases[id].idle.len() == 0
                &&& after.databases[id].name == state.databases[id].name
                &&& after.databases[id].retiring
            }
            &&& after.capacity_used == run::attempts_in_flight(state)
        }),
{
    let after = pool::shut_down(state);
    pool::lemma_shut_down_accounted(state);
    run::lemma_capacity_is_attempts_and_spares(after);
    run::lemma_no_spares(after);
    run::lemma_same_attempts(state, after);
}

/// A shutdown hands out every spare of the pool, and nothing else: there are as
/// many, and each is among them.
pub proof fn lemma_shutdown_hands_out_every_spare<S>(
    state: pool::WarmPoolView<S>,
    id: u64,
    index: int,
)
    requires
        pool::accounted(state),
    ensures
        pool::all_idle(state.order, state.databases).len() == run::idle_spares(state),
        state.databases.dom().contains(id) && 0 <= index < state.databases[id].idle.len()
            ==> pool::all_idle(state.order, state.databases).contains(
            state.databases[id].idle[index],
        ),
{
    run::lemma_ordered_spares(state);
    if state.databases.dom().contains(id) && 0 <= index < state.databases[id].idle.len() {
        assert(pool::entry_accounted(state.config, state.databases[id]));
        assert(state.order.contains(id));
        let place = choose|place: int| 0 <= place < state.order.len() && state.order[place] == id;
        lemma_idle_is_listed(state.order, state.databases, place, index);
    }
}

/// The spares of every listed database are listed.
proof fn lemma_idle_is_listed<S>(
    order: Seq<u64>,
    databases: Map<u64, pool::WarmEntryView<S>>,
    place: int,
    index: int,
)
    requires
        0 <= place < order.len(),
        0 <= index < databases[order[place]].idle.len(),
    ensures
        pool::all_idle(order, databases).contains(databases[order[place]].idle[index]),
    decreases order.len(),
{
    let front = pool::all_idle(order.drop_last(), databases);
    let last = databases[order.last()].idle;
    let all = pool::all_idle(order, databases);
    assert(all =~= front + last);
    if place == order.len() - 1 {
        assert(all[front.len() + index] == last[index]);
    } else {
        assert(order.drop_last()[place] == order[place]);
        lemma_idle_is_listed(order.drop_last(), databases, place, index);
        let session = databases[order[place]].idle[index];
        let k = choose|k: int| 0 <= k < front.len() && front[k] == session;
        assert(all[k] == session);
    }
}

/// A spare is handed to every client that sends the parameters of the profile
/// and any database, as long as the pool warms and runs and the database takes
/// part in warming. Failures, retries, attempts in flight and the capacity in
/// use do not matter. No other client is given one.
pub proof fn lemma_matching_client_gets_a_spare<S>(
    state: pool::WarmPoolView<S>,
    id: u64,
    client: Map<Seq<char>, Seq<char>>,
)
    requires
        !connection_warm::names_owned_parameter(state.profile),
    ensures
        pool::can_checkout(state, id, client) <==> {
            &&& state.config.per_database > 0
            &&& !state.cancelled
            &&& state.databases.dom().contains(id)
            &&& !state.databases[id].retiring
            &&& !client.dom().contains("replication"@)
            &&& forall|name: Seq<char>|
                name != "database"@ ==> (#[trigger] client.dom().contains(name)
                    <==> state.profile.dom().contains(name))
            &&& forall|name: Seq<char>|
                name != "database"@ && #[trigger] client.dom().contains(name) ==> client[name]
                    == state.profile[name]
        },
{
    connection_warm::lemma_matching_is_agreement(state.profile, client);
}

/// Of the databases in order, the first that may be served is: it is served no
/// later than any other, goes to the end, and every other one that may be served
/// comes closer to its turn by more than one place. So each is served after at
/// most as many services as its place.
pub proof fn lemma_waiting_database_moves_up<S>(
    state: pool::WarmPoolView<S>,
    k: int,
    place: int,
    now: u64,
)
    requires
        pool::is_first_eligible(state, k, now),
        0 <= place < state.order.len(),
        pool::eligible(state, state.order[place], now),
    ensures
        k <= place,
        ({
            let after = scheduler::served(state, k);
            &&& after.order.len() == state.order.len()
            &&& after.order.last() == state.order[k]
            &&& place > k ==> after.order[place - k - 1] == state.order[place]
            &&& forall|j: int|
                0 <= j <= k ==> after.order[state.order.len() - k - 1 + j] == (
                #[trigger] state.order[j])
            &&& after.databases[state.order[k]].in_flight
                == state.databases[state.order[k]].in_flight + 1
        }),
{
}

/// Every attempt that is started is for a database that takes part in warming,
/// under the name of that database; with a slot free, one is started whenever
/// any database may be served.
pub proof fn lemma_launched_attempts_are_wanted<S>(
    state: pool::WarmPoolView<S>,
    now: u64,
    slots: nat,
    i: int,
)
    requires
        pool::accounted(state),
    ensures
        0 <= i < scheduler::serve_all(state, now, slots).1.len() ==> {
            let reservation = scheduler::serve_all(state, now, slots).1[i];
            &&& reservation.active
            &&& state.order.contains(reservation.database_id)
            &&& state.databases.dom().contains(reservation.database_id)
            &&& reservation.name == state.databases[reservation.database_id].name
        },
        slots > 0 && (exists|id: u64| #[trigger] pool::eligible(state, id, now))
            ==> scheduler::serve_all(state, now, slots).1.len() > 0,
    decreases slots,
{
    if slots > 0 && scheduler::can_serve(state, now) {
        let k = choose|k: int| #[trigger] pool::is_first_eligible(state, k, now);
        let after = scheduler::served(state, k);
        let rest = scheduler::serve_all(after, now, (slots - 1) as nat);
        let whole = scheduler::serve_all(state, now, slots);
        crate::connection_warm::history::lemma_serving_keeps_accounts(state, now, 1);
        assert(scheduler::serve_all(after, now, 0).0 == after);
        assert(scheduler::serve_all(state, now, 1).0 == after);
        assert(state.order.contains(state.order[k]));
        if 0 <= i < whole.1.len() {
            if i > 0 {
                lemma_launched_attempts_are_wanted(after, now, (slots - 1) as nat, i - 1);
                assert(whole.1[i] == rest.1[i - 1]);
                let id = whole.1[i].database_id;
                assert(after.databases.dom().contains(id));
                assert(state.databases.dom().contains(id));
                assert(!after.databases[id].retiring);
                assert(!state.databases[id].retiring);
                assert(state.order.contains(id));
            }
        }
    } else if slots > 0 {
        if exists|id: u64| #[trigger] pool::eligible(state, id, now) {
            let id = choose|id: u64| #[trigger] pool::eligible(state, id, now);
            assert(state.order.contains(id));
            let place = choose|place: int|
                0 <= place < state.order.len() && state.order[place] == id;
            scheduler::lemma_eligible_database_is_served(state, place, now);
        }
    }
}

/// The scheduler stops on the shutdown of the pool and on nothing else. It fails
/// only where the state was left behind by a panic or no more permits are given.
/// Whatever else an attempt ends with, the scheduler goes on.
pub proof fn lemma_scheduler_outlives_its_attempts(event: SchedulerEvent)
    ensures
        scheduler::event_step(event) == Ok::<SchedulerStep, WarmSchedulerError>(
            SchedulerStep::Stop,
        ) <==> event is Cancelled,
        scheduler::event_step(event) == Err::<SchedulerStep, WarmSchedulerError>(
            WarmSchedulerError::StatePoisoned,
        ) <==> event is StatePoisoned,
        scheduler::event_step(event) == Err::<SchedulerStep, WarmSchedulerError>(
            WarmSchedulerError::ConcurrencyClosed,
        ) <==> event is AttemptEnded && event->result is Err && event->result->Err_0
            is ConcurrencyClosed,
        event is AttemptEnded && !(event->result is Err && event->result->Err_0
            is ConcurrencyClosed) ==> scheduler::event_step(event) == Ok::<
            SchedulerStep,
            WarmSchedulerError,
        >(SchedulerStep::Continue),
        event is SpareEvicted || event is Changed || event is RetryDue ==> scheduler::event_step(
            event,
        ) == Ok::<SchedulerStep, WarmSchedulerError>(SchedulerStep::Continue),
{
}

/// `id` would be served at the time `deadline` and lacks nothing but that time.
pub open spec fn held_back_until<S>(
    state: pool::WarmPoolView<S>,
    id: u64,
    deadline: u128,
) -> bool {
    &&& !state.cancelled
    &&& state.databases.dom().contains(id)
    &&& !state.databases[id].retiring
    &&& state.databases[id].idle.len() + state.databases[id].in_flight < state.config.per_database
    &&& state.databases[id].retry_at is Some
    &&& state.databases[id].retry_at->Some_0 == deadline
}

/// The scheduler wakes for the earliest retry: with a slot and capacity left, it
/// wakes no later than any database is held back, and at a time until which one
/// is. Without a slot or without capacity no retry wakes it.
pub proof fn lemma_earliest_retry_wakes<S>(
    state: pool::WarmPoolView<S>,
    has_slot: bool,
    wake: Option<u128>,
    id: u64,
    deadline: u128,
)
    requires
        pool::is_next_deadline(state, has_slot, wake),
    ensures
        has_slot && state.capacity_used < state.config.max_total && held_back_until(
            state,
            id,
            deadline,
        ) ==> wake is Some && wake->Some_0 <= deadline,
        wake is Some ==> has_slot && state.capacity_used < state.config.max_total && exists|
            other: u64,
        | #[trigger] held_back_until(state, other, wake->Some_0),
{
    if held_back_until(state, id, deadline) {
        assert(pool::waits_for(state, id, deadline));
    }
    if let Some(time) = wake {
        let other = choose|other: u64| #[trigger] pool::waits_for(state, other, time);
        assert(held_back_until(state, other, time));
    }
}

/// No retry is slept through: where the scheduler could start no more attempts
/// although it had slots, and some database may be served at a later time, the
/// scheduler wakes by then. When it wakes, some database may be served.
pub proof fn lemma_no_retry_is_slept_through<S>(
    state: pool::WarmPoolView<S>,
    now: u64,
    slots: nat,
    wake: Option<u128>,
    id: u64,
    later: u64,
)
    requires
        pool::accounted(state),
        scheduler::serve_all(state, now, slots).1.len() < slots,
        pool::is_next_deadline(scheduler::serve_all(state, now, slots).0, true, wake),
        now <= later,
    ensures
        ({
            let after = scheduler::serve_all(state, now, slots).0;
            &&& pool::eligible(after, id, later) ==> wake is Some && now < wake->Some_0 <= later
            &&& wake is Some && wake->Some_0 <= u64::MAX ==> exists|other: u64|
                after.order.contains(other) && #[trigger] pool::eligible(
                    after,
                    other,
                    wake->Some_0 as u64,
                )
        }),
{
    let after = scheduler::serve_all(state, now, slots).0;
    crate::connection_warm::history::lemma_serving_keeps_accounts(state, now, slots);
    scheduler::lemma_serving_fills_the_slots(state, now, slots);
    assert forall|other: u64| !(#[trigger] pool::eligible(after, other, now)) by {
        if pool::eligible(after, other, now) {
            assert(after.order.contains(other));
            let place = choose|place: int|
                0 <= place < after.order.len() && after.order[place] == other;
            scheduler::lemma_eligible_database_is_served(after, place, now);
        }
    }
    if pool::eligible(after, id, later) {
        assert(!pool::eligible(after, id, now));
        let deadline = after.databases[id].retry_at->Some_0;
        assert(held_back_until(after, id, deadline));
        lemma_earliest_retry_wakes(after, true, wake, id, deadline);
    }
    if wake is Some {
        lemma_earliest_retry_wakes(after, true, wake, 0, 0);
        let time = wake->Some_0;
        let other = choose|other: u64| #[trigger] held_back_until(after, other, time);
        assert(after.order.contains(other));
        if time <= u64::MAX {
            assert(pool::eligible(after, other, time as u64));
        }
        assert(!pool::eligible(after, other, now));
        if pool::eligible(after, id, later) {
            assert(now < time);
        }
    }
}

/// A failure of the server or of the network defers the database; whatever was
/// given up does not. Either way the attempt gives its slot back. A session that
/// nobody gave up on becomes a spare of a database that still takes part, and of
/// no other.
pub proof fn lemma_settling_an_attempt<S>(
    state: pool::WarmPoolView<S>,
    id: u64,
    result: Result<S, WarmAttemptError>,
    cancelled: bool,
    now: u64,
)
    requires
        pool::accounted(state),
        state.databases.dom().contains(id),
        state.databases[id].in_flight > 0,
    ensures
        ({
            let after = attempt::attempt_settled(state, id, result, cancelled, now);
            let before = state.databases[id];
            let entry = after.databases[id];
            let takes_part = !state.cancelled && !before.retiring;
            let kept = result is Ok && !cancelled && takes_part;
            let counted = takes_part && result is Err && (result->Err_0 is TimedOut
                || result->Err_0 is Upstream);
            &&& others_unchanged(state, after, id)
            &&& after.order == state.order
            &&& entry.in_flight == before.in_flight - 1
            &&& entry.name == before.name
            &&& entry.retiring == before.retiring
            &&& after.capacity_used == state.capacity_used - (if kept {
                0int
            } else {
                1
            })
            &&& entry.idle == (if kept {
                before.idle.push(result->Ok_0)
            } else {
                before.idle
            })
            &&& entry.failures == (if kept {
                0
            } else if counted {
                before.failures + 1
            } else {
                before.failures
            })
            &&& kept ==> entry.retry_at is None
            &&& counted ==> entry.retry_at is Some && entry.retry_at->Some_0 >= now + 1_000_000_000
                && entry.retry_at->Some_0 <= now + 30_000_000_000
            &&& !kept && !counted ==> entry.retry_at == before.retry_at
        }),
{
    pool::lemma_occupied_within_capacity(state, id);
    retry::lemma_retry_delay_bounds(state.databases[id].failures);
}

/// The initial warm-up waits for the target of every database or for the cap,
/// whichever is less.
pub proof fn lemma_initial_target_is_the_smaller(
    config: connection_warm::WarmConfigView,
    databases: nat,
)
    ensures
        startup::initial_target(config, databases) == databases * config.per_database
            || startup::initial_target(config, databases) == config.max_total,
        startup::initial_target(config, databases) <= databases * config.per_database,
        startup::initial_target(config, databases) <= config.max_total,
{
}

/// The spares of all databases that take part in warming are all spares of the
/// pool. One more database adds its spares, and only if it takes part.
pub proof fn lemma_ready_spares_add_up<S>(
    state: pool::WarmPoolView<S>,
    ids: Seq<u64>,
    id: u64,
)
    requires
        pool::accounted(state),
    ensures
        pool::ready_spares(state, state.order) == run::idle_spares(state),
        pool::ready_spares(state, Seq::<u64>::empty()) == 0,
        state.databases.dom().contains(id) && !state.databases[id].retiring ==> pool::ready_spares(
            state,
            ids.push(id),
        ) == pool::ready_spares(state, ids) + state.databases[id].idle.len(),
        !state.databases.dom().contains(id) || state.databases[id].retiring ==> pool::ready_spares(
            state,
            ids.push(id),
        ) == pool::ready_spares(state, ids),
{
    run::lemma_ordered_spares(state);
    lemma_ready_is_listed(state, state.order.len() as int);
    assert(state.order.take(state.order.len() as int) =~= state.order);
    assert(ids.push(id).drop_last() =~= ids);
}

proof fn lemma_ready_is_listed<S>(state: pool::WarmPoolView<S>, n: int)
    requires
        pool::accounted(state),
        0 <= n <= state.order.len(),
    ensures
        pool::ready_spares(state, state.order.take(n)) == pool::all_idle(
            state.order.take(n),
            state.databases,
        ).len(),
    decreases n,
{
    if n > 0 {
        lemma_ready_is_listed(state, n - 1);
        assert(state.order.take(n).drop_last() =~= state.order.take(n - 1));
        assert(state.order.take(n).last() == state.order[n - 1]);
        assert(state.order.contains(state.order[n - 1]));
    }
}

/// As many attempts may run at once as configured, but never more than the cap,
/// nor than a semaphore can count.
pub proof fn lemma_attempt_limit_is_the_smallest(config: connection_warm::WarmConfigView)
    ensures
        connection_warm::attempt_limit(config) <= config.concurrency,
        connection_warm::attempt_limit(config) <= config.max_total,
        connection_warm::attempt_limit(config) <= usize::MAX as int / 8,
        ({
            ||| connection_warm::attempt_limit(config) == config.concurrency
            ||| connection_warm::attempt_limit(config) == config.max_total
            ||| connection_warm::attempt_limit(config) == usize::MAX as int / 8
        }),
{
}

} // verus!
