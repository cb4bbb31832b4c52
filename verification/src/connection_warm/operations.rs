//! What every operation of a warm pool and of its scheduler does for its caller.
use std::collections::VecDeque;

use vstd::prelude::*;

use crate::connection_warm;
use crate::connection_warm::attempt::{
    ConnectEvent, PermitEvent, Settlement, WarmAttemptError,
};
use crate::connection_warm::pool::{
    Checkout, ConnectionWarmPool, DatabaseId, DatabaseSummary, WarmReservation,
};
use crate::connection_warm::scheduler::{
    SchedulerEvent, SchedulerPlan, SchedulerStep, WarmScheduler, WarmSchedulerError,
};
use crate::connection_warm::startup::{
    InitialWarmUp, WaitEvent, WarmStartupOutcome, WarmUpStatus,
};
use crate::connection_warm::{
    attempt, history, laws, pool, run, scheduler, ConnectionWarmConfig,
};
use crate::params::StartupParams;
use crate::postgres_upstream::{UpstreamError, UpstreamSession};

verus! {

/// A pool begins empty and running, for the settings and the user that it was
/// made for; there is none where warming is disabled.
pub proof fn lemma_new_pools<S>(
    config: ConnectionWarmConfig,
    user: &str,
    new: ConnectionWarmPool<S>,
    r: Option<ConnectionWarmPool<S>>,
)
    requires
        call_ensures(ConnectionWarmPool::<S>::new, (config, user), new),
        call_ensures(scheduler::warm_pool::<S>, (config, user), r),
    ensures
        pool::accounted(new@),
        history::is_new(new@),
        new@.config == config@,
        config@.startup_params.dom().contains("user"@) ==> new@.profile == config@.startup_params,
        !config@.startup_params.dom().contains("user"@) ==> new@.profile
            == config@.startup_params.insert("user"@, user@),
        !connection_warm::names_owned_parameter(new@.profile),
        r is Some <==> config@.per_database > 0,
        r is Some ==> r->Some_0@ == new@,
{
    reveal_strlit("user");
    reveal_strlit("database");
    reveal_strlit("replication");
    assert("user"@.len() == 4);
    assert("database"@.len() == 8);
    assert("replication"@.len() == 11);
}

/// A database is registered with every pool that warms, runs and does not know
/// it. It is then known under its name, has neither spares nor attempts, takes no
/// capacity and is served last. Otherwise nothing changes.
pub proof fn lemma_registering<S>(
    pool: &mut ConnectionWarmPool<S>,
    id: DatabaseId,
    name: String,
    added: bool,
)
    requires
        call_ensures(ConnectionWarmPool::<S>::register_database, (pool, id, name), added),
    ensures
        pool::accounted(final(pool)@),
        added <==> old(pool)@.config.per_database > 0 && !old(pool)@.cancelled
            && !old(pool)@.databases.dom().contains(id.0),
        !added ==> final(pool)@ == old(pool)@,
        added ==> {
            let entry = final(pool)@.databases[id.0];
            &&& laws::others_unchanged(old(pool)@, final(pool)@, id.0)
            &&& final(pool)@.capacity_used == old(pool)@.capacity_used
            &&& final(pool)@.order == old(pool)@.order.push(id.0)
            &&& final(pool)@.databases.dom().contains(id.0)
            &&& entry.name == name@
            &&& entry.idle.len() == 0
            &&& entry.in_flight == 0
            &&& entry.retry_at is None
            &&& entry.failures == 0
            &&& !entry.retiring
        },
{
    laws::lemma_registration_starts_warming(old(pool)@, id.0, name@, 0);
}

/// A database that takes part in warming is retired: its spares are handed back
/// and free their capacity, its attempts stay, and the others keep their places.
/// Otherwise nothing changes.
pub proof fn lemma_retiring<S>(
    pool: &mut ConnectionWarmPool<S>,
    id: DatabaseId,
    r: Option<VecDeque<S>>,
    k: int,
)
    requires
        pool::accounted(old(pool)@),
        call_ensures(ConnectionWarmPool::<S>::retire_database, (pool, id), r),
    ensures
        pool::accounted(final(pool)@),
        r is Some <==> old(pool)@.databases.dom().contains(id.0)
            && !old(pool)@.databases[id.0].retiring,
        r is None ==> final(pool)@ == old(pool)@,
        r is Some ==> {
            let before = old(pool)@.databases[id.0];
            let entry = final(pool)@.databases[id.0];
            &&& r->Some_0@ == before.idle
            &&& laws::others_unchanged(old(pool)@, final(pool)@, id.0)
            &&& final(pool)@.capacity_used + before.idle.len() == old(pool)@.capacity_used
            &&& 0 <= k < old(pool)@.order.len() && old(pool)@.order[k] == id.0
                ==> final(pool)@.order == old(pool)@.order.remove(k)
            &&& entry.idle.len() == 0
            &&& entry.in_flight == before.in_flight
            &&& entry.name == before.name
            &&& entry.retry_at is None
            &&& entry.retiring
        },
{
    if r is Some {
        laws::lemma_retirement_frees_spares(old(pool)@, id.0);
        if 0 <= k < old(pool)@.order.len() && old(pool)@.order[k] == id.0 {
            laws::lemma_retirement_takes_spares_only(old(pool)@, k);
        }
    }
}

/// A slot is reserved exactly where the pool runs below its cap and the database
/// takes part, lacks a spare, and is not held back by a later retry. It takes one
/// attempt and one unit of capacity. Otherwise nothing changes.
pub proof fn lemma_reserving<S>(
    pool: &mut ConnectionWarmPool<S>,
    id: DatabaseId,
    now: u64,
    r: Option<WarmReservation>,
)
    requires
        call_ensures(ConnectionWarmPool::<S>::try_reserve, (pool, id, now), r),
    ensures
        pool::accounted(final(pool)@),
        ({
            let state = old(pool)@;
            let before = state.databases[id.0];
            let entry = final(pool)@.databases[id.0];
            &&& r is Some <==> {
                &&& !state.cancelled
                &&& state.capacity_used < state.config.max_total
                &&& state.databases.dom().contains(id.0)
                &&& !before.retiring
                &&& before.idle.len() + before.in_flight < state.config.per_database
                &&& (before.retry_at is None || before.retry_at->Some_0 <= now)
            }
            &&& r is None ==> final(pool)@ == state
            &&& r is Some ==> {
                &&& r->Some_0@.database_id == id.0
                &&& r->Some_0@.name == before.name
                &&& r->Some_0@.active
                &&& pool::holds_slot(final(pool)@, r->Some_0@)
                &&& laws::others_unchanged(state, final(pool)@, id.0)
                &&& final(pool)@.order == state.order
                &&& final(pool)@.capacity_used == state.capacity_used + 1
                &&& entry.in_flight == before.in_flight + 1
                &&& entry.idle == before.idle
                &&& entry.name == before.name
                &&& entry.retry_at == before.retry_at
                &&& entry.failures == before.failures
                &&& entry.retiring == before.retiring
            }
        }),
{
    laws::lemma_room_is_served(old(pool)@, id.0, now, now);
    if r is Some {
        laws::lemma_reservation_takes_one_slot(old(pool)@, id.0);
    }
}

/// Of all databases the first in order that may be served is; it goes to the end
/// of the order, behind those that were passed over. Only where none may be
/// served, there is no reservation, and nothing changes.
pub proof fn lemma_serving<S>(
    pool: &mut ConnectionWarmPool<S>,
    now: u64,
    r: Option<WarmReservation>,
    place: int,
)
    requires
        pool::accounted(old(pool)@),
        call_ensures(ConnectionWarmPool::<S>::reserve_next, (pool, now), r),
    ensures
        pool::accounted(final(pool)@),
        0 <= place < old(pool)@.order.len() && pool::eligible(
            old(pool)@,
            old(pool)@.order[place],
            now,
        ) ==> r is Some,
        r is None ==> final(pool)@ == old(pool)@,
        r is Some ==> exists|k: int|
            {
                &&& #[trigger] pool::is_first_eligible(old(pool)@, k, now)
                &&& (0 <= place < old(pool)@.order.len() && pool::eligible(
                    old(pool)@,
                    old(pool)@.order[place],
                    now,
                ) ==> k <= place)
                &&& r->Some_0@.database_id == old(pool)@.order[k]
                &&& r->Some_0@.name == old(pool)@.databases[old(pool)@.order[k]].name
                &&& r->Some_0@.active
                &&& pool::holds_slot(final(pool)@, r->Some_0@)
                &&& laws::others_unchanged(old(pool)@, final(pool)@, old(pool)@.order[k])
                &&& final(pool)@.order == old(pool)@.order.skip(k + 1) + old(pool)@.order.take(
                    k + 1,
                )
                &&& final(pool)@.capacity_used == old(pool)@.capacity_used + 1
                &&& final(pool)@.databases[old(pool)@.order[k]].in_flight
                    == old(pool)@.databases[old(pool)@.order[k]].in_flight + 1
                &&& final(pool)@.databases[old(pool)@.order[k]].idle
                    == old(pool)@.databases[old(pool)@.order[k]].idle
            },
{
    if r is Some {
        let k = choose|k: int|
            {
                &&& #[trigger] pool::is_first_eligible(old(pool)@, k, now)
                &&& r->Some_0@ == pool::new_reservation(old(pool)@, old(pool)@.order[k])
                &&& final(pool)@ == pool::reserved(
                    pool::rotated(old(pool)@, k + 1),
                    old(pool)@.order[k],
                )
            };
        let turned = pool::rotated(old(pool)@, k + 1);
        laws::lemma_reservation_takes_one_slot(turned, old(pool)@.order[k]);
        assert(pool::is_first_eligible(old(pool)@, k, now));
    }
}

/// The session of an attempt becomes the newest spare of its database, if that
/// and the pool still take part, and comes back otherwise. Either way the attempt
/// is over. A reservation that was settled before changes nothing.
pub proof fn lemma_publishing<S>(
    pool: &mut ConnectionWarmPool<S>,
    reservation: &mut WarmReservation,
    session: S,
    r: Result<(), S>,
)
    requires
        pool::accounted(old(pool)@),
        pool::holds_slot(old(pool)@, old(reservation)@),
        call_ensures(ConnectionWarmPool::<S>::publish, (pool, reservation, session), r),
    ensures
        pool::accounted(final(pool)@),
        !final(reservation)@.active,
        ({
            let id = old(reservation)@.database_id;
            let before = old(pool)@.databases[id];
            let entry = final(pool)@.databases[id];
            &&& r is Ok <==> old(reservation)@.active && !old(pool)@.cancelled && !before.retiring
            &&& r is Err ==> r->Err_0 == session
            &&& !old(reservation)@.active ==> final(pool)@ == old(pool)@
            &&& old(reservation)@.active ==> {
                &&& laws::others_unchanged(old(pool)@, final(pool)@, id)
                &&& final(pool)@.order == old(pool)@.order
                &&& entry.in_flight == before.in_flight - 1
                &&& entry.name == before.name
                &&& entry.retiring == before.retiring
            }
            &&& r is Ok ==> {
                &&& entry.idle == before.idle.push(session)
                &&& entry.retry_at is None
                &&& entry.failures == 0
                &&& final(pool)@.capacity_used == old(pool)@.capacity_used
            }
            &&& r is Err && old(reservation)@.active ==> {
                &&& entry.idle == before.idle
                &&& entry.retry_at == before.retry_at
                &&& entry.failures == before.failures
                &&& final(pool)@.capacity_used == old(pool)@.capacity_used - 1
            }
        }),
{
    let id = old(reservation)@.database_id;
    if old(reservation)@.active {
        pool::lemma_occupied_within_capacity(old(pool)@, id);
        laws::lemma_publication_adds_a_spare(old(pool)@, id, session);
        if r is Ok {
            assert(final(pool)@.databases[id].idle =~= old(pool)@.databases[id].idle.push(
                session,
            ));
        } else {
            laws::lemma_reservation_takes_one_slot(old(pool)@, id);
        }
    }
}

/// A slot that is given back takes neither an attempt nor capacity any more, and
/// nothing else changes. To give it back twice is to give it back once.
pub proof fn lemma_releasing<S>(
    pool: &mut ConnectionWarmPool<S>,
    reservation: &mut WarmReservation,
)
    requires
        pool::accounted(old(pool)@),
        pool::holds_slot(old(pool)@, old(reservation)@),
        call_ensures(ConnectionWarmPool::<S>::release, (pool, reservation), ()),
    ensures
        pool::accounted(final(pool)@),
        !final(reservation)@.active,
        final(reservation)@.database_id == old(reservation)@.database_id,
        !old(reservation)@.active ==> final(pool)@ == old(pool)@,
        old(reservation)@.active ==> {
            let id = old(reservation)@.database_id;
            let before = old(pool)@.databases[id];
            let entry = final(pool)@.databases[id];
            &&& laws::others_unchanged(old(pool)@, final(pool)@, id)
            &&& final(pool)@.order == old(pool)@.order
            &&& final(pool)@.capacity_used == old(pool)@.capacity_used - 1
            &&& entry.in_flight == before.in_flight - 1
            &&& entry.idle == before.idle
            &&& entry.name == before.name
            &&& entry.retry_at == before.retry_at
            &&& entry.failures == before.failures
            &&& entry.retiring == before.retiring
        },
{
    if old(reservation)@.active {
        pool::lemma_occupied_within_capacity(old(pool)@, old(reservation)@.database_id);
    }
}

/// A failure counts as long as the database and the pool take part. It holds the
/// database back for one second after the first failure, twice as long after
/// every further one, and never for more than thirty. Nothing else changes.
pub proof fn lemma_recording_a_failure<S>(
    pool: &mut ConnectionWarmPool<S>,
    reservation: WarmReservation,
    now: u64,
    recorded: bool,
)
    requires
        call_ensures(
            ConnectionWarmPool::<S>::record_failure,
            (pool, &reservation, now),
            recorded,
        ),
    ensures
        pool::accounted(final(pool)@),
        ({
            let id = reservation@.database_id;
            let before = old(pool)@.databases[id];
            let entry = final(pool)@.databases[id];
            &&& recorded <==> !old(pool)@.cancelled && !before.retiring
            &&& !recorded ==> final(pool)@ == old(pool)@
            &&& recorded ==> {
                &&& laws::others_unchanged(old(pool)@, final(pool)@, id)
                &&& final(pool)@.order == old(pool)@.order
                &&& final(pool)@.capacity_used == old(pool)@.capacity_used
                &&& entry.failures == before.failures + 1
                &&& entry.retry_at is Some
                &&& entry.retry_at->Some_0 == now + history::backoff_seconds(before.failures + 1)
                    * 1_000_000_000
                &&& entry.idle == before.idle
                &&& entry.in_flight == before.in_flight
                &&& entry.name == before.name
                &&& entry.retiring == before.retiring
            }
        }),
{
    let failures = old(pool)@.databases[reservation@.database_id].failures;
    connection_warm::retry::lemma_retry_delay_bounds(failures);
    assert(connection_warm::retry::retry_delay_ms(failures) == 1_000 * history::backoff_seconds(
        failures + 1,
    ));
}

/// A client that sends the parameters of the profile gets the oldest spare of its
/// database that is found usable, whatever attempts, failures and retries the
/// database has. Only older spares, each found unusable, come back to be closed.
/// Without a usable spare, the client gets none.
pub proof fn lemma_checking_out<S, F: Fn(&S) -> bool>(
    pool: &mut ConnectionWarmPool<S>,
    id: DatabaseId,
    client: StartupParams,
    is_idle: F,
    r: Checkout<S>,
    k: int,
)
    requires
        pool::accounted(old(pool)@),
        !connection_warm::names_owned_parameter(old(pool)@.profile),
        call_ensures(
            ConnectionWarmPool::<S>::try_checkout::<F>,
            (pool, id, &client, is_idle),
            r,
        ),
    ensures
        pool::accounted(final(pool)@),
        ({
            let state = old(pool)@;
            let spares = state.databases[id.0].idle;
            let left = final(pool)@.databases[id.0].idle;
            let may = {
                &&& state.config.per_database > 0
                &&& !state.cancelled
                &&& state.databases.dom().contains(id.0)
                &&& !state.databases[id.0].retiring
                &&& !client@.dom().contains("replication"@)
                &&& forall|name: Seq<char>|
                    name != "database"@ ==> (#[trigger] client@.dom().contains(name)
                        <==> state.profile.dom().contains(name))
                &&& forall|name: Seq<char>|
                    name != "database"@ && #[trigger] client@.dom().contains(name) ==> client@[name]
                        == state.profile[name]
            };
            &&& may && 0 <= k < spares.len() && !call_ensures(is_idle, (&spares[k],), false)
                ==> r.session is Some && r.discarded@.len() <= k
            &&& r.session is Some ==> {
                &&& may
                &&& call_ensures(is_idle, (&r.session->Some_0,), true)
                &&& spares == r.discarded@.push(r.session->Some_0) + left
                &&& final(pool)@.capacity_used + r.discarded@.len() + 1 == state.capacity_used
            }
            &&& may && r.session is None ==> {
                &&& left.len() == 0
                &&& spares == r.discarded@
                &&& final(pool)@.capacity_used + r.discarded@.len() == state.capacity_used
            }
            &&& 0 <= k < r.discarded@.len() ==> call_ensures(is_idle, (&r.discarded@[k],), false)
            &&& !may ==> r.session is None && r.discarded@.len() == 0 && final(pool)@ == state
            &&& may ==> {
                &&& laws::others_unchanged(state, final(pool)@, id.0)
                &&& final(pool)@.order == state.order
                &&& final(pool)@.databases[id.0].in_flight == state.databases[id.0].in_flight
                &&& final(pool)@.databases[id.0].retry_at == state.databases[id.0].retry_at
                &&& final(pool)@.databases[id.0].failures == state.databases[id.0].failures
                &&& final(pool)@.databases[id.0].name == state.databases[id.0].name
                &&& final(pool)@.databases[id.0].retiring == state.databases[id.0].retiring
            }
        }),
{
    let state = old(pool)@;
    let spares = state.databases[id.0].idle;
    laws::lemma_matching_client_gets_a_spare(state, id.0, client@);
    if pool::can_checkout(state, id.0, client@) {
        pool::lemma_occupied_within_capacity(state, id.0);
        let left = final(pool)@.databases[id.0].idle;
        if 0 <= k < r.discarded@.len() {
            assert(r.discarded@[k] == spares[k]);
            assert(call_ensures(is_idle, (&spares[k],), false));
        }
        if r.session is Some {
            assert(spares =~= r.discarded@.push(r.session->Some_0) + left);
        } else {
            assert(spares =~= r.discarded@);
        }
    }
}

/// A spare that was published for a database is what a matching client gets, if
/// there was no older one and it is found usable.
pub proof fn lemma_published_spare_is_handed_out<S, F: Fn(&S) -> bool>(
    reservation: &mut WarmReservation,
    session: S,
    events: Seq<history::PoolEvent<S>>,
    filled: &mut ConnectionWarmPool<S>,
    pool: &mut ConnectionWarmPool<S>,
    client: StartupParams,
    is_idle: F,
    r: Checkout<S>,
)
    requires
        pool::accounted(old(filled)@),
        pool::holds_slot(old(filled)@, old(reservation)@),
        old(filled)@.config.per_database > 0,
        old(filled)@.databases[old(reservation)@.database_id].idle.len() == 0,
        connection_warm::profile_matches(old(filled)@.profile, client@),
        call_ensures(ConnectionWarmPool::<S>::publish, (filled, reservation, session), Ok(())),
        forall|i: int|
            0 <= i < events.len() ==> history::leaves_spares_alone(
                #[trigger] events[i],
                old(reservation)@.database_id,
            ),
        history::pool_after(final(filled)@, events) == Some(old(pool)@),
        !call_ensures(is_idle, (&session,), false),
        call_ensures(
            ConnectionWarmPool::<S>::try_checkout::<F>,
            (pool, DatabaseId(old(reservation)@.database_id), &client, is_idle),
            r,
        ),
    ensures
        r.session == Some(session),
        r.discarded@.len() == 0,
{
    let id = old(reservation)@.database_id;
    laws::lemma_publication_adds_a_spare(old(filled)@, id, session);
    assert(pool::can_checkout(final(filled)@, id, client@));
    assert(final(filled)@.databases[id].idle[0] == session);
    history::lemma_spare_waits_for_its_client(final(filled)@, events, id, client@);
    assert(old(pool)@.databases[id].idle[0] == session);
    if r.discarded@.len() > 0 {
        assert(r.discarded@[0] == session);
        assert(call_ensures(is_idle, (&old(pool)@.databases[id].idle[0],), false));
    }
}

/// Of the spares that are found unusable one leaves the pool and frees its
/// capacity, and nothing else changes; as long as there is one that cannot be
/// found usable, one leaves.
pub proof fn lemma_evicting<S, F: Fn(&S) -> bool>(
    pool: &mut ConnectionWarmPool<S>,
    is_idle: F,
    r: Option<S>,
    id: u64,
    index: int,
)
    requires
        pool::accounted(old(pool)@),
        call_ensures(ConnectionWarmPool::<S>::evict_unhealthy::<F>, (pool, is_idle), r),
    ensures
        pool::accounted(final(pool)@),
        old(pool)@.databases.dom().contains(id) && 0 <= index < old(pool)@.databases[id].idle.len()
            && !call_ensures(is_idle, (&old(pool)@.databases[id].idle[index],), true) ==> r is Some,
        r is None ==> final(pool)@ == old(pool)@,
        r is Some ==> call_ensures(is_idle, (&r->Some_0,), false) && exists|
            other: u64,
            place: int,
        |
            {
                &&& #[trigger] pool::is_spare(old(pool)@, other, place, r->Some_0)
                &&& laws::others_unchanged(old(pool)@, final(pool)@, other)
                &&& final(pool)@.order == old(pool)@.order
                &&& final(pool)@.capacity_used + 1 == old(pool)@.capacity_used
                &&& final(pool)@.databases[other].idle == old(pool)@.databases[other].idle.remove(
                    place,
                )
                &&& final(pool)@.databases[other].in_flight == old(pool)@.databases[other].in_flight
            },
{
    let before = old(pool)@;
    if before.databases.dom().contains(id) && 0 <= index < before.databases[id].idle.len() {
        assert(pool::is_spare(before, id, index, before.databases[id].idle[index]));
    }
    if r is Some {
        let (other, place) = choose|other: u64, place: int|
            {
                &&& #[trigger] pool::is_spare(before, other, place, r->Some_0)
                &&& call_ensures(is_idle, (&r->Some_0,), false)
                &&& final(pool)@ == pool::evicted(before, other, place)
            };
        pool::lemma_occupied_within_capacity(before, other);
        assert(pool::is_spare(before, other, place, r->Some_0));
    }
}

/// A shutdown hands back every spare, keeps the attempts until they end, and lets
/// nothing take part any more.
pub proof fn lemma_shutting_down<S>(
    pool: &mut ConnectionWarmPool<S>,
    spares: Vec<S>,
    id: u64,
    index: int,
)
    requires
        pool::accounted(old(pool)@),
        call_ensures(ConnectionWarmPool::<S>::begin_shutdown, (pool,), spares),
    ensures
        pool::accounted(final(pool)@),
        final(pool)@.cancelled,
        final(pool)@.order.len() == 0,
        final(pool)@.capacity_used == run::attempts_in_flight(old(pool)@),
        spares@.len() == run::idle_spares(old(pool)@),
        final(pool)@.databases.dom().contains(id) <==> old(pool)@.databases.dom().contains(id),
        old(pool)@.databases.dom().contains(id) ==> {
            let before = old(pool)@.databases[id];
            let entry = final(pool)@.databases[id];
            &&& entry.in_flight == before.in_flight
            &&& entry.idle.len() == 0
            &&& entry.name == before.name
            &&& entry.retiring
            &&& 0 <= index < before.idle.len() ==> spares@.contains(before.idle[index])
        },
{
    laws::lemma_shutdown_keeps_attempts_only(old(pool)@, id);
    laws::lemma_shutdown_hands_out_every_spare(old(pool)@, id, index);
}

/// The next deadline is the earliest until which a database is held back that
/// lacks nothing but that time: at it, this database may be served, and before
/// it, no database may be that may not be served now. Without a slot or without
/// capacity there is none.
pub proof fn lemma_next_deadline<S>(
    pool: ConnectionWarmPool<S>,
    has_slot: bool,
    wake: Option<u128>,
    id: u64,
    now: u64,
    later: u64,
)
    requires
        pool::accounted(pool@),
        call_ensures(
            ConnectionWarmPool::<S>::next_retry_deadline,
            (&pool, has_slot),
            wake,
        ),
    ensures
        has_slot && !pool::eligible(pool@, id, now) && pool::eligible(pool@, id, later) && now
            <= later ==> wake is Some && wake->Some_0 <= later,
        wake is Some ==> has_slot && pool@.capacity_used < pool@.config.max_total && exists|
            other: u64,
        | #[trigger] laws::held_back_until(pool@, other, wake->Some_0),
        wake is Some && wake->Some_0 <= later ==> exists|other: u64|
            pool@.order.contains(other) && #[trigger] pool::eligible(pool@, other, later),
{
    if pool::eligible(pool@, id, later) && !pool::eligible(pool@, id, now) {
        let deadline = pool@.databases[id].retry_at->Some_0;
        laws::lemma_earliest_retry_wakes(pool@, has_slot, wake, id, deadline);
    }
    if wake is Some {
        laws::lemma_earliest_retry_wakes(pool@, has_slot, wake, 0, 0);
        let other = choose|other: u64| #[trigger]
            laws::held_back_until(pool@, other, wake->Some_0);
        assert(pool@.order.contains(other));
        if wake->Some_0 <= later {
            assert(pool::eligible(pool@, other, later));
        }
    }
}

/// The databases that take part are listed in order, and the spares of those
/// listed are counted.
pub proof fn lemma_counting<S>(
    pool: ConnectionWarmPool<S>,
    ids: Vec<DatabaseId>,
    ready: usize,
    count: usize,
    used: usize,
    cancelled: bool,
)
    requires
        pool::accounted(pool@),
        call_ensures(ConnectionWarmPool::<S>::warming_databases, (&pool,), ids),
        call_ensures(ConnectionWarmPool::<S>::ready_spares, (&pool, &ids), ready),
        call_ensures(ConnectionWarmPool::<S>::database_count, (&pool,), count),
        call_ensures(ConnectionWarmPool::<S>::capacity_used, (&pool,), used),
        call_ensures(ConnectionWarmPool::<S>::is_cancelled, (&pool,), cancelled),
    ensures
        ids@.len() == pool@.order.len(),
        forall|i: int| 0 <= i < ids@.len() ==> (#[trigger] ids@[i]).0 == pool@.order[i],
        ready == run::idle_spares(pool@),
        count == pool@.databases.dom().len(),
        used == run::attempts_in_flight(pool@) + run::idle_spares(pool@),
        cancelled == pool@.cancelled,
{
    assert(pool::raw_ids(ids@) =~= pool@.order);
    laws::lemma_ready_spares_add_up(pool@, Seq::empty(), 0);
    run::lemma_capacity_is_attempts_and_spares(pool@);
}

/// An attempt connects exactly when it got a permit; a giving-up and a closed
/// limiter are told apart.
pub proof fn lemma_permits(event: PermitEvent, r: Result<(), WarmAttemptError>)
    requires
        call_ensures(attempt::acquire_permit, (event,), r),
    ensures
        r is Ok <==> event == PermitEvent::Acquired,
        event == PermitEvent::Cancelled ==> r->Err_0 is Cancelled,
        event == PermitEvent::Closed ==> r->Err_0 is ConcurrencyClosed,
{
}

/// An attempt yields the very session that was opened, if the server said that
/// it is ready, and only then. Whatever else the server or the network did is a
/// failure; a giving-up is none.
pub proof fn lemma_connected_sessions<T>(
    event: ConnectEvent<T>,
    r: Result<UpstreamSession<T>, WarmAttemptError>,
    failure: bool,
)
    requires
        call_ensures(attempt::connect_warm_session::<T>, (event,), r),
        r is Err ==> call_ensures(WarmAttemptError::is_failure, (&r->Err_0,), failure),
    ensures
        r is Ok <==> event is Finished && event->Finished_0 is Ok
            && event->Finished_0->Ok_0.session_burst.ready,
        r is Ok ==> r->Ok_0 == event->Finished_0->Ok_0,
        event is Cancelled <==> r is Err && r->Err_0 is Cancelled,
        event is TimedOut <==> r is Err && r->Err_0 is TimedOut,
        event is Finished && event->Finished_0 is Err ==> r == Err::<
            UpstreamSession<T>,
            WarmAttemptError,
        >(WarmAttemptError::Upstream(event->Finished_0->Err_0)),
        event is Finished && event->Finished_0 is Ok
            && !event->Finished_0->Ok_0.session_burst.ready ==> r == Err::<
            UpstreamSession<T>,
            WarmAttemptError,
        >(WarmAttemptError::Upstream(UpstreamError::StartupRejected)),
        r is Err ==> (failure <==> !(event is Cancelled)),
{
}

/// An attempt that ends gives its slot back, however it ended. No session is
/// lost: it becomes a spare or comes back to be closed, never both. A failure of
/// the server or of the network defers the database; a giving-up does not. What
/// an attempt failed with is passed on.
pub proof fn lemma_settling<S>(
    pool: &mut ConnectionWarmPool<S>,
    reservation: &mut WarmReservation,
    result: Result<S, WarmAttemptError>,
    cancelled: bool,
    now: u64,
    r: Settlement<S>,
)
    requires
        pool::accounted(old(pool)@),
        old(reservation)@.active,
        pool::holds_slot(old(pool)@, old(reservation)@),
        call_ensures(
            ConnectionWarmPool::<S>::settle_attempt,
            (pool, reservation, result, cancelled, now),
            r,
        ),
    ensures
        pool::accounted(final(pool)@),
        !final(reservation)@.active,
        ({
            let id = old(reservation)@.database_id;
            let before = old(pool)@.databases[id];
            let entry = final(pool)@.databases[id];
            let takes_part = !old(pool)@.cancelled && !before.retiring;
            let kept = result is Ok && !cancelled && takes_part;
            let failed = result is Err && (result->Err_0 is TimedOut || result->Err_0 is Upstream);
            &&& laws::others_unchanged(old(pool)@, final(pool)@, id)
            &&& entry.in_flight == before.in_flight - 1
            &&& kept ==> {
                &&& entry.idle == before.idle.push(result->Ok_0)
                &&& entry.retry_at is None
                &&& entry.failures == 0
                &&& r.rejected is None
                &&& r.result == Ok::<bool, WarmAttemptError>(true)
                &&& final(pool)@.capacity_used == old(pool)@.capacity_used
            }
            &&& !kept ==> {
                &&& entry.idle == before.idle
                &&& final(pool)@.capacity_used == old(pool)@.capacity_used - 1
            }
            &&& result is Ok && !kept ==> r.rejected == Some(result->Ok_0)
            &&& result is Ok && cancelled ==> r.result is Err && r.result->Err_0 is Cancelled
            &&& result is Ok && !cancelled && !kept ==> r.result == Ok::<bool, WarmAttemptError>(
                false,
            )
            &&& result is Err ==> r.rejected is None && r.result == Err::<bool, WarmAttemptError>(
                result->Err_0,
            )
            &&& failed && takes_part ==> entry.failures == before.failures + 1 && entry.retry_at
                is Some && now + 1_000_000_000 <= entry.retry_at->Some_0 <= now + 30_000_000_000
            &&& !kept && !(failed && takes_part) ==> entry.failures == before.failures
                && entry.retry_at == before.retry_at
        }),
{
    let id = old(reservation)@.database_id;
    laws::lemma_settling_an_attempt(old(pool)@, id, result, cancelled, now);
}

/// A scheduler starts exactly where warming is wanted, the pool runs and no
/// other scheduler does. It fails only where another one runs on such a pool.
pub proof fn lemma_starting<S>(
    pool: ConnectionWarmPool<S>,
    running: bool,
    r: Result<SchedulerStep, WarmSchedulerError>,
)
    requires
        call_ensures(scheduler::start_scheduler::<S>, (&pool, running), r),
    ensures
        r == Ok::<SchedulerStep, WarmSchedulerError>(SchedulerStep::Continue)
            <==> pool@.config.per_database > 0 && !pool@.cancelled && !running,
        r == Ok::<SchedulerStep, WarmSchedulerError>(SchedulerStep::Stop)
            <==> pool@.config.per_database == 0 || pool@.cancelled,
        r is Err ==> r->Err_0 == WarmSchedulerError::AlreadyRunning,
{
}

/// A scheduler takes another turn exactly where nothing stands in its way; the
/// shutdown is no error, whatever else has happened.
pub proof fn lemma_turns(
    cancelled: bool,
    permits_closed: bool,
    poisoned: bool,
    r: Result<SchedulerStep, WarmSchedulerError>,
)
    requires
        call_ensures(scheduler::next_turn, (cancelled, permits_closed, poisoned), r),
    ensures
        r == Ok::<SchedulerStep, WarmSchedulerError>(SchedulerStep::Continue) <==> !cancelled
            && !permits_closed && !poisoned,
        r == Ok::<SchedulerStep, WarmSchedulerError>(SchedulerStep::Stop) <==> cancelled,
        r == Err::<SchedulerStep, WarmSchedulerError>(WarmSchedulerError::ConcurrencyClosed)
            <==> !cancelled && permits_closed,
        r == Err::<SchedulerStep, WarmSchedulerError>(WarmSchedulerError::StatePoisoned)
            <==> !cancelled && !permits_closed && poisoned,
{
}

/// The scheduler stops on the shutdown of the pool and on nothing else. It fails
/// only where the state was left behind by a panic or no more permits are given.
/// Whatever else an attempt ends with, the scheduler goes on. The end of an
/// attempt frees its place; nothing else does.
pub proof fn lemma_events(
    scheduler: &mut WarmScheduler,
    event: SchedulerEvent,
    r: Result<SchedulerStep, WarmSchedulerError>,
)
    requires
        call_ensures(WarmScheduler::on_event, (scheduler, &event), r),
    ensures
        r == Ok::<SchedulerStep, WarmSchedulerError>(SchedulerStep::Stop) <==> event is Cancelled,
        r == Err::<SchedulerStep, WarmSchedulerError>(WarmSchedulerError::StatePoisoned)
            <==> event is StatePoisoned,
        r == Err::<SchedulerStep, WarmSchedulerError>(WarmSchedulerError::ConcurrencyClosed)
            <==> event is AttemptEnded && event->result is Err && event->result->Err_0
            is ConcurrencyClosed,
        event is AttemptEnded && (event->result is Ok || event->result->Err_0 is Cancelled
            || event->result->Err_0 is TimedOut || event->result->Err_0 is Upstream) ==> r == Ok::<
            SchedulerStep,
            WarmSchedulerError,
        >(SchedulerStep::Continue),
        event is SpareEvicted || event is Changed || event is RetryDue ==> r == Ok::<
            SchedulerStep,
            WarmSchedulerError,
        >(SchedulerStep::Continue),
        event is AttemptEnded ==> final(scheduler).running() == old(scheduler).running() - 1,
        !(event is AttemptEnded) ==> final(scheduler).running() == old(scheduler).running(),
        final(scheduler).limit() == old(scheduler).limit(),
{
    laws::lemma_scheduler_outlives_its_attempts(event);
}

/// Only a closed limiter ends the scheduler with an attempt.
pub proof fn lemma_completions(
    id: DatabaseId,
    result: Result<bool, WarmAttemptError>,
    r: Result<(), WarmSchedulerError>,
)
    requires
        call_ensures(scheduler::handle_completion, (id, &result), r),
    ensures
        r is Err <==> result is Err && result->Err_0 is ConcurrencyClosed,
        r is Err ==> r->Err_0 == WarmSchedulerError::ConcurrencyClosed,
{
}

/// A scheduler begins with nothing under way. It may run as many attempts as
/// configured, but never more than the cap, nor than a semaphore can count.
pub proof fn lemma_new_schedulers(config: ConnectionWarmConfig, scheduler: WarmScheduler)
    requires
        call_ensures(WarmScheduler::new, (&config,), scheduler),
    ensures
        scheduler.running() == 0,
        scheduler.limit() <= config@.concurrency,
        scheduler.limit() <= config@.max_total,
        scheduler.limit() <= usize::MAX as int / 8,
        ({
            ||| scheduler.limit() == config@.concurrency
            ||| scheduler.limit() == config@.max_total
            ||| scheduler.limit() == usize::MAX as int / 8
        }),
{
    laws::lemma_attempt_limit_is_the_smallest(config@);
}

/// A plan leaves no work undone: where it stays below the limit, no database may
/// be served any more; the scheduler wakes by the time one may be, and finds one
/// when it wakes. It never goes over the limit, every attempt that it starts is
/// for a database that takes part, and each takes one unit of capacity.
pub proof fn lemma_plans_leave_nothing_undone<S>(
    scheduler: &mut WarmScheduler,
    pool: &mut ConnectionWarmPool<S>,
    now: u64,
    plan: SchedulerPlan,
    id: u64,
    later: u64,
    i: int,
)
    requires
        pool::accounted(old(pool)@),
        old(scheduler).running() <= old(scheduler).limit(),
        call_ensures(WarmScheduler::plan::<S>, (scheduler, pool, now), plan),
        now <= later,
    ensures
        final(scheduler).limit() == old(scheduler).limit(),
        final(scheduler).running() == old(scheduler).running() + plan.launch@.len(),
        final(scheduler).running() <= final(scheduler).limit(),
        final(pool)@.capacity_used == old(pool)@.capacity_used + plan.launch@.len(),
        pool::accounted(final(pool)@),
        0 <= i < plan.launch@.len() ==> {
            let reservation = plan.launch@[i]@;
            &&& reservation.active
            &&& old(pool)@.order.contains(reservation.database_id)
            &&& reservation.name == old(pool)@.databases[reservation.database_id].name
        },
        final(scheduler).running() < final(scheduler).limit() ==> {
            &&& !pool::eligible(final(pool)@, id, now)
            &&& pool::eligible(final(pool)@, id, later) ==> plan.retry_at is Some && now
                < plan.retry_at->Some_0 <= later
            &&& plan.retry_at is Some && plan.retry_at->Some_0 <= u64::MAX ==> exists|other: u64|
                final(pool)@.order.contains(other) && #[trigger] pool::eligible(
                    final(pool)@,
                    other,
                    plan.retry_at->Some_0 as u64,
                )
        },
        final(scheduler).running() == final(scheduler).limit() ==> plan.retry_at is None,
{
    let before = old(pool)@;
    let after = final(pool)@;
    let slots = (old(scheduler).limit() - old(scheduler).running()) as nat;
    let launched = scheduler::reservation_views(plan.launch@);
    assert(launched.len() == plan.launch@.len());
    scheduler::lemma_serving_fills_the_slots(before, now, slots);
    history::lemma_serving_keeps_accounts(before, now, slots);
    if 0 <= i < plan.launch@.len() {
        laws::lemma_launched_attempts_are_wanted(before, now, slots, i);
        assert(launched[i] == plan.launch@[i]@);
    }
    if launched.len() < slots {
        laws::lemma_no_retry_is_slept_through(before, now, slots, plan.retry_at, id, later);
        if pool::eligible(after, id, now) {
            assert(after.order.contains(id));
            let place = choose|place: int|
                0 <= place < after.order.len() && after.order[place] == id;
            scheduler::lemma_eligible_database_is_served(after, place, now);
        }
    }
}

/// A warm-up is begun exactly where warming and a wait for it are wanted. It
/// waits for the databases that take part at that time: for the target of each,
/// or for the cap where that is less.
pub proof fn lemma_warm_ups_begin<S>(
    pool: ConnectionWarmPool<S>,
    outcome: Result<InitialWarmUp, WarmStartupOutcome>,
)
    requires
        call_ensures(InitialWarmUp::begin::<S>, (&pool,), outcome),
    ensures
        outcome is Ok <==> pool@.config.per_database > 0 && connection_warm::nanoseconds(
            pool@.config.startup_wait,
        ) > 0,
        outcome is Ok ==> {
            let all = pool@.order.len() * pool@.config.per_database;
            &&& outcome->Ok_0.databases() == pool@.order
            &&& outcome->Ok_0.wanted() == (if all <= pool@.config.max_total {
                all
            } else {
                pool@.config.max_total as int
            })
        },
        pool@.config.per_database == 0 ==> outcome is Err && outcome->Err_0
            == WarmStartupOutcome::Disabled,
        outcome is Err && pool@.config.per_database > 0 ==> outcome->Err_0
            == WarmStartupOutcome::BackgroundOnly,
{
}

/// A warm-up is over exactly when the pool is shut down or has the spares that
/// were wanted, and reports how many there are.
pub proof fn lemma_warm_ups_end<S>(
    warm_up: InitialWarmUp,
    pool: ConnectionWarmPool<S>,
    status: WarmUpStatus,
)
    requires
        pool::accounted(pool@),
        warm_up.databases() == pool@.order,
        call_ensures(InitialWarmUp::observe::<S>, (&warm_up, &pool), status),
    ensures
        ({
            let spares = run::idle_spares(pool@);
            &&& spares <= usize::MAX
            &&& pool@.cancelled <==> status == WarmUpStatus::Finished(WarmStartupOutcome::Stopped)
            &&& !pool@.cancelled && spares >= warm_up.wanted() ==> status == WarmUpStatus::Finished(
                WarmStartupOutcome::Ready { connections: spares as usize },
            )
            &&& !pool@.cancelled && spares < warm_up.wanted() ==> status == (
            WarmUpStatus::Waiting { ready: spares as usize })
        }),
{
    laws::lemma_ready_spares_add_up(pool@, Seq::empty(), 0);
    run::lemma_capacity_is_attempts_and_spares(pool@);
}

/// A warm-up is given up at the deadline, with what it has seen and wanted, and
/// at a shutdown; any change makes it look again.
pub proof fn lemma_waits_end(
    warm_up: InitialWarmUp,
    event: WaitEvent,
    ready: usize,
    r: Option<WarmStartupOutcome>,
)
    requires
        call_ensures(InitialWarmUp::after_wait, (&warm_up, event, ready), r),
    ensures
        r is None <==> event == WaitEvent::Changed,
        event == WaitEvent::Deadline ==> r == Some(
            WarmStartupOutcome::TimedOut { ready, target: warm_up.wanted() },
        ),
        event == WaitEvent::Cancelled ==> r == Some(WarmStartupOutcome::Stopped),
{
}

/// What a pool says of a database is what it knows of it, and it says nothing of
/// those that it does not know.
pub proof fn lemma_summaries<S>(
    pool: ConnectionWarmPool<S>,
    id: DatabaseId,
    r: Option<DatabaseSummary>,
)
    requires
        call_ensures(ConnectionWarmPool::<S>::database, (&pool, id), r),
    ensures
        r is Some <==> pool@.databases.dom().contains(id.0),
        r is Some ==> {
            let entry = pool@.databases[id.0];
            &&& r->Some_0.name@ == entry.name
            &&& r->Some_0.idle == entry.idle.len()
            &&& r->Some_0.in_flight == entry.in_flight
            &&& r->Some_0.retry_at == entry.retry_at
            &&& r->Some_0.retiring == entry.retiring
        },
{
}

/// A reservation says for which database it is and whether it still holds its
/// slot.
pub proof fn lemma_reservations(
    reservation: WarmReservation,
    id: DatabaseId,
    name: &str,
    active: bool,
)
    requires
        call_ensures(WarmReservation::database_id, (&reservation,), id),
        call_ensures(WarmReservation::database_name, (&reservation,), name),
        call_ensures(WarmReservation::is_active, (&reservation,), active),
    ensures
        id.0 == reservation@.database_id,
        name@ == reservation@.name,
        active == reservation@.active,
{
}

} // verus!
