//! The accounting of spare connections.
//!
//! A pool keeps, for every registered database, the spare sessions that are
//! idle and the number of attempts in flight. Both occupy capacity. A session
//! that was handed to a client no longer does. The caller holds the pool behind
//! a lock, disposes of the sessions that an operation hands back, and wakes the
//! scheduler.
use std::collections::{HashMap, VecDeque};

use vstd::prelude::*;

use crate::connection_warm;
use crate::connection_warm::retry::WarmRetryStrategy;
use crate::connection_warm::{
    history, retry, scheduler, ConnectionWarmConfig, WarmConfigView, WarmStartupProfile,
};
use crate::params::StartupParams;

verus! {

broadcast use vstd::std_specs::hash::group_hash_axioms;

/// The identity of a physical database.
#[derive(Debug, Clone, Copy, PartialEq, Eq, Structural)]
pub struct DatabaseId(pub u64);

/// What the pool knows of one database.
struct DatabaseWarmState<S> {
    database_name: String,
    idle: VecDeque<S>,
    in_flight: usize,
    retry_at: Option<u128>,
    retry_strategy: WarmRetryStrategy,
    retiring: bool,
}

/// What the pool knows of one database.
#[verifier::ext_equal]
pub struct WarmEntryView<S> {
    /// The name under which the database was registered.
    pub name: Seq<char>,
    /// The spare sessions, the oldest first.
    pub idle: Seq<S>,
    /// The attempts that hold a reservation.
    pub in_flight: nat,
    /// No attempt may start before this time.
    pub retry_at: Option<u128>,
    /// The failures since the last success.
    pub failures: nat,
    /// The database takes no part in warming any more.
    pub retiring: bool,
}

/// The state of a pool.
#[verifier::ext_equal]
pub struct WarmPoolView<S> {
    pub config: WarmConfigView,
    pub profile: Map<Seq<char>, Seq<char>>,
    pub databases: Map<u64, WarmEntryView<S>>,
    /// The databases that take part in warming, the next to be served first.
    pub order: Seq<u64>,
    /// Idle sessions and attempts in flight, over all databases.
    pub capacity_used: nat,
    /// The pool was shut down.
    pub cancelled: bool,
}

/// Spare connections for every database, within a global cap.
pub struct ConnectionWarmPool<S> {
    config: ConnectionWarmConfig,
    profile: WarmStartupProfile,
    schedule_order: VecDeque<u64>,
    databases: HashMap<u64, DatabaseWarmState<S>>,
    capacity_used: usize,
    cancelled: bool,
}

impl<S> DatabaseWarmState<S> {
    spec fn entry(self) -> WarmEntryView<S> {
        WarmEntryView {
            name: self.database_name@,
            idle: self.idle@,
            in_flight: self.in_flight as nat,
            retry_at: self.retry_at,
            failures: self.retry_strategy@,
            retiring: self.retiring,
        }
    }
}

/// The entries of a map of database states.
spec fn entries<S>(databases: Map<u64, DatabaseWarmState<S>>) -> Map<u64, WarmEntryView<S>> {
    databases.map_values(|state: DatabaseWarmState<S>| state.entry())
}

impl<S> View for ConnectionWarmPool<S> {
    type V = WarmPoolView<S>;

    closed spec fn view(&self) -> WarmPoolView<S> {
        WarmPoolView {
            config: self.config@,
            profile: self.profile@,
            databases: entries(self.databases@),
            order: self.schedule_order@,
            capacity_used: self.capacity_used as nat,
            cancelled: self.cancelled,
        }
    }
}

/// The capacity that one database occupies.
pub open spec fn occupied<S>(entry: WarmEntryView<S>) -> nat {
    entry.idle.len() + entry.in_flight
}

/// The capacity that all databases occupy.
pub open spec fn total<S>(databases: Map<u64, WarmEntryView<S>>) -> nat
    decreases databases.dom().len(),
{
    if databases.dom().finite() && databases.dom().len() > 0 {
        let id = databases.dom().choose();
        occupied(databases[id]) + total(databases.remove(id))
    } else {
        0
    }
}

/// One database can be taken out of the total.
pub proof fn lemma_total_remove<S>(databases: Map<u64, WarmEntryView<S>>, id: u64)
    requires
        databases.dom().finite(),
        databases.dom().contains(id),
    ensures
        total(databases) == occupied(databases[id]) + total(databases.remove(id)),
    decreases databases.dom().len(),
{
    let first = databases.dom().choose();
    if first != id {
        let rest = databases.remove(first);
        lemma_total_remove(rest, id);
        lemma_total_remove(databases.remove(id), first);
        assert(rest.remove(id) =~= databases.remove(id).remove(first));
    }
}

/// The total after one database has changed or was added.
proof fn lemma_total_insert<S>(
    databases: Map<u64, WarmEntryView<S>>,
    id: u64,
    entry: WarmEntryView<S>,
)
    requires
        databases.dom().finite(),
    ensures
        databases.insert(id, entry).dom().finite(),
        total(databases.insert(id, entry)) == occupied(entry) + total(databases) - (
        if databases.dom().contains(id) {
            occupied(databases[id])
        } else {
            0
        }),
{
    let changed = databases.insert(id, entry);
    lemma_total_remove(changed, id);
    if databases.dom().contains(id) {
        lemma_total_remove(databases, id);
        assert(changed.remove(id) =~= databases.remove(id));
    } else {
        assert(changed.remove(id) =~= databases);
    }
}

/// What holds of one database at all times.
pub open spec fn entry_accounted<S>(config: WarmConfigView, entry: WarmEntryView<S>) -> bool {
    &&& occupied(entry) <= config.per_database
    &&& entry.retiring ==> entry.idle.len() == 0 && entry.retry_at is None
}

/// What holds of a pool at all times: the capacity in use is what the databases
/// occupy, neither the global cap nor the target of a database is exceeded, a
/// database takes part in warming until it is retired, and a disabled pool
/// knows no databases.
pub open spec fn accounted<S>(pool: WarmPoolView<S>) -> bool {
    &&& connection_warm::valid_config(pool.config)
    &&& pool.databases.dom().finite()
    &&& pool.capacity_used == total(pool.databases)
    &&& pool.capacity_used <= pool.config.max_total
    &&& forall|id: u64| #[trigger]
        pool.databases.dom().contains(id) ==> entry_accounted(pool.config, pool.databases[id])
    &&& pool.order.no_duplicates()
    &&& forall|id: u64| #[trigger]
        pool.order.contains(id) <==> pool.databases.dom().contains(id)
            && !pool.databases[id].retiring
    &&& pool.config.per_database == 0 ==> pool.databases.dom().len() == 0
}

/// A slot for one warm attempt. Until it is settled, it occupies capacity.
#[derive(Debug)]
pub struct WarmReservation {
    database_id: DatabaseId,
    database_name: String,
    active: bool,
}

/// What a [`WarmReservation`] says.
pub struct WarmReservationView {
    pub database_id: u64,
    pub name: Seq<char>,
    pub active: bool,
}

impl View for WarmReservation {
    type V = WarmReservationView;

    closed spec fn view(&self) -> WarmReservationView {
        WarmReservationView {
            database_id: self.database_id.0,
            name: self.database_name@,
            active: self.active,
        }
    }
}

impl WarmReservation {
    /// The database that the attempt is for.
    pub fn database_id(&self) -> (id: DatabaseId)
        ensures
            id.0 == self@.database_id,
    {
        self.database_id
    }

    /// The name of that database at the time of the reservation.
    pub fn database_name(&self) -> (name: &str)
        ensures
            name@ == self@.name,
    {
        self.database_name.as_str()
    }

    /// Whether the reservation still occupies capacity.
    pub fn is_active(&self) -> (active: bool)
        ensures
            active == self@.active,
    {
        self.active
    }
}

/// `reservation` is one of those that the pool counts as in flight.
pub open spec fn holds_slot<S>(pool: WarmPoolView<S>, reservation: WarmReservationView) -> bool {
    reservation.active ==> pool.databases.dom().contains(reservation.database_id)
        && pool.databases[reservation.database_id].in_flight > 0
}

/// The state after `id` has become `entry` and the capacity in use `used`.
pub open spec fn with_entry<S>(
    pool: WarmPoolView<S>,
    id: u64,
    entry: WarmEntryView<S>,
    used: nat,
) -> WarmPoolView<S> {
    WarmPoolView { databases: pool.databases.insert(id, entry), capacity_used: used, ..pool }
}

/// A database may be served at the time `now`.
pub open spec fn eligible<S>(pool: WarmPoolView<S>, id: u64, now: u64) -> bool {
    &&& pool.config.per_database != 0
    &&& !pool.cancelled
    &&& pool.capacity_used < pool.config.max_total
    &&& pool.databases.dom().contains(id)
    &&& !pool.databases[id].retiring
    &&& !(pool.databases[id].retry_at matches Some(deadline) && now < deadline)
    &&& occupied(pool.databases[id]) < pool.config.per_database
}

/// The state after a slot was reserved for `id`.
pub open spec fn reserved<S>(pool: WarmPoolView<S>, id: u64) -> WarmPoolView<S> {
    let entry = pool.databases[id];
    with_entry(
        pool,
        id,
        WarmEntryView { in_flight: entry.in_flight + 1, ..entry },
        pool.capacity_used + 1,
    )
}

/// The state after a slot of `id` was given back unused.
pub open spec fn released<S>(pool: WarmPoolView<S>, id: u64) -> WarmPoolView<S> {
    let entry = pool.databases[id];
    with_entry(
        pool,
        id,
        WarmEntryView { in_flight: (entry.in_flight - 1) as nat, ..entry },
        (pool.capacity_used - 1) as nat,
    )
}

/// The state after the session of an attempt became a spare of `id`.
pub open spec fn published<S>(pool: WarmPoolView<S>, id: u64, session: S) -> WarmPoolView<S> {
    let entry = pool.databases[id];
    with_entry(
        pool,
        id,
        WarmEntryView {
            idle: entry.idle.push(session),
            in_flight: (entry.in_flight - 1) as nat,
            retry_at: None,
            failures: 0,
            ..entry
        },
        pool.capacity_used,
    )
}

/// Giving back a slot right after reserving it changes nothing.
pub proof fn lemma_release_undoes_reserve<S>(pool: WarmPoolView<S>, id: u64)
    requires
        pool.databases.dom().contains(id),
    ensures
        released(reserved(pool, id), id) == pool,
{
    assert(released(reserved(pool, id), id).databases =~= pool.databases);
}

/// Changing one database by a balanced amount keeps the accounts.
pub(crate) proof fn lemma_with_entry_accounted<S>(
    pool: WarmPoolView<S>,
    id: u64,
    entry: WarmEntryView<S>,
    used: nat,
)
    requires
        accounted(pool),
        pool.databases.dom().contains(id),
        entry.retiring == pool.databases[id].retiring,
        entry_accounted(pool.config, entry),
        used == pool.capacity_used + occupied(entry) - occupied(pool.databases[id]),
        used <= pool.config.max_total,
    ensures
        accounted(with_entry(pool, id, entry, used)),
{
    lemma_total_insert(pool.databases, id, entry);
    let changed = with_entry(pool, id, entry, used);
    assert forall|other: u64| #[trigger]
        changed.order.contains(other) <==> changed.databases.dom().contains(other)
            && !changed.databases[other].retiring by {
        assert(pool.order.contains(other) <==> pool.databases.dom().contains(other)
            && !pool.databases[other].retiring);
    }
    if pool.config.per_database == 0 {
        assert(pool.databases.dom() =~= Set::empty());
    }
    assert(changed.databases.dom() =~= pool.databases.dom());
}

/// A database that is served occupies no more than the pool does.
pub(crate) proof fn lemma_occupied_within_capacity<S>(pool: WarmPoolView<S>, id: u64)
    requires
        accounted(pool),
        pool.databases.dom().contains(id),
    ensures
        occupied(pool.databases[id]) <= pool.capacity_used,
{
    lemma_total_remove(pool.databases, id);
}

impl<S> ConnectionWarmPool<S> {
    /// A pool without databases.
    pub fn new(config: ConnectionWarmConfig, default_user: &str) -> (pool: ConnectionWarmPool<S>)
        ensures
            accounted(pool@),
            pool@ == (WarmPoolView::<S> {
                config: config@,
                profile: connection_warm::resolved_profile(
                    config@.startup_params,
                    default_user@,
                ),
                databases: Map::empty(),
                order: Seq::empty(),
                capacity_used: 0,
                cancelled: false,
            }),
    {
        let profile = config.resolve_profile(default_user);
        let pool = ConnectionWarmPool {
            config,
            profile,
            schedule_order: VecDeque::new(),
            databases: HashMap::new(),
            capacity_used: 0,
            cancelled: false,
        };
        assert(pool@.databases =~= Map::empty());
        pool
    }

    /// Let a database take part in warming. A database that is already known is
    /// left as it is, even if it was retired.
    pub fn register_database(&mut self, database_id: DatabaseId, database_name: String) -> (added:
        bool)
        requires
            accounted(old(self)@),
        ensures
            accounted(final(self)@),
            history::pool_step(old(self)@, (history::PoolEvent::Registered {
                id: database_id.0,
                name: database_name@,
            })) == Some(
                final(self)@,
            ),
            added == can_register(old(self)@, database_id.0),
            final(self)@ == (if added {
                registered(old(self)@, database_id.0, database_name@)
            } else {
                old(self)@
            }),
    {
        if !self.config.is_enabled() || self.cancelled {
            return false;
        }
        if self.databases.contains_key(&database_id.0) {
            return false;
        }
        let state = DatabaseWarmState {
            database_name,
            idle: VecDeque::new(),
            in_flight: 0,
            retry_at: None,
            retry_strategy: WarmRetryStrategy::new(),
            retiring: false,
        };
        self.databases.insert(database_id.0, state);
        self.schedule_order.push_back(database_id.0);
        proof {
            assert(self@.databases =~= old(self)@.databases.insert(
                database_id.0,
                fresh_entry(database_name@),
            ));
            lemma_registered_accounted(old(self)@, database_id.0, database_name@);
        }
        true
    }

    /// Take a database out of warming for good. Returns its spare sessions, to
    /// be closed. Attempts in flight keep their slots until they are settled.
    pub fn retire_database(&mut self, database_id: DatabaseId) -> (r: Option<VecDeque<S>>)
        requires
            accounted(old(self)@),
        ensures
            accounted(final(self)@),
            history::pool_step(old(self)@, (history::PoolEvent::Retired {
                id: database_id.0,
            })) == Some(
                final(self)@,
            ),
            match r {
                Some(idle) => {
                    &&& can_retire(old(self)@, database_id.0)
                    &&& idle@ == old(self)@.databases[database_id.0].idle
                    &&& final(self)@ == retired(old(self)@, database_id.0)
                },
                None => !can_retire(old(self)@, database_id.0) && final(self)@ == old(self)@,
            },
    {
        let known = match self.databases.get(&database_id.0) {
            Some(state) => !state.retiring,
            None => false,
        };
        if !known {
            return None;
        }
        proof {
            lemma_occupied_within_capacity(self@, database_id.0);
        }
        let idle = self.retire_entry(database_id);
        let mut order: VecDeque<u64> = VecDeque::new();
        let mut i: usize = 0;
        let ghost before = self.schedule_order@;
        while i < self.schedule_order.len()
            invariant
                i <= self.schedule_order@.len(),
                self.schedule_order@ == before,
                order@ == without(before.take(i as int), database_id.0),
            decreases before.len() - i,
        {
            let id = self.schedule_order[i];
            if id != database_id.0 {
                order.push_back(id);
            }
            proof {
                assert(before.take(i + 1).drop_last() =~= before.take(i as int));
                assert(before.take(i + 1).last() == before[i as int]);
            }
            i += 1;
        }
        self.schedule_order = order;
        proof {
            assert(before.take(i as int) =~= before);
            lemma_retired_accounted(old(self)@, database_id.0);
        }
        Some(idle)
    }

    /// Empty one entry and mark it as retiring, leaving the order alone.
    fn retire_entry(&mut self, database_id: DatabaseId) -> (idle: VecDeque<S>)
        requires
            old(self)@.databases.dom().contains(database_id.0),
            old(self)@.databases[database_id.0].idle.len() <= old(self)@.capacity_used,
        ensures
            idle@ == old(self)@.databases[database_id.0].idle,
            final(self)@ == with_entry(
                old(self)@,
                database_id.0,
                retired_entry(old(self)@.databases[database_id.0]),
                (old(self)@.capacity_used - idle@.len()) as nat,
            ),
    {
        let mut idle: VecDeque<S> = VecDeque::new();
        if let Some(mut state) = self.databases.remove(&database_id.0) {
            std::mem::swap(&mut idle, &mut state.idle);
            state.retiring = true;
            state.retry_at = None;
            self.capacity_used = self.capacity_used - idle.len();
            self.databases.insert(database_id.0, state);
        }
        assert(self@.databases =~= old(self)@.databases.insert(
            database_id.0,
            retired_entry(old(self)@.databases[database_id.0]),
        ));
        idle
    }

    /// Reserve a slot if the database may be served.
    fn reserve_locked(&mut self, database_id: DatabaseId, now: u64) -> (r: Option<WarmReservation>)
        requires
            accounted(old(self)@),
            old(self)@.config.per_database != 0,
        ensures
            accounted(final(self)@),
            match r {
                Some(reservation) => {
                    &&& eligible(old(self)@, database_id.0, now)
                    &&& reservation@ == new_reservation(old(self)@, database_id.0)
                    &&& final(self)@ == reserved(old(self)@, database_id.0)
                },
                None => !eligible(old(self)@, database_id.0, now) && final(self)@ == old(self)@,
            },
    {
        if self.cancelled || self.capacity_used >= self.config.max_total() {
            return None;
        }
        let target: usize = self.config.per_database() as usize;
        let serve = match self.databases.get(&database_id.0) {
            None => false,
            Some(state) => {
                assert(self@.databases.dom().contains(database_id.0));
                assert(entry_accounted(self@.config, self@.databases[database_id.0]));
                let waiting = match state.retry_at {
                    Some(deadline) => (now as u128) < deadline,
                    None => false,
                };
                !state.retiring && !waiting && state.idle.len() + state.in_flight < target
            },
        };
        if !serve {
            return None;
        }
        match self.databases.remove(&database_id.0) {
            None => None,
            Some(mut state) => {
                let database_name = state.database_name.clone();
                state.in_flight = state.in_flight + 1;
                self.databases.insert(database_id.0, state);
                self.capacity_used = self.capacity_used + 1;
                proof {
                    let entry = old(self)@.databases[database_id.0];
                    let changed = WarmEntryView { in_flight: entry.in_flight + 1, ..entry };
                    assert(self@.databases =~= old(self)@.databases.insert(
                        database_id.0,
                        changed,
                    ));
                    lemma_with_entry_accounted(
                        old(self)@,
                        database_id.0,
                        changed,
                        old(self)@.capacity_used + 1,
                    );
                }
                Some(WarmReservation { database_id, database_name, active: true })
            },
        }
    }

    /// Reserve a slot for one database.
    pub fn try_reserve(&mut self, database_id: DatabaseId, now: u64) -> (r: Option<WarmReservation>)
        requires
            accounted(old(self)@),
        ensures
            accounted(final(self)@),
            history::pool_step(old(self)@, (history::PoolEvent::Reserved {
                id: database_id.0,
                now,
            })) == Some(
                final(self)@,
            ),
            match r {
                Some(reservation) => {
                    &&& eligible(old(self)@, database_id.0, now)
                    &&& reservation@ == new_reservation(old(self)@, database_id.0)
                    &&& final(self)@ == reserved(old(self)@, database_id.0)
                },
                None => !eligible(old(self)@, database_id.0, now) && final(self)@ == old(self)@,
            },
    {
        if !self.config.is_enabled() {
            return None;
        }
        self.reserve_locked(database_id, now)
    }

    /// Reserve one slot in round-robin registration order, scanning at most
    /// one pass and skipping databases whose spare target is already covered.
    pub fn reserve_next(&mut self, now: u64) -> (r: Option<WarmReservation>)
        requires
            accounted(old(self)@),
        ensures
            accounted(final(self)@),
            history::pool_step(old(self)@, (history::PoolEvent::Served { now })) == Some(
                final(self)@,
            ),
            match r {
                Some(reservation) => exists|k: int|
                    {
                        &&& #[trigger] is_first_eligible(old(self)@, k, now)
                        &&& reservation@ == new_reservation(old(self)@, old(self)@.order[k])
                        &&& final(self)@ == reserved(rotated(old(self)@, k + 1), old(self)@.order[k])
                    },
                None => {
                    &&& forall|k: int|
                        0 <= k < old(self)@.order.len() ==> !eligible(
                            old(self)@,
                            #[trigger] old(self)@.order[k],
                            now,
                        )
                    &&& final(self)@ == old(self)@
                },
            },
    {
        if !self.config.is_enabled() || self.capacity_used >= self.config.max_total() {
            return None;
        }
        let count: usize = self.schedule_order.len();
        let ghost start = self@;
        let mut i: usize = 0;
        assert(rotated(start, 0).order =~= start.order);
        while i < count
            invariant
                i <= count,
                count == start.order.len(),
                accounted(start),
                accounted(self@),
                start == old(self)@,
                start.config.per_database != 0,
                self@ == rotated(start, i as int),
                forall|k: int| 0 <= k < i ==> !eligible(start, #[trigger] start.order[k], now),
            decreases count - i,
        {
            let ghost turned = self@;
            match self.schedule_order.pop_front() {
                None => {
                    assert(turned.order.len() == count);
                },
                Some(id) => {
                    self.schedule_order.push_back(id);
                    proof {
                        assert(id == start.order[i as int]);
                        assert(self@.order =~= rotated(start, i + 1).order);
                        lemma_rotated_accounted(start, i + 1);
                    }
                    match self.reserve_locked(DatabaseId(id), now) {
                        Some(reservation) => {
                            proof {
                                assert(is_first_eligible(start, i as int, now));
                                scheduler::lemma_serving_once(start, i as int, now);
                            }
                            return Some(reservation);
                        },
                        None => {},
                    }
                },
            }
            i += 1;
        }
        assert(rotated(start, count as int).order =~= start.order);
        None
    }
}

/// A database may be added: the pool warms, runs, and does not know it.
pub open spec fn can_register<S>(pool: WarmPoolView<S>, id: u64) -> bool {
    pool.config.per_database != 0 && !pool.cancelled && !pool.databases.dom().contains(id)
}

/// What the pool knows of a database that was just registered.
pub open spec fn fresh_entry<S>(name: Seq<char>) -> WarmEntryView<S> {
    WarmEntryView {
        name,
        idle: Seq::empty(),
        in_flight: 0,
        retry_at: None,
        failures: 0,
        retiring: false,
    }
}

/// The state after a database was registered: it is served last.
pub open spec fn registered<S>(pool: WarmPoolView<S>, id: u64, name: Seq<char>) -> WarmPoolView<S> {
    WarmPoolView {
        databases: pool.databases.insert(id, fresh_entry(name)),
        order: pool.order.push(id),
        ..pool
    }
}

/// A database may be retired: it takes part in warming.
pub open spec fn can_retire<S>(pool: WarmPoolView<S>, id: u64) -> bool {
    pool.databases.dom().contains(id) && !pool.databases[id].retiring
}

/// What is left of a database that was retired.
pub open spec fn retired_entry<S>(entry: WarmEntryView<S>) -> WarmEntryView<S> {
    WarmEntryView { idle: Seq::empty(), retry_at: None, retiring: true, ..entry }
}

/// `order` without `id`.
pub open spec fn without(order: Seq<u64>, id: u64) -> Seq<u64>
    decreases order.len(),
{
    if order.len() == 0 {
        order
    } else if order.last() == id {
        without(order.drop_last(), id)
    } else {
        without(order.drop_last(), id).push(order.last())
    }
}

/// The state after a database was retired.
pub open spec fn retired<S>(pool: WarmPoolView<S>, id: u64) -> WarmPoolView<S> {
    let entry = pool.databases[id];
    WarmPoolView {
        databases: pool.databases.insert(id, retired_entry(entry)),
        order: without(pool.order, id),
        capacity_used: (pool.capacity_used - entry.idle.len()) as nat,
        ..pool
    }
}

/// The reservation that the pool hands out for `id`.
pub open spec fn new_reservation<S>(pool: WarmPoolView<S>, id: u64) -> WarmReservationView {
    WarmReservationView { database_id: id, name: pool.databases[id].name, active: true }
}

/// The state with the first `k` databases of the order moved to its end.
pub open spec fn rotated<S>(pool: WarmPoolView<S>, k: int) -> WarmPoolView<S> {
    WarmPoolView { order: pool.order.skip(k) + pool.order.take(k), ..pool }
}

/// The database at place `k` is the first of the order that may be served.
pub open spec fn is_first_eligible<S>(pool: WarmPoolView<S>, k: int, now: u64) -> bool {
    &&& 0 <= k < pool.order.len()
    &&& eligible(pool, pool.order[k], now)
    &&& forall|j: int| 0 <= j < k ==> !eligible(pool, #[trigger] pool.order[j], now)
}

pub(crate) proof fn lemma_registered_accounted<S>(pool: WarmPoolView<S>, id: u64, name: Seq<char>)
    requires
        accounted(pool),
        can_register(pool, id),
    ensures
        accounted(registered(pool, id, name)),
{
    lemma_total_insert(pool.databases, id, fresh_entry(name));
    let changed = registered(pool, id, name);
    assert(!pool.order.contains(id));
    assert forall|other: u64| #[trigger]
        changed.order.contains(other) <==> changed.databases.dom().contains(other)
            && !changed.databases[other].retiring by {
        assert(pool.order.contains(other) <==> pool.databases.dom().contains(other)
            && !pool.databases[other].retiring);
        if pool.order.contains(other) {
            let k = choose|k: int| 0 <= k < pool.order.len() && pool.order[k] == other;
            assert(changed.order[k] == other);
        }
        if other == id {
            assert(changed.order[pool.order.len() as int] == id);
        }
    }
}

/// Taking a place out of the order leaves the others in their order.
proof fn lemma_without(order: Seq<u64>, id: u64)
    requires
        order.no_duplicates(),
    ensures
        without(order, id).no_duplicates(),
        forall|other: u64| #[trigger]
            without(order, id).contains(other) <==> order.contains(other) && other != id,
    decreases order.len(),
{
    if order.len() > 0 {
        let front = order.drop_last();
        lemma_without(front, id);
        let kept = without(front, id);
        assert forall|other: u64| #[trigger]
            without(order, id).contains(other) <==> order.contains(other) && other != id by {
            assert(order.contains(other) <==> front.contains(other) || other == order.last()) by {
                if order.contains(other) && other != order.last() {
                    let k = choose|k: int| 0 <= k < order.len() && order[k] == other;
                    assert(front[k] == other);
                }
                if front.contains(other) {
                    let k = choose|k: int| 0 <= k < front.len() && front[k] == other;
                    assert(order[k] == other);
                }
                assert(order[order.len() - 1] == order.last());
            }
            if order.last() != id {
                let whole = kept.push(order.last());
                if whole.contains(other) && other != order.last() {
                    let k = choose|k: int| 0 <= k < whole.len() && whole[k] == other;
                    assert(kept[k] == other);
                }
                if kept.contains(other) {
                    let k = choose|k: int| 0 <= k < kept.len() && kept[k] == other;
                    assert(whole[k] == other);
                }
                assert(whole[kept.len() as int] == order.last());
            }
        }
        if order.last() != id {
            assert(!front.contains(order.last())) by {
                if front.contains(order.last()) {
                    let k = choose|k: int| 0 <= k < front.len() && front[k] == order.last();
                    assert(order[k] == order[order.len() - 1]);
                }
            }
            assert(!kept.contains(order.last()));
        }
    }
}

pub(crate) proof fn lemma_retired_accounted<S>(pool: WarmPoolView<S>, id: u64)
    requires
        accounted(pool),
        can_retire(pool, id),
    ensures
        accounted(retired(pool, id)),
{
    let entry = pool.databases[id];
    lemma_total_insert(pool.databases, id, retired_entry(entry));
    lemma_occupied_within_capacity(pool, id);
    lemma_without(pool.order, id);
    let changed = retired(pool, id);
    assert forall|other: u64| #[trigger]
        changed.order.contains(other) <==> changed.databases.dom().contains(other)
            && !changed.databases[other].retiring by {
        assert(pool.order.contains(other) <==> pool.databases.dom().contains(other)
            && !pool.databases[other].retiring);
    }
    if pool.config.per_database == 0 {
        assert(pool.databases.dom() =~= Set::empty());
    }
    assert(changed.databases.dom() =~= pool.databases.dom());
}

pub(crate) proof fn lemma_rotated_accounted<S>(pool: WarmPoolView<S>, k: int)
    requires
        accounted(pool),
        0 <= k <= pool.order.len(),
    ensures
        accounted(rotated(pool, k)),
{
    let n = pool.order.len() as int;
    let changed = rotated(pool, k);
    assert forall|other: u64| #[trigger]
        changed.order.contains(other) <==> pool.order.contains(other) by {
        if pool.order.contains(other) {
            let j = choose|j: int| 0 <= j < n && pool.order[j] == other;
            if j < k {
                assert(changed.order[n - k + j] == other);
            } else {
                assert(changed.order[j - k] == other);
            }
        }
        if changed.order.contains(other) {
            let j = choose|j: int| 0 <= j < n && changed.order[j] == other;
            if j < n - k {
                assert(pool.order[j + k] == other);
            } else {
                assert(pool.order[j - (n - k)] == other);
            }
        }
    }
    assert(changed.order.no_duplicates());
}

/// Sessions may be published and failures recorded for `id`.
pub open spec fn accepts<S>(pool: WarmPoolView<S>, id: u64) -> bool {
    !pool.cancelled && !pool.databases[id].retiring
}

/// The reservation after it was settled.
pub open spec fn settled(reservation: WarmReservationView) -> WarmReservationView {
    WarmReservationView { active: false, ..reservation }
}

/// The time at which `id` may be tried again after a failure at `now`.
pub open spec fn retry_time<S>(pool: WarmPoolView<S>, id: u64, now: u64) -> int {
    now + retry::retry_delay_ms(pool.databases[id].failures) * 1_000_000
}

/// The state after an attempt for `id` has failed at `now`.
pub open spec fn failed<S>(pool: WarmPoolView<S>, id: u64, now: u64) -> WarmPoolView<S> {
    let entry = pool.databases[id];
    with_entry(
        pool,
        id,
        WarmEntryView {
            retry_at: Some(retry_time(pool, id, now) as u128),
            failures: entry.failures + 1,
            ..entry
        },
        pool.capacity_used,
    )
}

/// The state after the `n` oldest spares of `id` were taken away.
pub open spec fn taken<S>(pool: WarmPoolView<S>, id: u64, n: int) -> WarmPoolView<S> {
    let entry = pool.databases[id];
    with_entry(
        pool,
        id,
        WarmEntryView { idle: entry.idle.skip(n), ..entry },
        (pool.capacity_used - n) as nat,
    )
}

/// The state after the spare of `id` at place `index` was taken away.
pub open spec fn evicted<S>(pool: WarmPoolView<S>, id: u64, index: int) -> WarmPoolView<S> {
    let entry = pool.databases[id];
    with_entry(
        pool,
        id,
        WarmEntryView { idle: entry.idle.remove(index), ..entry },
        (pool.capacity_used - 1) as nat,
    )
}

/// A client with these parameters may be given a spare of `id`.
pub open spec fn can_checkout<S>(
    pool: WarmPoolView<S>,
    id: u64,
    client: Map<Seq<char>, Seq<char>>,
) -> bool {
    &&& pool.config.per_database != 0
    &&& connection_warm::profile_matches(pool.profile, client)
    &&& !pool.cancelled
    &&& pool.databases.dom().contains(id)
    &&& !pool.databases[id].retiring
}

/// What a checkout hands out.
pub struct Checkout<S> {
    /// The session for the client.
    pub session: Option<S>,
    /// Older spares that turned out to be unusable, to be closed.
    pub discarded: Vec<S>,
}

/// A client that asks for a spare of `id` gets `r`, which leaves `after`; `says`
/// tells which answers the look at a session can give.
pub open spec fn hands_out<S>(
    before: WarmPoolView<S>,
    id: u64,
    client: Map<Seq<char>, Seq<char>>,
    says: spec_fn(S, bool) -> bool,
    r: Checkout<S>,
    after: WarmPoolView<S>,
) -> bool {
    let idle = before.databases[id].idle;
    let skipped = r.discarded@.len() as int;
    if can_checkout(before, id, client) {
        &&& skipped <= idle.len()
        &&& r.discarded@ == idle.take(skipped)
        &&& forall|i: int| 0 <= i < skipped ==> says(#[trigger] idle[i], false)
        &&& match r.session {
            Some(session) => {
                &&& skipped < idle.len()
                &&& session == idle[skipped]
                &&& says(session, true)
                &&& after == taken(before, id, skipped + 1)
            },
            None => {
                &&& skipped == idle.len()
                &&& after == taken(before, id, skipped)
            },
        }
    } else {
        &&& r.session is None
        &&& skipped == 0
        &&& after == before
    }
}

/// Looking through the spares takes out `r`, which leaves `after`; `says` tells
/// which answers the look at a session can give.
pub open spec fn evicts<S>(
    before: WarmPoolView<S>,
    says: spec_fn(S, bool) -> bool,
    r: Option<S>,
    after: WarmPoolView<S>,
) -> bool {
    match r {
        Some(session) => exists|id: u64, index: int|
            {
                &&& #[trigger] is_spare(before, id, index, session)
                &&& says(session, false)
                &&& after == evicted(before, id, index)
            },
        None => {
            &&& after == before
            &&& forall|id: u64, index: int, session: S| #[trigger]
                is_spare(before, id, index, session) ==> says(session, true)
        },
    }
}

/// The spares of the databases in `order`, one database after the other.
pub open spec fn all_idle<S>(order: Seq<u64>, databases: Map<u64, WarmEntryView<S>>) -> Seq<S>
    decreases order.len(),
{
    if order.len() == 0 {
        Seq::empty()
    } else {
        all_idle(order.drop_last(), databases) + databases[order.last()].idle
    }
}

/// All databases retired.
pub open spec fn all_retired<S>(databases: Map<u64, WarmEntryView<S>>) -> Map<
    u64,
    WarmEntryView<S>,
> {
    databases.map_values(|entry: WarmEntryView<S>| retired_entry(entry))
}

/// The state after the pool was shut down: only attempts in flight still occupy
/// capacity, and nothing can be added.
pub open spec fn shut_down<S>(pool: WarmPoolView<S>) -> WarmPoolView<S> {
    WarmPoolView {
        databases: all_retired(pool.databases),
        order: Seq::empty(),
        capacity_used: total(all_retired(pool.databases)),
        cancelled: true,
        ..pool
    }
}

/// `id` waits for the time `deadline` and for nothing else.
pub open spec fn waits_for<S>(pool: WarmPoolView<S>, id: u64, deadline: u128) -> bool {
    &&& !pool.cancelled
    &&& pool.databases.dom().contains(id)
    &&& !pool.databases[id].retiring
    &&& occupied(pool.databases[id]) < pool.config.per_database
    &&& pool.databases[id].retry_at == Some(deadline)
}

/// `deadline` is the earliest time for which a database waits while there is a
/// slot for its attempt.
pub open spec fn is_next_deadline<S>(
    state: WarmPoolView<S>,
    has_slot: bool,
    deadline: Option<u128>,
) -> bool {
    match deadline {
        Some(time) => {
            &&& has_slot
            &&& state.capacity_used < state.config.max_total
            &&& exists|id: u64| #[trigger] waits_for(state, id, time)
            &&& forall|id: u64, other: u128| #[trigger]
                waits_for(state, id, other) ==> time <= other
        },
        None => has_slot && state.capacity_used < state.config.max_total ==> (forall|
            id: u64,
            other: u128,
        | !waits_for(state, id, other)),
    }
}

/// The spares of those databases among `ids` that still take part in warming.
pub open spec fn ready_spares<S>(pool: WarmPoolView<S>, ids: Seq<u64>) -> nat
    decreases ids.len(),
{
    if ids.len() == 0 {
        0
    } else {
        let id = ids.last();
        ready_spares(pool, ids.drop_last()) + (if pool.databases.dom().contains(id)
            && !pool.databases[id].retiring {
            pool.databases[id].idle.len()
        } else {
            0
        })
    }
}

/// Spares that are counted once occupy capacity.
proof fn lemma_ready_spares_bound<S>(
    pool: WarmPoolView<S>,
    ids: Seq<u64>,
    databases: Map<u64, WarmEntryView<S>>,
)
    requires
        ids.no_duplicates(),
        databases.dom().finite(),
        forall|id: u64| #[trigger] ids.contains(id) ==> (databases.dom().contains(id)
            <==> pool.databases.dom().contains(id)),
        forall|id: u64| #[trigger]
            ids.contains(id) && databases.dom().contains(id) ==> databases[id]
                == pool.databases[id],
    ensures
        ready_spares(pool, ids) <= total(databases),
    decreases ids.len(),
{
    if ids.len() > 0 {
        let id = ids.last();
        let front = ids.drop_last();
        assert(ids[ids.len() - 1] == id);
        assert(ids.contains(id));
        assert forall|other: u64| #[trigger] front.contains(other) implies ids.contains(other)
            && other != id by {
            let k = choose|k: int| 0 <= k < front.len() && front[k] == other;
            assert(ids[k] == other);
        }
        if databases.dom().contains(id) {
            lemma_total_remove(databases, id);
            lemma_ready_spares_bound(pool, front, databases.remove(id));
        } else {
            lemma_ready_spares_bound(pool, front, databases);
        }
    }
}

impl<S> ConnectionWarmPool<S> {
    /// Settle a reservation by keeping the session of its attempt as a spare.
    /// The session comes back where the database or the pool no longer takes
    /// spares, and the slot is free again. A settled reservation changes
    /// nothing.
    pub fn publish(&mut self, reservation: &mut WarmReservation, session: S) -> (r: Result<(), S>)
        requires
            accounted(old(self)@),
            holds_slot(old(self)@, old(reservation)@),
        ensures
            accounted(final(self)@),
            old(reservation)@.active ==> history::pool_step(
                old(self)@,
                (history::PoolEvent::Published {
                    id: old(reservation)@.database_id,
                    session,
                }),
            ) == Some(final(self)@),
            final(reservation)@ == settled(old(reservation)@),
            match r {
                Ok(()) => {
                    &&& old(reservation)@.active
                    &&& accepts(old(self)@, old(reservation)@.database_id)
                    &&& final(self)@ == published(
                        old(self)@,
                        old(reservation)@.database_id,
                        session,
                    )
                },
                Err(back) => {
                    &&& back == session
                    &&& if old(reservation)@.active {
                        &&& !accepts(old(self)@, old(reservation)@.database_id)
                        &&& final(self)@ == released(old(self)@, old(reservation)@.database_id)
                    } else {
                        final(self)@ == old(self)@
                    }
                },
            },
    {
        if !reservation.active {
            return Err(session);
        }
        let id: u64 = reservation.database_id.0;
        let retiring = match self.databases.get(&id) {
            Some(state) => state.retiring,
            None => true,
        };
        if self.cancelled || retiring {
            self.release(reservation);
            return Err(session);
        }
        reservation.active = false;
        if let Some(mut state) = self.databases.remove(&id) {
            state.idle.push_back(session);
            state.in_flight = state.in_flight - 1;
            state.retry_at = None;
            state.retry_strategy = WarmRetryStrategy::new();
            self.databases.insert(id, state);
        }
        proof {
            let entry = old(self)@.databases[id];
            let changed = published(old(self)@, id, session).databases[id];
            assert(self@.databases =~= old(self)@.databases.insert(id, changed));
            assert(entry_accounted(old(self)@.config, entry));
            lemma_with_entry_accounted(old(self)@, id, changed, old(self)@.capacity_used);
        }
        Ok(())
    }

    /// Settle a reservation without a session. A settled reservation changes
    /// nothing.
    pub fn release(&mut self, reservation: &mut WarmReservation)
        requires
            accounted(old(self)@),
            holds_slot(old(self)@, old(reservation)@),
        ensures
            accounted(final(self)@),
            old(reservation)@.active ==> history::pool_step(
                old(self)@,
                (history::PoolEvent::Released { id: old(reservation)@.database_id }),
            ) == Some(final(self)@),
            final(reservation)@ == settled(old(reservation)@),
            final(self)@ == (if old(reservation)@.active {
                released(old(self)@, old(reservation)@.database_id)
            } else {
                old(self)@
            }),
    {
        if !reservation.active {
            return;
        }
        let id: u64 = reservation.database_id.0;
        reservation.active = false;
        proof {
            lemma_occupied_within_capacity(self@, id);
        }
        if let Some(mut state) = self.databases.remove(&id) {
            state.in_flight = state.in_flight - 1;
            self.databases.insert(id, state);
            self.capacity_used = self.capacity_used - 1;
        }
        proof {
            let entry = old(self)@.databases[id];
            let changed = released(old(self)@, id).databases[id];
            assert(self@.databases =~= old(self)@.databases.insert(id, changed));
            assert(entry_accounted(old(self)@.config, entry));
            lemma_with_entry_accounted(
                old(self)@,
                id,
                changed,
                (old(self)@.capacity_used - 1) as nat,
            );
        }
    }

    /// Note that the attempt of a reservation failed at the time `now`, in
    /// nanoseconds. The database is not tried again before its delay is over.
    /// Returns whether the failure counts: it does not once the database or the
    /// pool is done with warming.
    pub fn record_failure(&mut self, reservation: &WarmReservation, now: u64) -> (recorded: bool)
        requires
            accounted(old(self)@),
            old(self)@.databases.dom().contains(reservation@.database_id),
        ensures
            accounted(final(self)@),
            history::pool_step(old(self)@, (history::PoolEvent::Failed {
                id: reservation@.database_id,
                now,
            })) == Some(
                final(self)@,
            ),
            recorded == accepts(old(self)@, reservation@.database_id),
            final(self)@ == (if recorded {
                failed(old(self)@, reservation@.database_id, now)
            } else {
                old(self)@
            }),
    {
        let id: u64 = reservation.database_id.0;
        let retiring = match self.databases.get(&id) {
            Some(state) => state.retiring,
            None => true,
        };
        if self.cancelled || retiring {
            return false;
        }
        if let Some(state) = self.databases.remove(&id) {
            proof {
                retry::lemma_retry_delay_bounds(state.retry_strategy@);
            }
            let DatabaseWarmState { database_name, idle, in_flight, retry_strategy, .. } = state;
            let (delay, retry_strategy) = retry_strategy.after_failure();
            let changed = DatabaseWarmState {
                database_name,
                idle,
                in_flight,
                retry_at: Some(now as u128 + delay as u128 * 1_000_000),
                retry_strategy,
                retiring: false,
            };
            self.databases.insert(id, changed);
        }
        proof {
            let entry = old(self)@.databases[id];
            let changed = failed(old(self)@, id, now).databases[id];
            assert(self@.databases =~= old(self)@.databases.insert(id, changed));
            assert(entry_accounted(old(self)@.config, entry));
            lemma_with_entry_accounted(old(self)@, id, changed, old(self)@.capacity_used);
        }
        true
    }

    /// Hand the oldest usable spare of a database to a client, for good. Spares
    /// that `is_idle` finds unusable are skipped and come back to be closed.
    pub fn try_checkout<F: Fn(&S) -> bool>(
        &mut self,
        database_id: DatabaseId,
        client_params: &StartupParams,
        is_idle: F,
    ) -> (r: Checkout<S>)
        requires
            accounted(old(self)@),
            forall|session: S| #[trigger] call_requires(is_idle, (&session,)),
        ensures
            accounted(final(self)@),
            hands_out(
                old(self)@,
                database_id.0,
                client_params@,
                |session: S, usable: bool| call_ensures(is_idle, (&session,), usable),
                r,
                final(self)@,
            ),
    {
        let mut discarded: Vec<S> = Vec::new();
        if !self.config.is_enabled() || !self.profile.matches(client_params) || self.cancelled {
            return Checkout { session: None, discarded };
        }
        let id: u64 = database_id.0;
        let known = match self.databases.get(&id) {
            Some(state) => !state.retiring,
            None => false,
        };
        if !known {
            return Checkout { session: None, discarded };
        }
        let mut session: Option<S> = None;
        let ghost entry = self@.databases[id];
        let ghost idle = entry.idle;
        let ghost mut count: int = 0;
        if let Some(state) = self.databases.remove(&id) {
            let mut state = state;
            loop
                invariant_except_break
                    session is None,
                    state.entry() == (WarmEntryView { idle: state.idle@, ..entry }),
                    count == discarded@.len(),
                    count <= idle.len(),
                    state.idle@ == idle.skip(count),
                    discarded@ == idle.take(count),
                    forall|s: S| #[trigger] call_requires(is_idle, (&s,)),
                    forall|i: int|
                        0 <= i < count ==> call_ensures(is_idle, (&#[trigger] idle[i],), false),
                ensures
                    match session {
                        Some(s) => {
                            &&& discarded@.len() < idle.len()
                            &&& s == idle[discarded@.len() as int]
                            &&& call_ensures(is_idle, (&s,), true)
                            &&& count == discarded@.len() + 1
                        },
                        None => discarded@.len() == idle.len() && count == idle.len(),
                    },
                    count <= idle.len(),
                    discarded@ == idle.take(discarded@.len() as int),
                    state.entry() == (WarmEntryView { idle: idle.skip(count), ..entry }),
                    forall|i: int|
                        0 <= i < discarded@.len() ==> call_ensures(
                            is_idle,
                            (&#[trigger] idle[i],),
                            false,
                        ),
                decreases state.idle@.len(),
            {
                match state.idle.pop_front() {
                    None => {
                        assert(state.idle@ =~= idle.skip(count));
                        break;
                    },
                    Some(oldest) => {
                        assert(oldest == idle[count]);
                        assert(state.idle@ =~= idle.skip(count + 1));
                        let usable = is_idle(&oldest);
                        if usable {
                            session = Some(oldest);
                            proof {
                                count = count + 1;
                            }
                            break;
                        }
                        discarded.push(oldest);
                        assert(discarded@ =~= idle.take(count + 1));
                        proof {
                            count = count + 1;
                        }
                    },
                }
            }
            proof {
                lemma_occupied_within_capacity(old(self)@, id);
            }
            let taken: usize = discarded.len() + (if session.is_some() {
                1
            } else {
                0
            });
            self.capacity_used = self.capacity_used - taken;
            self.databases.insert(id, state);
        }
        proof {
            let changed = WarmEntryView { idle: idle.skip(count), ..entry };
            assert(self@.databases =~= old(self)@.databases.insert(id, changed));
            assert(entry_accounted(old(self)@.config, entry));
            lemma_with_entry_accounted(
                old(self)@,
                id,
                changed,
                (old(self)@.capacity_used - count) as nat,
            );
        }
        Checkout { session, discarded }
    }

    /// Look through the spares for one that `is_idle` finds unusable, and take
    /// it out to be closed.
    pub fn evict_unhealthy<F: Fn(&S) -> bool>(&mut self, is_idle: F) -> (r: Option<S>)
        requires
            accounted(old(self)@),
            forall|session: S| #[trigger] call_requires(is_idle, (&session,)),
        ensures
            accounted(final(self)@),
            evicts(
                old(self)@,
                |session: S, usable: bool| call_ensures(is_idle, (&session,), usable),
                r,
                final(self)@,
            ),
    {
        let mut place: usize = 0;
        while place < self.schedule_order.len()
            invariant
                accounted(self@),
                self@ == old(self)@,
                place <= self.schedule_order@.len(),
                forall|s: S| #[trigger] call_requires(is_idle, (&s,)),
                forall|p: int, index: int, session: S|
                    0 <= p < place && #[trigger] is_spare(
                        self@,
                        self@.order[p],
                        index,
                        session,
                    ) ==> call_ensures(is_idle, (&session,), true),
            decreases self.schedule_order@.len() - place,
        {
            let id: u64 = self.schedule_order[place];
            let ghost entry = self@.databases[id];
            assert(self@.order.contains(id));
            let found = match self.databases.get(&id) {
                None => None,
                Some(state) => Self::first_unusable(&state.idle, &is_idle),
            };
            if let Some(index) = found {
                proof {
                    lemma_occupied_within_capacity(self@, id);
                }
                let mut session: Option<S> = None;
                if let Some(mut state) = self.databases.remove(&id) {
                    session = state.idle.remove(index);
                    self.databases.insert(id, state);
                    self.capacity_used = self.capacity_used - 1;
                }
                proof {
                    let changed = WarmEntryView { idle: entry.idle.remove(index as int), ..entry };
                    assert(self@.databases =~= old(self)@.databases.insert(id, changed));
                    assert(entry_accounted(old(self)@.config, entry));
                    lemma_with_entry_accounted(
                        old(self)@,
                        id,
                        changed,
                        (old(self)@.capacity_used - 1) as nat,
                    );
                    assert(is_spare(old(self)@, id, index as int, entry.idle[index as int]));
                }
                return session;
            }
            place += 1;
        }
        proof {
            assert forall|id: u64, index: int, session: S| #[trigger]
                is_spare(self@, id, index, session) implies call_ensures(
                is_idle,
                (&session,),
                true,
            ) by {
                assert(!self@.databases[id].retiring) by {
                    assert(entry_accounted(self@.config, self@.databases[id]));
                }
                assert(self@.order.contains(id));
                let p = choose|p: int| 0 <= p < self@.order.len() && self@.order[p] == id;
                assert(is_spare(self@, self@.order[p], index, session));
            }
        }
        None
    }

    /// The first of these sessions that `is_idle` finds unusable.
    fn first_unusable<F: Fn(&S) -> bool>(idle: &VecDeque<S>, is_idle: &F) -> (place: Option<usize>)
        requires
            forall|session: S| #[trigger] call_requires(is_idle, (&session,)),
        ensures
            match place {
                Some(i) => i < idle@.len() && call_ensures(is_idle, (&idle@[i as int],), false),
                None => forall|i: int|
                    0 <= i < idle@.len() ==> call_ensures(is_idle, (&#[trigger] idle@[i],), true),
            },
    {
        let mut i: usize = 0;
        while i < idle.len()
            invariant
                i <= idle@.len(),
                forall|session: S| #[trigger] call_requires(is_idle, (&session,)),
                forall|k: int|
                    0 <= k < i ==> call_ensures(is_idle, (&#[trigger] idle@[k],), true),
            decreases idle@.len() - i,
        {
            let usable = is_idle(&idle[i]);
            if !usable {
                return Some(i);
            }
            i += 1;
        }
        None
    }

    /// Close the pool: retire every database and refuse everything from now on.
    /// Returns all spares, to be closed. Attempts in flight keep their slots
    /// until they are settled.
    pub fn begin_shutdown(&mut self) -> (spares: Vec<S>)
        requires
            accounted(old(self)@),
        ensures
            accounted(final(self)@),
            history::pool_step(old(self)@, history::PoolEvent::<S>::ShutDown) == Some(
                final(self)@,
            ),
            final(self)@ == shut_down(old(self)@),
            spares@ == all_idle(old(self)@.order, old(self)@.databases),
    {
        let ghost start = self@;
        self.cancelled = true;
        let mut spares: Vec<S> = Vec::new();
        let ghost mut done: int = 0;
        proof {
            assert(start.order.skip(0) =~= start.order);
            assert(start.order.take(0) =~= Seq::empty());
            lemma_partly_retired_start(start);
        }
        loop
            invariant
                accounted(start),
                start == old(self)@,
                0 <= done <= start.order.len(),
                self@ == (WarmPoolView {
                    databases: partly_retired(start, done),
                    order: start.order.skip(done),
                    capacity_used: total(partly_retired(start, done)),
                    cancelled: true,
                    ..start
                }),
                spares@ == all_idle(start.order.take(done), start.databases),
            ensures
                self@ == (WarmPoolView {
                    databases: partly_retired(start, start.order.len() as int),
                    order: Seq::empty(),
                    capacity_used: total(partly_retired(start, start.order.len() as int)),
                    cancelled: true,
                    ..start
                }),
                spares@ == all_idle(start.order, start.databases),
            decreases start.order.len() - done,
        {
            match self.schedule_order.pop_front() {
                None => {
                    assert(done == start.order.len());
                    assert(start.order.take(done) =~= start.order);
                    assert(self@.order =~= Seq::empty());
                    break;
                },
                Some(id) => {
                    let ghost before = self@;
                    proof {
                        assert(id == start.order[done]);
                        assert(start.order.contains(id));
                        assert(self@.order =~= start.order.skip(done + 1));
                        lemma_partly_retired_step(start, done);
                    }
                    let mut idle = self.retire_entry(DatabaseId(id));
                    let ghost gone = idle@;
                    let ghost kept = spares@;
                    while idle.len() > 0
                        invariant
                            spares@ + idle@ == kept + gone,
                        decreases idle@.len(),
                    {
                        let ghost left = idle@;
                        let ghost had = spares@;
                        match idle.pop_front() {
                            Some(session) => {
                                spares.push(session);
                                assert(spares@ + idle@ =~= had + left);
                            },
                            None => {},
                        }
                    }
                    proof {
                        assert(spares@ =~= kept + gone);
                        assert(start.order.take(done + 1).drop_last() =~= start.order.take(done));
                        assert(start.order.take(done + 1).last() == id);
                        done = done + 1;
                    }
                },
            }
        }
        proof {
            lemma_partly_retired_end(start);
            lemma_shut_down_accounted(start);
        }
        spares
    }

    /// The earliest time at which a database that only waits for its retry may
    /// be served, if there is a slot for the attempt.
    pub fn next_retry_deadline(&self, has_attempt_slot: bool) -> (r: Option<u128>)
        requires
            accounted(self@),
        ensures
            is_next_deadline(self@, has_attempt_slot, r),
    {
        if !has_attempt_slot || self.capacity_used >= self.config.max_total() || self.cancelled {
            return None;
        }
        let target: usize = self.config.per_database() as usize;
        let mut earliest: Option<u128> = None;
        let mut place: usize = 0;
        while place < self.schedule_order.len()
            invariant
                accounted(self@),
                !self@.cancelled,
                target == self@.config.per_database,
                place <= self.schedule_order@.len(),
                match earliest {
                    Some(deadline) => exists|id: u64| #[trigger] waits_for(self@, id, deadline),
                    None => true,
                },
                forall|p: int, other: u128|
                    0 <= p < place && #[trigger] waits_for(self@, self@.order[p], other) ==> (
                    earliest matches Some(deadline) && deadline <= other),
            decreases self.schedule_order@.len() - place,
        {
            let id: u64 = self.schedule_order[place];
            assert(self@.order.contains(id));
            assert(entry_accounted(self@.config, self@.databases[id]));
            if let Some(state) = self.databases.get(&id) {
                if state.idle.len() + state.in_flight < target {
                    if let Some(deadline) = state.retry_at {
                        assert(waits_for(self@, id, deadline));
                        let sooner = match earliest {
                            Some(known) => deadline < known,
                            None => true,
                        };
                        if sooner {
                            earliest = Some(deadline);
                        }
                    }
                }
            }
            place += 1;
        }
        proof {
            assert forall|id: u64, other: u128| #[trigger] waits_for(self@, id, other) implies (
            earliest matches Some(deadline) && deadline <= other) by {
                assert(self@.order.contains(id));
                let p = choose|p: int| 0 <= p < self@.order.len() && self@.order[p] == id;
                assert(waits_for(self@, self@.order[p], other));
            }
        }
        earliest
    }

    /// The databases that take part in warming, the next to be served first.
    pub fn warming_databases(&self) -> (ids: Vec<DatabaseId>)
        ensures
            ids@.len() == self@.order.len(),
            forall|i: int| 0 <= i < ids@.len() ==> (#[trigger] ids@[i]).0 == self@.order[i],
    {
        let mut ids: Vec<DatabaseId> = Vec::new();
        let mut i: usize = 0;
        while i < self.schedule_order.len()
            invariant
                i <= self.schedule_order@.len(),
                ids@.len() == i,
                forall|k: int| 0 <= k < i ==> (#[trigger] ids@[k]).0 == self@.order[k],
            decreases self.schedule_order@.len() - i,
        {
            ids.push(DatabaseId(self.schedule_order[i]));
            i += 1;
        }
        ids
    }

    /// The number of spares of those of the given databases that still take
    /// part in warming.
    pub fn ready_spares(&self, ids: &Vec<DatabaseId>) -> (ready: usize)
        requires
            accounted(self@),
            raw_ids(ids@).no_duplicates(),
        ensures
            ready == ready_spares(self@, raw_ids(ids@)),
    {
        let mut ready: usize = 0;
        let mut i: usize = 0;
        let ghost raw = raw_ids(ids@);
        while i < ids.len()
            invariant
                accounted(self@),
                raw == raw_ids(ids@),
                raw.no_duplicates(),
                i <= ids@.len(),
                ready == ready_spares(self@, raw.take(i as int)),
            decreases ids@.len() - i,
        {
            proof {
                let next = raw.take(i + 1);
                assert(next.drop_last() =~= raw.take(i as int));
                assert(next.last() == ids@[i as int].0);
                assert(next.no_duplicates());
                lemma_ready_spares_bound(self@, next, self@.databases);
            }
            if let Some(state) = self.databases.get(&ids[i].0) {
                if !state.retiring {
                    ready = ready + state.idle.len();
                }
            }
            i += 1;
        }
        assert(raw.take(i as int) =~= raw);
        ready
    }

    /// The configuration of the pool.
    pub fn config(&self) -> (config: &ConnectionWarmConfig)
        ensures
            config@ == self@.config,
    {
        &self.config
    }

    /// The profile of the connections in the pool.
    pub fn profile(&self) -> (profile: &WarmStartupProfile)
        ensures
            profile@ == self@.profile,
    {
        &self.profile
    }

    /// Idle sessions and attempts in flight, over all databases.
    pub fn capacity_used(&self) -> (used: usize)
        ensures
            used == self@.capacity_used,
    {
        self.capacity_used
    }

    /// Whether the pool was shut down.
    pub fn is_cancelled(&self) -> (cancelled: bool)
        ensures
            cancelled == self@.cancelled,
    {
        self.cancelled
    }

    /// The number of databases that the pool knows, retired ones among them.
    pub fn database_count(&self) -> (count: usize)
        ensures
            count == self@.databases.dom().len(),
    {
        proof {
            assert(self@.databases.dom() =~= self.databases@.dom());
        }
        self.databases.len()
    }

    /// What the pool knows of a database.
    pub fn database(&self, database_id: DatabaseId) -> (r: Option<DatabaseSummary>)
        ensures
            match r {
                Some(summary) => {
                    &&& self@.databases.dom().contains(database_id.0)
                    &&& ({
                        let entry = self@.databases[database_id.0];
                        &&& summary.name@ == entry.name
                        &&& summary.idle == entry.idle.len()
                        &&& summary.in_flight == entry.in_flight
                        &&& summary.retry_at == entry.retry_at
                        &&& summary.retiring == entry.retiring
                    })
                },
                None => !self@.databases.dom().contains(database_id.0),
            },
    {
        match self.databases.get(&database_id.0) {
            Some(state) => Some(
                DatabaseSummary {
                    name: state.database_name.clone(),
                    idle: state.idle.len(),
                    in_flight: state.in_flight,
                    retry_at: state.retry_at,
                    retiring: state.retiring,
                },
            ),
            None => None,
        }
    }
}

/// What the pool knows of a database, in numbers.
#[derive(Debug, PartialEq, Eq)]
pub struct DatabaseSummary {
    pub name: String,
    pub idle: usize,
    pub in_flight: usize,
    pub retry_at: Option<u128>,
    pub retiring: bool,
}

/// The numbers of these databases.
pub open spec fn raw_ids(ids: Seq<DatabaseId>) -> Seq<u64> {
    ids.map_values(|id: DatabaseId| id.0)
}

/// `session` is the spare of `id` at place `index`.
pub open spec fn is_spare<S>(pool: WarmPoolView<S>, id: u64, index: int, session: S) -> bool {
    &&& pool.databases.dom().contains(id)
    &&& 0 <= index < pool.databases[id].idle.len()
    &&& session == pool.databases[id].idle[index]
}

/// The databases of `pool` with the first `done` of the order retired.
spec fn partly_retired<S>(pool: WarmPoolView<S>, done: int) -> Map<u64, WarmEntryView<S>> {
    Map::new(
        |id: u64| pool.databases.dom().contains(id),
        |id: u64|
            if pool.order.skip(done).contains(id) {
                pool.databases[id]
            } else {
                retired_entry(pool.databases[id])
            },
    )
}

proof fn lemma_partly_retired_start<S>(pool: WarmPoolView<S>)
    requires
        accounted(pool),
    ensures
        partly_retired(pool, 0) == pool.databases,
{
    assert(pool.order.skip(0) =~= pool.order);
    assert forall|id: u64| #[trigger]
        pool.databases.dom().contains(id) implies partly_retired(pool, 0)[id]
        == pool.databases[id] by {
        assert(entry_accounted(pool.config, pool.databases[id]));
        if !pool.order.contains(id) {
            assert(pool.databases[id].idle =~= Seq::empty());
            assert(retired_entry(pool.databases[id]) == pool.databases[id]);
        }
    }
    assert(partly_retired(pool, 0) =~= pool.databases);
}

proof fn lemma_partly_retired_step<S>(pool: WarmPoolView<S>, done: int)
    requires
        accounted(pool),
        0 <= done < pool.order.len(),
    ensures
        ({
            let id = pool.order[done];
            let before = partly_retired(pool, done);
            let entry = pool.databases[id];
            &&& before.dom().contains(id)
            &&& before[id] == entry
            &&& entry.idle.len() <= total(before)
            &&& partly_retired(pool, done + 1) == before.insert(id, retired_entry(entry))
            &&& total(partly_retired(pool, done + 1)) == total(before) - entry.idle.len()
        }),
{
    let id = pool.order[done];
    let before = partly_retired(pool, done);
    let after = partly_retired(pool, done + 1);
    let rest = pool.order.skip(done);
    let next = pool.order.skip(done + 1);
    assert(pool.order.contains(id));
    assert(rest[0] == id);
    assert(rest.contains(id));
    assert forall|other: u64| #[trigger] rest.contains(other) <==> next.contains(other) || other
        == id by {
        if rest.contains(other) && other != id {
            let k = choose|k: int| 0 <= k < rest.len() && rest[k] == other;
            assert(next[k - 1] == other);
        }
        if next.contains(other) {
            let k = choose|k: int| 0 <= k < next.len() && next[k] == other;
            assert(rest[k + 1] == other);
        }
    }
    assert(!next.contains(id)) by {
        if next.contains(id) {
            let k = choose|k: int| 0 <= k < next.len() && next[k] == id;
            assert(pool.order[done + 1 + k] == pool.order[done]);
        }
    }
    assert(before.dom() =~= pool.databases.dom());
    assert(after =~= before.insert(id, retired_entry(pool.databases[id])));
    lemma_total_insert(before, id, retired_entry(pool.databases[id]));
    lemma_total_remove(before, id);
}

proof fn lemma_partly_retired_end<S>(pool: WarmPoolView<S>)
    requires
        accounted(pool),
    ensures
        partly_retired(pool, pool.order.len() as int) == all_retired(pool.databases),
{
    assert(pool.order.skip(pool.order.len() as int) =~= Seq::empty());
    assert(partly_retired(pool, pool.order.len() as int) =~= all_retired(pool.databases));
}

/// Retiring databases does not add to what they occupy.
proof fn lemma_all_retired_total<S>(databases: Map<u64, WarmEntryView<S>>)
    requires
        databases.dom().finite(),
    ensures
        total(all_retired(databases)) <= total(databases),
    decreases databases.dom().len(),
{
    let after = all_retired(databases);
    assert(after.dom() =~= databases.dom());
    if databases.dom().len() > 0 {
        let id = databases.dom().choose();
        lemma_all_retired_total(databases.remove(id));
        assert(all_retired(databases.remove(id)) =~= after.remove(id));
        lemma_total_remove(databases, id);
        lemma_total_remove(after, id);
    } else {
        assert(after.dom().len() == 0);
    }
}

pub(crate) proof fn lemma_shut_down_accounted<S>(pool: WarmPoolView<S>)
    requires
        accounted(pool),
    ensures
        accounted(shut_down(pool)),
{
    let after = shut_down(pool);
    lemma_all_retired_total(pool.databases);
    assert(after.databases.dom() =~= pool.databases.dom());
    assert forall|id: u64| #[trigger]
        after.databases.dom().contains(id) implies entry_accounted(
        after.config,
        after.databases[id],
    ) by {
        assert(entry_accounted(pool.config, pool.databases[id]));
    }
}

} // verus!
