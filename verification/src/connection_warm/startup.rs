//! The optional wait for an initial set of spare connections.
use vstd::prelude::*;

use crate::connection_warm;
use crate::connection_warm::pool;
use crate::connection_warm::pool::{ConnectionWarmPool, DatabaseId};

verus! {

/// Result of the optional initial warm-up. Every outcome permits cold fallback.
#[derive(Debug, Clone, Copy, PartialEq, Eq, Structural)]
pub enum WarmStartupOutcome {
    Disabled,
    BackgroundOnly,
    Ready { connections: usize },
    TimedOut { ready: usize, target: usize },
    Stopped,
}

/// The databases that an initial warm-up waits for. Databases that are created
/// later never extend it.
#[derive(Debug)]
pub struct InitialWarmUp {
    initial: Vec<DatabaseId>,
    target: usize,
}

/// What ends a wait for the pool to change.
#[derive(Debug, Clone, Copy, PartialEq, Eq, Structural)]
pub enum WaitEvent {
    /// The pool was shut down.
    Cancelled,
    /// The longest wait is over.
    Deadline,
    /// The spares of the pool have changed.
    Changed,
}

/// Whether the warm-up is over.
#[derive(Debug, Clone, Copy, PartialEq, Eq, Structural)]
pub enum WarmUpStatus {
    Finished(WarmStartupOutcome),
    Waiting { ready: usize },
}

/// The number of spares to wait for: the target of each database, within the
/// global cap.
pub open spec fn initial_target(config: connection_warm::WarmConfigView, databases: nat) -> int {
    if databases * config.per_database < config.max_total {
        databases * config.per_database
    } else {
        config.max_total as int
    }
}

/// The warm-up never waits for more than the pool may hold, nor for more than
/// the databases may have.
pub proof fn lemma_initial_target_is_reachable(
    config: connection_warm::WarmConfigView,
    databases: nat,
)
    ensures
        0 <= initial_target(config, databases) <= config.max_total,
        initial_target(config, databases) <= databases * config.per_database,
        databases == 0 ==> initial_target(config, databases) == 0,
{
    assert(0 <= databases * config.per_database) by (nonlinear_arith);
}

/// `outcome` is what the beginning of an initial warm-up comes to.
pub open spec fn is_beginning<S>(
    state: pool::WarmPoolView<S>,
    outcome: Result<InitialWarmUp, WarmStartupOutcome>,
) -> bool {
    match outcome {
        Ok(warm_up) => {
            &&& state.config.per_database != 0
            &&& connection_warm::nanoseconds(state.config.startup_wait) != 0
            &&& warm_up.databases() == state.order
            &&& warm_up.databases().no_duplicates()
            &&& warm_up.wanted() == initial_target(state.config, state.order.len())
        },
        Err(WarmStartupOutcome::Disabled) => state.config.per_database == 0,
        Err(WarmStartupOutcome::BackgroundOnly) => {
            &&& state.config.per_database != 0
            &&& connection_warm::nanoseconds(state.config.startup_wait) == 0
        },
        Err(_) => false,
    }
}

/// How far a warm-up has come that waits for `wanted` spares of `ids`.
pub open spec fn warm_up_status<S>(
    state: pool::WarmPoolView<S>,
    ids: Seq<u64>,
    wanted: usize,
) -> WarmUpStatus {
    let ready = pool::ready_spares(state, ids) as usize;
    if state.cancelled {
        WarmUpStatus::Finished(WarmStartupOutcome::Stopped)
    } else if ready >= wanted {
        WarmUpStatus::Finished(WarmStartupOutcome::Ready { connections: ready })
    } else {
        WarmUpStatus::Waiting { ready }
    }
}

/// What the end of a wait means for a warm-up that waits for `wanted` spares and
/// has seen `ready`; none where it goes on.
pub open spec fn wait_outcome(event: WaitEvent, ready: usize, wanted: usize) -> Option<
    WarmStartupOutcome,
> {
    match event {
        WaitEvent::Cancelled => Some(WarmStartupOutcome::Stopped),
        WaitEvent::Deadline => Some(WarmStartupOutcome::TimedOut { ready, target: wanted }),
        WaitEvent::Changed => None,
    }
}

impl InitialWarmUp {
    /// The databases that are waited for.
    pub closed spec fn databases(&self) -> Seq<u64> {
        pool::raw_ids(self.initial@)
    }

    /// The number of spares that are waited for.
    pub closed spec fn wanted(&self) -> usize {
        self.target
    }

    /// Freeze the set of databases to wait for. Without warming, or without a
    /// wait, the outcome is known at once.
    pub fn begin<S>(pool: &ConnectionWarmPool<S>) -> (r: Result<InitialWarmUp, WarmStartupOutcome>)
        requires
            pool::accounted(pool@),
        ensures
            is_beginning(pool@, r),
    {
        if !pool.config().is_enabled() {
            return Err(WarmStartupOutcome::Disabled);
        }
        if pool.config().is_background_only() {
            return Err(WarmStartupOutcome::BackgroundOnly);
        }
        let initial = pool.warming_databases();
        let count: usize = initial.len();
        let per_database: usize = pool.config().per_database() as usize;
        let cap: usize = pool.config().max_total();
        let target: usize = match count.checked_mul(per_database) {
            Some(product) => if product < cap {
                product
            } else {
                cap
            },
            None => cap,
        };
        assert(pool::raw_ids(initial@) =~= pool@.order);
        Ok(InitialWarmUp { initial, target })
    }

    /// Look at the spares of the initial databases.
    pub fn observe<S>(&self, pool: &ConnectionWarmPool<S>) -> (status: WarmUpStatus)
        requires
            pool::accounted(pool@),
            self.databases().no_duplicates(),
        ensures
            status == warm_up_status(pool@, self.databases(), self.wanted()),
    {
        if pool.is_cancelled() {
            return WarmUpStatus::Finished(WarmStartupOutcome::Stopped);
        }
        let ready = pool.ready_spares(&self.initial);
        if ready >= self.target {
            WarmUpStatus::Finished(WarmStartupOutcome::Ready { connections: ready })
        } else {
            WarmUpStatus::Waiting { ready }
        }
    }

    /// What the end of a wait means, `ready` being the spares seen before it.
    /// `None` means to look again.
    pub fn after_wait(&self, event: WaitEvent, ready: usize) -> (r: Option<WarmStartupOutcome>)
        ensures
            r == wait_outcome(event, ready, self.wanted()),
    {
        match event {
            WaitEvent::Cancelled => Some(WarmStartupOutcome::Stopped),
            WaitEvent::Deadline => Some(
                WarmStartupOutcome::TimedOut { ready, target: self.target },
            ),
            WaitEvent::Changed => None,
        }
    }
}

} // verus!
