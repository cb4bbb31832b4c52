//! One attempt to establish a spare connection.
use vstd::prelude::*;

use crate::connection_warm::pool;
use crate::connection_warm::pool::{ConnectionWarmPool, WarmReservation};
use crate::postgres_upstream::{UpstreamError, UpstreamSession};

verus! {

/// The longest time that an attempt may take, from opening its socket to the
/// end of its handshake.
pub const WARM_ATTEMPT_TIMEOUT_MS: u64 = 5_000;

/// Why an attempt did not yield a spare connection.
#[derive(Debug)]
pub enum WarmAttemptError {
    Cancelled,
    TimedOut,
    ConcurrencyClosed,
    Upstream(UpstreamError),
}

impl From<UpstreamError> for WarmAttemptError {
    fn from(error: UpstreamError) -> (r: WarmAttemptError)
        ensures
            r == WarmAttemptError::Upstream(error),
    {
        WarmAttemptError::Upstream(error)
    }
}

impl vstd::std_specs::convert::FromSpecImpl<UpstreamError> for WarmAttemptError {
    open spec fn obeys_from_spec() -> bool {
        true
    }

    open spec fn from_spec(error: UpstreamError) -> WarmAttemptError {
        WarmAttemptError::Upstream(error)
    }
}

impl WarmAttemptError {
    /// The text of the error; an upstream error speaks for itself.
    pub fn message(&self) -> (message: Option<&'static str>)
        ensures
            match self {
                WarmAttemptError::Cancelled => message is Some && message.unwrap()@
                    == "warm connection attempt cancelled"@,
                WarmAttemptError::TimedOut => message is Some && message.unwrap()@
                    == "warm connection timed out"@,
                WarmAttemptError::ConcurrencyClosed => message is Some && message.unwrap()@
                    == "warm connection concurrency limiter closed"@,
                WarmAttemptError::Upstream(_) => message is None,
            },
    {
        match self {
            WarmAttemptError::Cancelled => Some("warm connection attempt cancelled"),
            WarmAttemptError::TimedOut => Some("warm connection timed out"),
            WarmAttemptError::ConcurrencyClosed => Some(
                "warm connection concurrency limiter closed",
            ),
            WarmAttemptError::Upstream(_) => None,
        }
    }
}

/// Failures of the server or of the network count against a database; giving
/// up does not.
pub open spec fn counts_as_failure(error: WarmAttemptError) -> bool {
    error is TimedOut || error is Upstream
}

impl WarmAttemptError {
    /// Whether the database is tried again only after a delay, of which the log
    /// is told.
    pub fn is_failure(&self) -> (failure: bool)
        ensures
            failure == counts_as_failure(*self),
    {
        match self {
            WarmAttemptError::TimedOut | WarmAttemptError::Upstream(_) => true,
            WarmAttemptError::Cancelled | WarmAttemptError::ConcurrencyClosed => false,
        }
    }
}

/// What ends the wait for a permit to connect.
#[derive(Debug, Clone, Copy, PartialEq, Eq, Structural)]
pub enum PermitEvent {
    /// The database was retired, or the pool or the caller gave up.
    Cancelled,
    /// No more permits are given.
    Closed,
    Acquired,
}

/// What the end of the wait for a permit means.
pub open spec fn permit_outcome(event: PermitEvent) -> Result<(), WarmAttemptError> {
    match event {
        PermitEvent::Cancelled => Err(WarmAttemptError::Cancelled),
        PermitEvent::Closed => Err(WarmAttemptError::ConcurrencyClosed),
        PermitEvent::Acquired => Ok(()),
    }
}

/// Whether the attempt may connect.
pub fn acquire_permit(event: PermitEvent) -> (r: Result<(), WarmAttemptError>)
    ensures
        r == permit_outcome(event),
{
    match event {
        PermitEvent::Cancelled => Err(WarmAttemptError::Cancelled),
        PermitEvent::Closed => Err(WarmAttemptError::ConcurrencyClosed),
        PermitEvent::Acquired => Ok(()),
    }
}

/// What ends an attempt to connect.
pub enum ConnectEvent<T> {
    /// The database was retired, or the pool or the caller gave up.
    Cancelled,
    /// The longest time is over.
    TimedOut,
    /// The handshake is done.
    Finished(Result<UpstreamSession<T>, UpstreamError>),
}

/// What the end of an attempt to connect means.
pub open spec fn connect_outcome<T>(event: ConnectEvent<T>) -> Result<
    UpstreamSession<T>,
    WarmAttemptError,
> {
    match event {
        ConnectEvent::Cancelled => Err(WarmAttemptError::Cancelled),
        ConnectEvent::TimedOut => Err(WarmAttemptError::TimedOut),
        ConnectEvent::Finished(Err(error)) => Err(WarmAttemptError::Upstream(error)),
        ConnectEvent::Finished(Ok(session)) => if session.session_burst.ready {
            Ok(session)
        } else {
            Err(WarmAttemptError::Upstream(UpstreamError::StartupRejected))
        },
    }
}

/// The session of an attempt. A session that the server ended with an error
/// would be of no use to a client, so it is no spare.
pub fn connect_warm_session<T>(event: ConnectEvent<T>) -> (r: Result<
    UpstreamSession<T>,
    WarmAttemptError,
>)
    ensures
        r == connect_outcome(event),
{
    match event {
        ConnectEvent::Cancelled => Err(WarmAttemptError::Cancelled),
        ConnectEvent::TimedOut => Err(WarmAttemptError::TimedOut),
        ConnectEvent::Finished(Err(error)) => Err(WarmAttemptError::from(error)),
        ConnectEvent::Finished(Ok(session)) => {
            if session.session_burst.ready {
                Ok(session)
            } else {
                Err(WarmAttemptError::Upstream(UpstreamError::StartupRejected))
            }
        },
    }
}

/// How an attempt was settled.
pub struct Settlement<S> {
    /// Whether its session became a spare, or why there was none.
    pub result: Result<bool, WarmAttemptError>,
    /// A session that did not become a spare, to be closed.
    pub rejected: Option<S>,
}

/// The state after an attempt for `id` has ended with `error` at `now`.
pub open spec fn attempt_failed<S>(
    state: pool::WarmPoolView<S>,
    id: u64,
    error: WarmAttemptError,
    now: u64,
) -> pool::WarmPoolView<S> {
    if counts_as_failure(error) && pool::accepts(state, id) {
        pool::released(pool::failed(state, id, now), id)
    } else {
        pool::released(state, id)
    }
}

/// The state after an attempt for `id` has ended with `result` at `now`, where
/// `cancelled` tells whether anyone gave up on it while it succeeded.
pub open spec fn attempt_settled<S>(
    state: pool::WarmPoolView<S>,
    id: u64,
    result: Result<S, WarmAttemptError>,
    cancelled: bool,
    now: u64,
) -> pool::WarmPoolView<S> {
    match result {
        Err(error) => attempt_failed(state, id, error, now),
        Ok(session) => if !cancelled && pool::accepts(state, id) {
            pool::published(state, id, session)
        } else {
            pool::released(state, id)
        },
    }
}

/// `reply` and `rejected` are what the settling of an attempt for `id` comes to.
pub open spec fn is_settlement<S>(
    state: pool::WarmPoolView<S>,
    id: u64,
    result: Result<S, WarmAttemptError>,
    cancelled: bool,
    reply: Result<bool, WarmAttemptError>,
    rejected: Option<S>,
) -> bool {
    match result {
        Err(error) => reply == Err::<bool, WarmAttemptError>(error) && rejected is None,
        Ok(session) => if cancelled {
            reply == Err::<bool, WarmAttemptError>(WarmAttemptError::Cancelled) && rejected == Some(
                session,
            )
        } else if pool::accepts(state, id) {
            reply == Ok::<bool, WarmAttemptError>(true) && rejected is None
        } else {
            reply == Ok::<bool, WarmAttemptError>(false) && rejected == Some(session)
        },
    }
}

impl<S> ConnectionWarmPool<S> {
    /// Settle the reservation of an attempt that has ended at the time `now`. A
    /// failure is recorded before the slot is free again. `cancelled` tells
    /// whether anyone gave up on the attempt while it succeeded.
    pub fn settle_attempt(
        &mut self,
        reservation: &mut WarmReservation,
        result: Result<S, WarmAttemptError>,
        cancelled: bool,
        now: u64,
    ) -> (r: Settlement<S>)
        requires
            pool::accounted(old(self)@),
            old(reservation)@.active,
            pool::holds_slot(old(self)@, old(reservation)@),
        ensures
            pool::accounted(final(self)@),
            final(reservation)@ == pool::settled(old(reservation)@),
            final(self)@ == attempt_settled(
                old(self)@,
                old(reservation)@.database_id,
                result,
                cancelled,
                now,
            ),
            is_settlement(
                old(self)@,
                old(reservation)@.database_id,
                result,
                cancelled,
                r.result,
                r.rejected,
            ),
    {
        match result {
            Err(error) => {
                if error.is_failure() {
                    self.record_failure(reservation, now);
                }
                self.release(reservation);
                Settlement { result: Err(error), rejected: None }
            },
            Ok(session) => {
                if cancelled {
                    self.release(reservation);
                    return Settlement {
                        result: Err(WarmAttemptError::Cancelled),
                        rejected: Some(session),
                    };
                }
                match self.publish(reservation, session) {
                    Ok(()) => Settlement { result: Ok(true), rejected: None },
                    Err(back) => Settlement { result: Ok(false), rejected: Some(back) },
                }
            },
        }
    }
}

/// Every attempt gives up its slot when it ends: it becomes a spare or it is
/// gone.
pub proof fn lemma_ended_attempt_leaves_flight<S>(
    state: pool::WarmPoolView<S>,
    id: u64,
    session: S,
    error: WarmAttemptError,
    now: u64,
)
    requires
        pool::accounted(state),
        state.databases.dom().contains(id),
        state.databases[id].in_flight > 0,
    ensures
        attempt_failed(state, id, error, now).databases[id].in_flight
            == state.databases[id].in_flight - 1,
        attempt_failed(state, id, error, now).capacity_used == state.capacity_used - 1,
        attempt_failed(state, id, error, now).databases[id].idle == state.databases[id].idle,
        pool::published(state, id, session).databases[id].in_flight
            == state.databases[id].in_flight - 1,
        pool::published(state, id, session).databases[id].idle == state.databases[id].idle.push(
            session,
        ),
{
    pool::lemma_total_remove(state.databases, id);
}

} // verus!
