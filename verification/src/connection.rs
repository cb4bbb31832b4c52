//! From a client's first message to a running session.
use bytes::BytesMut;
use vstd::prelude::*;

use crate::buffer::RawBytes;
use crate::connection_warm::pool::DatabaseId;
use crate::lease::{InvalidLeaseId, LeaseId};
use crate::params::StartupParams;
use crate::postgres_upstream::UpstreamSession;
use crate::{lease, text};

pub mod laws;

verus! {

/// The `database` parameter does not name a template and a lease.
#[derive(Debug, Clone, Copy, PartialEq, Eq, Structural)]
pub enum ConnectionFieldError {
    /// There is no nonempty template before a single `/`.
    InvalidFormat,
    /// The part behind the `/` may not name a lease.
    InvalidLeaseId(InvalidLeaseId),
}

impl From<InvalidLeaseId> for ConnectionFieldError {
    fn from(error: InvalidLeaseId) -> (r: ConnectionFieldError)
        ensures
            r == ConnectionFieldError::InvalidLeaseId(error),
    {
        ConnectionFieldError::InvalidLeaseId(error)
    }
}

impl vstd::std_specs::convert::FromSpecImpl<InvalidLeaseId> for ConnectionFieldError {
    open spec fn obeys_from_spec() -> bool {
        true
    }

    open spec fn from_spec(error: InvalidLeaseId) -> ConnectionFieldError {
        ConnectionFieldError::InvalidLeaseId(error)
    }
}

impl ConnectionFieldError {
    /// The text of the error; the lease error speaks for itself.
    pub fn message(&self) -> (message: Option<&'static str>)
        ensures
            match self {
                ConnectionFieldError::InvalidFormat => message is Some && message.unwrap()@
                    == "expected template/lease-id"@,
                ConnectionFieldError::InvalidLeaseId(_) => message is None,
            },
    {
        match self {
            ConnectionFieldError::InvalidFormat => Some("expected template/lease-id"),
            ConnectionFieldError::InvalidLeaseId(_) => None,
        }
    }
}

/// `input` is `template`, a single `/` and `rest`.
pub open spec fn is_field(input: Seq<char>, template: Seq<char>, rest: Seq<char>) -> bool {
    &&& input == template + seq!['/'] + rest
    &&& template.len() > 0
    &&& !template.contains('/')
    &&& !rest.contains('/')
}

/// A `database` parameter can be split in one way only.
pub proof fn lemma_field_unambiguous(
    input: Seq<char>,
    template: Seq<char>,
    rest: Seq<char>,
    other_template: Seq<char>,
    other_rest: Seq<char>,
)
    requires
        is_field(input, template, rest),
        is_field(input, other_template, other_rest),
    ensures
        template == other_template,
        rest == other_rest,
{
    let n = template.len() as int;
    let m = other_template.len() as int;
    assert(input[n] == '/' && input[m] == '/');
    if n < m {
        assert(other_template[n] == '/');
    }
    if m < n {
        assert(template[m] == '/');
    }
    assert(template =~= input.take(n));
    assert(other_template =~= input.take(n));
    assert(rest =~= input.skip(n + 1));
    assert(other_rest =~= input.skip(n + 1));
}

/// `outcome` is what the splitting of a `database` parameter comes to.
pub open spec fn field_outcome(
    input: Seq<char>,
    outcome: Result<(&str, LeaseId), ConnectionFieldError>,
) -> bool {
    match outcome {
        Ok((template, lease_id)) => {
            &&& is_field(input, template@, lease_id@)
            &&& lease::valid_lease(lease_id@)
        },
        Err(ConnectionFieldError::InvalidFormat) => forall|
            template: Seq<char>,
            rest: Seq<char>,
        | !is_field(input, template, rest),
        Err(ConnectionFieldError::InvalidLeaseId(_)) => exists|
            template: Seq<char>,
            rest: Seq<char>,
        | #[trigger] is_field(input, template, rest) && !lease::valid_lease(rest),
    }
}

/// Split the `database` parameter of a client into a template and a lease ID.
pub fn parse_connection_field(input: &str) -> (r: Result<(&str, LeaseId), ConnectionFieldError>)
    ensures
        field_outcome(input@, r),
{
    let chars = text::to_chars(input);
    let mut slash: usize = 0;
    while slash < chars.len() && chars[slash] != '/'
        invariant
            slash <= chars@.len(),
            forall|k: int| 0 <= k < slash ==> #[trigger] chars@[k] != '/',
        decreases chars@.len() - slash,
    {
        slash += 1;
    }
    let mut end: usize = slash;
    if slash < chars.len() {
        end = slash + 1;
        while end < chars.len() && chars[end] != '/'
            invariant
                slash < end <= chars@.len(),
                forall|k: int| slash < k < end ==> #[trigger] chars@[k] != '/',
            decreases chars@.len() - end,
        {
            end += 1;
        }
    }
    if slash == 0 || slash == chars.len() || end < chars.len() {
        proof {
            assert forall|template: Seq<char>, rest: Seq<char>| !is_field(
                input@,
                template,
                rest,
            ) by {
                if is_field(input@, template, rest) {
                    let n = template.len() as int;
                    assert(input@[n] == '/');
                    if slash == chars@.len() {
                        assert(chars@[n] != '/');
                    } else if n < slash {
                        assert(chars@[n] != '/');
                    } else if n > slash {
                        assert(template[slash as int] == '/');
                    } else {
                        assert(rest[end - slash - 1] == '/');
                    }
                }
            }
        }
        return Err(ConnectionFieldError::InvalidFormat);
    }
    let template = input.substring_char(0, slash);
    let rest = text::from_chars(&chars, slash + 1, end);
    assert(is_field(input@, template@, rest@)) by {
        assert(input@ =~= template@ + seq!['/'] + rest@);
        assert forall|k: int| 0 <= k < rest@.len() implies rest@[k] != '/' by {
            assert(rest@[k] == chars@[slash + 1 + k]);
        }
    }
    match LeaseId::new(rest) {
        Ok(lease_id) => Ok((template, lease_id)),
        Err(error) => Err(ConnectionFieldError::from(error)),
    }
}

/// The longest time that a client may take for its startup message.
pub const CLIENT_STARTUP_TIMEOUT_MS: u64 = 60_000;

/// The fatal error that a client is told before its connection is closed.
#[derive(Debug, PartialEq, Eq)]
pub struct Rejection {
    pub code: &'static str,
    pub message: String,
}

impl Rejection {
    /// The severity that the client is told.
    pub fn severity(&self) -> (severity: &'static str)
        ensures
            severity@ == "FATAL"@,
    {
        "FATAL"
    }
}

/// `rejection` has this code and this message.
pub open spec fn is_rejection(rejection: Rejection, code: Seq<char>, message: Seq<char>) -> bool {
    rejection.code@ == code && rejection.message@ == message
}

fn reject(code: &'static str, message: &str) -> (rejection: Rejection)
    ensures
        is_rejection(rejection, code@, message@),
{
    Rejection { code, message: message.to_owned() }
}

/// Where a client goes after its startup message.
#[derive(Debug, PartialEq, Eq)]
pub enum Route {
    /// Nowhere.
    Reject(Rejection),
    /// To the control panel.
    ControlPanel,
    /// To a leased database, named by this `database` parameter.
    Session { database: String },
}

/// A client with these startup parameters goes this way.
pub open spec fn is_route(params: Map<Seq<char>, Seq<char>>, route: Route) -> bool {
    match route {
        Route::Reject(rejection) => if params.dom().contains("replication"@) {
            is_rejection(rejection, "0A000"@, "replication connections are not supported"@)
        } else {
            &&& !params.dom().contains("database"@)
            &&& is_rejection(
                rejection,
                "3D000"@,
                "database is required in the connection URI"@,
            )
        },
        Route::ControlPanel => {
            &&& !params.dom().contains("replication"@)
            &&& params.dom().contains("database"@)
            &&& params["database"@] == "pgtest"@
        },
        Route::Session { database } => {
            &&& !params.dom().contains("replication"@)
            &&& params.dom().contains("database"@)
            &&& params["database"@] == database@
            &&& database@ != "pgtest"@
        },
    }
}

/// Decide where a client goes by its startup parameters.
pub fn route_startup(params: &StartupParams) -> (route: Route)
    ensures
        is_route(params@, route),
{
    if params.contains_key("replication") {
        return Route::Reject(reject("0A000", "replication connections are not supported"));
    }
    match params.get("database") {
        None => Route::Reject(reject("3D000", "database is required in the connection URI")),
        Some(database) => {
            if text::same_text(database.as_str(), "pgtest") {
                Route::ControlPanel
            } else {
                Route::Session { database: database.clone() }
            }
        },
    }
}

/// Why the lease manager refused to attach a client.
#[derive(Debug, Clone, Copy, PartialEq, Eq, Structural)]
pub enum AttachError {
    InvalidLeaseId,
    LeaseRecordLimitReached,
    LeaseClosed,
    TemplateMismatch,
    /// Any other reason.
    Unavailable,
}

/// The SQLSTATE of a refused attachment.
pub open spec fn attach_code(error: AttachError) -> Seq<char> {
    match error {
        AttachError::InvalidLeaseId => "22023"@,
        AttachError::LeaseRecordLimitReached => "53400"@,
        AttachError::LeaseClosed => "55000"@,
        AttachError::TemplateMismatch => "3D000"@,
        AttachError::Unavailable => "08006"@,
    }
}

impl AttachError {
    /// The SQLSTATE that the client is told.
    pub fn code(self) -> (code: &'static str)
        ensures
            code@ == attach_code(self),
    {
        match self {
            AttachError::InvalidLeaseId => "22023",
            AttachError::LeaseRecordLimitReached => "53400",
            AttachError::LeaseClosed => "55000",
            AttachError::TemplateMismatch => "3D000",
            AttachError::Unavailable => "08006",
        }
    }
}

/// How far a session has come.
#[derive(Debug, Clone, Copy, PartialEq, Eq, Structural)]
pub enum SessionPhase {
    /// The protocol version is being agreed on.
    Negotiating,
    /// The client is being told that it is authenticated.
    Greeting,
    /// The lease manager is being asked for the database.
    Attaching,
    /// A spare connection is being looked for.
    CheckingOut,
    /// A fresh connection is being opened.
    Connecting,
    /// The upstream's startup responses are being forwarded.
    Forwarding,
    /// Client and upstream talk to each other.
    Running,
    /// The connection is closed.
    Ended,
}

/// The database that the lease manager assigned to a client.
#[derive(Debug)]
pub struct AttachedLease {
    pub database_id: DatabaseId,
    pub database_name: String,
}

/// What an [`AttachedLease`] says.
pub struct AttachedLeaseView {
    pub database_id: u64,
    pub name: Seq<char>,
}

impl View for AttachedLease {
    type V = AttachedLeaseView;

    open spec fn view(&self) -> AttachedLeaseView {
        AttachedLeaseView { database_id: self.database_id.0, name: self.database_name@ }
    }
}

/// What happens to a session. `T` is the upstream socket.
#[derive(Debug)]
pub enum SessionEvent<T> {
    Negotiated,
    NegotiationFailed,
    Greeted,
    GreetingFailed,
    /// The lease is the client's; `closed` tells whether it was released or has
    /// expired already.
    Attached { lease: AttachedLease, closed: bool },
    AttachRefused { error: AttachError, message: String },
    /// The lease was released or has expired. This wins over any other event.
    LeaseClosed,
    SpareFound { session: UpstreamSession<T> },
    NoSpare,
    Connected { session: UpstreamSession<T> },
    ConnectFailed,
    /// Everything was forwarded; the socket comes back.
    Forwarded { stream: T },
    ForwardFailed,
    RelayEnded,
}

/// What to do next for a session. `T` is the upstream socket.
#[derive(Debug)]
pub enum SessionAction<T> {
    SendAuthenticationOk,
    /// Ask the lease manager for the database of this lease.
    Attach { template: String, lease_id: LeaseId },
    /// Ask the pool for a spare of this database that fits these parameters.
    CheckOut { database_id: DatabaseId, client_params: StartupParams },
    /// Open a connection to this database at this address.
    Connect { database_name: String, client_params: StartupParams, host: String, port: u16 },
    /// Send `to_upstream` to the upstream socket, then `to_client` to the
    /// client.
    Forward { stream: T, to_upstream: RawBytes, to_client: RawBytes },
    /// Let client and upstream talk.
    Relay { stream: T },
    /// Tell the client, then close.
    Reject(Rejection),
    /// Close without another word.
    Close,
}

/// A client's way from its startup message to a running session.
#[derive(Debug)]
pub struct Session {
    params: StartupParams,
    host: String,
    port: u16,
    pending: Option<RawBytes>,
    phase: SessionPhase,
    lease: Option<AttachedLease>,
}

/// What a [`Session`] is about.
pub struct SessionView {
    /// The startup parameters of the client.
    pub params: Map<Seq<char>, Seq<char>>,
    /// Where upstream connections go.
    pub host: Seq<char>,
    pub port: u16,
    /// What the client sent behind its startup message, as long as that was not
    /// handed on.
    pub pending: Seq<u8>,
    pub phase: SessionPhase,
    /// The lease, once it is attached.
    pub lease: Option<AttachedLeaseView>,
}

impl View for Session {
    type V = SessionView;

    closed spec fn view(&self) -> SessionView {
        SessionView {
            params: self.params@,
            host: self.host@,
            port: self.port,
            pending: match self.pending {
                Some(bytes) => bytes@,
                None => Seq::empty(),
            },
            phase: self.phase,
            lease: match self.lease {
                Some(lease) => Some(lease@),
                None => None,
            },
        }
    }
}

/// `text` names a template and a lease.
pub open spec fn names_session(text: Seq<char>) -> bool {
    exists|template: Seq<char>, rest: Seq<char>| #[trigger]
        is_field(text, template, rest) && lease::valid_lease(rest)
}

/// The `database` parameter of the client.
pub open spec fn requested(state: SessionView) -> Seq<char> {
    state.params["database"@]
}

/// `state` in another phase.
pub open spec fn in_phase(state: SessionView, phase: SessionPhase) -> SessionView {
    SessionView { phase, ..state }
}

/// The state that follows `state` on `event`; none where the event cannot
/// happen in that state.
pub open spec fn next_session<T>(state: SessionView, event: SessionEvent<T>) -> Option<
    SessionView,
> {
    match (state.phase, event) {
        (SessionPhase::Negotiating, SessionEvent::Negotiated) => Some(
            in_phase(state, SessionPhase::Greeting),
        ),
        (SessionPhase::Negotiating, SessionEvent::NegotiationFailed) => Some(
            in_phase(state, SessionPhase::Ended),
        ),
        (SessionPhase::Greeting, SessionEvent::Greeted) => Some(
            in_phase(
                state,
                if names_session(requested(state)) {
                    SessionPhase::Attaching
                } else {
                    SessionPhase::Ended
                },
            ),
        ),
        (SessionPhase::Greeting, SessionEvent::GreetingFailed) => Some(
            in_phase(state, SessionPhase::Ended),
        ),
        (SessionPhase::Attaching, SessionEvent::Attached { lease, closed }) => Some(
            SessionView {
                lease: Some(lease@),
                phase: if closed {
                    SessionPhase::Ended
                } else {
                    SessionPhase::CheckingOut
                },
                ..state
            },
        ),
        (SessionPhase::Attaching, SessionEvent::AttachRefused { .. }) => Some(
            in_phase(state, SessionPhase::Ended),
        ),
        (SessionPhase::CheckingOut, SessionEvent::SpareFound { .. }) => Some(
            SessionView { pending: Seq::empty(), phase: SessionPhase::Forwarding, ..state },
        ),
        (SessionPhase::CheckingOut, SessionEvent::NoSpare) => if state.lease is Some {
            Some(in_phase(state, SessionPhase::Connecting))
        } else {
            None
        },
        (SessionPhase::Connecting, SessionEvent::LeaseClosed) => Some(
            in_phase(state, SessionPhase::Ended),
        ),
        (SessionPhase::Connecting, SessionEvent::Connected { .. }) => Some(
            SessionView { pending: Seq::empty(), phase: SessionPhase::Forwarding, ..state },
        ),
        (SessionPhase::Connecting, SessionEvent::ConnectFailed) => Some(
            in_phase(state, SessionPhase::Ended),
        ),
        (SessionPhase::Forwarding, SessionEvent::LeaseClosed) => Some(
            in_phase(state, SessionPhase::Ended),
        ),
        (SessionPhase::Forwarding, SessionEvent::Forwarded { .. }) => Some(
            in_phase(state, SessionPhase::Running),
        ),
        (SessionPhase::Forwarding, SessionEvent::ForwardFailed) => Some(
            in_phase(state, SessionPhase::Ended),
        ),
        (SessionPhase::Running, SessionEvent::LeaseClosed) => Some(
            in_phase(state, SessionPhase::Ended),
        ),
        (SessionPhase::Running, SessionEvent::RelayEnded) => Some(
            in_phase(state, SessionPhase::Ended),
        ),
        _ => None,
    }
}

/// `action` rejects the client with this code and this message.
pub open spec fn is_reject<T>(
    action: SessionAction<T>,
    code: Seq<char>,
    message: Seq<char>,
) -> bool {
    action matches SessionAction::Reject(rejection) && is_rejection(rejection, code, message)
}

/// `action` asks for the database of the lease that `database` names.
pub open spec fn is_attach<T>(action: SessionAction<T>, database: Seq<char>) -> bool {
    action matches SessionAction::Attach { template, lease_id } && is_field(
        database,
        template@,
        lease_id@,
    ) && lease::valid_lease(lease_id@)
}

/// `action` asks for a spare of the leased database that fits `params`.
pub open spec fn is_checkout<T>(
    action: SessionAction<T>,
    lease: AttachedLeaseView,
    params: Map<Seq<char>, Seq<char>>,
) -> bool {
    action matches SessionAction::CheckOut { database_id, client_params } && database_id.0
        == lease.database_id && client_params@ == params
}

/// `action` opens a connection to the leased database for the client of `state`.
pub open spec fn is_connect<T>(
    action: SessionAction<T>,
    lease: AttachedLeaseView,
    state: SessionView,
) -> bool {
    action matches SessionAction::Connect { database_name, client_params, host, port }
        && database_name@ == lease.name && client_params@ == state.params && host@ == state.host
        && port == state.port
}

/// `action` sends `pending` to the upstream of `session`, and the burst of
/// `session` to the client.
pub open spec fn is_forward<T>(
    action: SessionAction<T>,
    session: UpstreamSession<T>,
    pending: Seq<u8>,
) -> bool {
    action matches SessionAction::Forward { stream, to_upstream, to_client } && stream
        == session.stream && to_upstream@ == pending && to_client@ == session.session_burst.bytes@
}

/// `action` is what `event` calls for in `state`.
pub open spec fn calls_for<T>(
    state: SessionView,
    event: SessionEvent<T>,
    action: SessionAction<T>,
) -> bool {
    match event {
        SessionEvent::Negotiated => action is SendAuthenticationOk,
        SessionEvent::Greeted => if names_session(requested(state)) {
            is_attach(action, requested(state))
        } else {
            is_reject(action, "22023"@, "expected template/lease-id with a valid lease ID"@)
        },
        SessionEvent::Attached { lease, closed } => if closed {
            is_reject(action, "55000"@, "lease was closed during connection startup"@)
        } else {
            is_checkout(action, lease@, state.params)
        },
        SessionEvent::AttachRefused { error, message } => is_reject(
            action,
            attach_code(error),
            message@,
        ),
        SessionEvent::LeaseClosed => if state.phase == SessionPhase::Connecting {
            is_reject(action, "55000"@, "lease was closed during connection startup"@)
        } else {
            action is Close
        },
        SessionEvent::SpareFound { session } => is_forward(action, session, state.pending),
        SessionEvent::NoSpare => state.lease matches Some(lease) && is_connect(
            action,
            lease,
            state,
        ),
        SessionEvent::Connected { session } => is_forward(action, session, state.pending),
        SessionEvent::ConnectFailed => is_reject(
            action,
            "08006"@,
            "unable to connect to PostgreSQL"@,
        ),
        SessionEvent::Forwarded { stream } => action == SessionAction::Relay { stream },
        _ => action is Close,
    }
}

/// `state` is that of a session of which nothing has happened yet.
pub open spec fn is_new(state: SessionView) -> bool {
    state.phase == SessionPhase::Negotiating && state.lease is None
}

/// The state in which the session of such a client begins.
pub open spec fn begun(
    params: Map<Seq<char>, Seq<char>>,
    host: Seq<char>,
    port: u16,
    pending: Seq<u8>,
) -> SessionView {
    SessionView { params, host, port, pending, phase: SessionPhase::Negotiating, lease: None }
}

/// Begin the session of a client with these startup parameters, whose upstream
/// connections go to `host` and `port`. `pending` is what the client sent
/// behind its startup message. Without a `database` parameter there is no
/// session.
pub fn start_session(
    params: StartupParams,
    host: String,
    port: u16,
    pending: RawBytes,
) -> (r: Option<Session>)
    ensures
        match r {
            Some(session) => {
                &&& params@.dom().contains("database"@)
                &&& session@ == begun(params@, host@, port, pending@)
            },
            None => !params@.dom().contains("database"@),
        },
{
    if !params.contains_key("database") {
        return None;
    }
    Some(
        Session {
            params,
            host,
            port,
            pending: Some(pending),
            phase: SessionPhase::Negotiating,
            lease: None,
        },
    )
}

impl Session {
    #[verifier::type_invariant]
    spec fn names_a_database(self) -> bool {
        self.params@.dom().contains("database"@)
    }

    /// How far the session has come.
    pub fn phase(&self) -> (phase: SessionPhase)
        ensures
            phase == self@.phase,
    {
        self.phase
    }

    /// Take the session one step further: decide on its next state and on what
    /// to do.
    pub fn step<T>(self, event: SessionEvent<T>) -> (r: (Session, SessionAction<T>))
        requires
            next_session(self@, event) is Some,
        ensures
            next_session(self@, event) == Some(r.0@),
            calls_for(self@, event, r.1),
    {
        proof {
            use_type_invariant(&self);
        }
        let phase = self.phase;
        match event {
            SessionEvent::Negotiated => (
                self.enter(SessionPhase::Greeting),
                SessionAction::SendAuthenticationOk,
            ),
            SessionEvent::Greeted => self.greet(),
            SessionEvent::Attached { lease, closed } => self.attach(lease, closed),
            SessionEvent::AttachRefused { error, message } => (
                self.enter(SessionPhase::Ended),
                SessionAction::Reject(Rejection { code: error.code(), message }),
            ),
            SessionEvent::LeaseClosed => {
                let action = match phase {
                    SessionPhase::Connecting => SessionAction::Reject(
                        reject("55000", "lease was closed during connection startup"),
                    ),
                    _ => SessionAction::Close,
                };
                (self.enter(SessionPhase::Ended), action)
            },
            SessionEvent::SpareFound { session } => self.forward(session),
            SessionEvent::NoSpare => {
                let action = match &self.lease {
                    Some(lease) => SessionAction::Connect {
                        database_name: lease.database_name.clone(),
                        client_params: self.params.clone(),
                        host: self.host.clone(),
                        port: self.port,
                    },
                    None => SessionAction::Close,
                };
                (self.enter(SessionPhase::Connecting), action)
            },
            SessionEvent::Connected { session } => self.forward(session),
            SessionEvent::ConnectFailed => (
                self.enter(SessionPhase::Ended),
                SessionAction::Reject(reject("08006", "unable to connect to PostgreSQL")),
            ),
            SessionEvent::Forwarded { stream } => (
                self.enter(SessionPhase::Running),
                SessionAction::Relay { stream },
            ),
            SessionEvent::NegotiationFailed | SessionEvent::GreetingFailed
            | SessionEvent::ForwardFailed | SessionEvent::RelayEnded => (
                self.enter(SessionPhase::Ended),
                SessionAction::Close,
            ),
        }
    }

    /// The session in another phase.
    fn enter(self, phase: SessionPhase) -> (session: Session)
        ensures
            session@ == in_phase(self@, phase),
    {
        proof {
            use_type_invariant(&self);
        }
        Session {
            params: self.params,
            host: self.host,
            port: self.port,
            pending: self.pending,
            phase,
            lease: self.lease,
        }
    }

    /// Decide what follows once the client was told that it is authenticated.
    fn greet<T>(self) -> (r: (Session, SessionAction<T>))
        requires
            self@.params.dom().contains("database"@),
        ensures
            if names_session(requested(self@)) {
                &&& r.0@ == in_phase(self@, SessionPhase::Attaching)
                &&& is_attach(r.1, requested(self@))
            } else {
                &&& r.0@ == in_phase(self@, SessionPhase::Ended)
                &&& is_reject(
                    r.1,
                    "22023"@,
                    "expected template/lease-id with a valid lease ID"@,
                )
            },
    {
        let ghost database = requested(self@);
        let parsed = match self.params.get("database") {
            Some(database) => match parse_connection_field(database.as_str()) {
                Ok((template, lease_id)) => {
                    assert(is_field(database@, template@, lease_id@));
                    Some((template.to_owned(), lease_id))
                },
                Err(_) => None,
            },
            None => None,
        };
        match parsed {
            Some((template, lease_id)) => (
                self.enter(SessionPhase::Attaching),
                SessionAction::Attach { template, lease_id },
            ),
            None => {
                proof {
                    if names_session(database) {
                        let (template, rest) = choose|template: Seq<char>, rest: Seq<char>|
                            #[trigger]
                            is_field(database, template, rest) && lease::valid_lease(rest);
                        assert forall|other: Seq<char>, tail: Seq<char>| #[trigger]
                            is_field(database, other, tail) implies lease::valid_lease(tail) by {
                            lemma_field_unambiguous(database, template, rest, other, tail);
                        }
                    }
                }
                (
                    self.enter(SessionPhase::Ended),
                    SessionAction::Reject(
                        reject("22023", "expected template/lease-id with a valid lease ID"),
                    ),
                )
            },
        }
    }

    /// Keep the lease, and look for a spare of its database unless the lease is
    /// closed.
    fn attach<T>(self, lease: AttachedLease, closed: bool) -> (r: (Session, SessionAction<T>))
        ensures
            r.0@ == (SessionView {
                lease: Some(lease@),
                phase: if closed {
                    SessionPhase::Ended
                } else {
                    SessionPhase::CheckingOut
                },
                ..self@
            }),
            if closed {
                is_reject(r.1, "55000"@, "lease was closed during connection startup"@)
            } else {
                is_checkout(r.1, lease@, self@.params)
            },
    {
        proof {
            use_type_invariant(&self);
        }
        let (phase, action) = if closed {
            (
                SessionPhase::Ended,
                SessionAction::Reject(
                    reject("55000", "lease was closed during connection startup"),
                ),
            )
        } else {
            (
                SessionPhase::CheckingOut,
                SessionAction::CheckOut {
                    database_id: lease.database_id,
                    client_params: self.params.clone(),
                },
            )
        };
        let session = Session {
            params: self.params,
            host: self.host,
            port: self.port,
            pending: self.pending,
            phase,
            lease: Some(lease),
        };
        (session, action)
    }

    /// Hand on what the client and the upstream have sent so far.
    fn forward<T>(self, upstream: UpstreamSession<T>) -> (r: (Session, SessionAction<T>))
        ensures
            r.0@ == (SessionView {
                pending: Seq::empty(),
                phase: SessionPhase::Forwarding,
                ..self@
            }),
            is_forward(r.1, upstream, self@.pending),
    {
        proof {
            use_type_invariant(&self);
        }
        let to_upstream = match self.pending {
            Some(bytes) => bytes,
            None => RawBytes::from(BytesMut::with_capacity(0)),
        };
        let session = Session {
            params: self.params,
            host: self.host,
            port: self.port,
            pending: None,
            phase: SessionPhase::Forwarding,
            lease: self.lease,
        };
        let UpstreamSession { stream, session_burst } = upstream;
        (session, SessionAction::Forward { stream, to_upstream, to_client: session_burst.bytes })
    }
}

/// Once responses are being forwarded, the client is never sent an error that
/// could land inside a forwarded message.
pub proof fn lemma_no_error_after_forwarding<T>(
    state: SessionView,
    event: SessionEvent<T>,
    action: SessionAction<T>,
)
    requires
        state.phase == SessionPhase::Forwarding || state.phase == SessionPhase::Running,
        next_session(state, event) is Some,
        calls_for(state, event, action),
    ensures
        !(action is Reject),
{
}

/// A session ends as soon as its lease is closed, whatever it was doing with it.
pub proof fn lemma_closed_lease_ends_the_session<T>(state: SessionView)
    requires
        state.phase == SessionPhase::Connecting || state.phase == SessionPhase::Forwarding
            || state.phase == SessionPhase::Running,
    ensures
        next_session(state, SessionEvent::<T>::LeaseClosed) == Some(
            in_phase(state, SessionPhase::Ended),
        ),
{
}

/// Nothing happens to a session that has ended.
pub proof fn lemma_ended_session_stays_ended<T>(state: SessionView, event: SessionEvent<T>)
    requires
        state.phase == SessionPhase::Ended,
    ensures
        next_session(state, event) is None,
{
}

/// The state of a session that began as `start`, after events that were each
/// answered by the action beside it; none where they cannot happen in this
/// order or call for other actions.
pub open spec fn session_after<T>(
    start: SessionView,
    run: Seq<(SessionEvent<T>, SessionAction<T>)>,
) -> Option<SessionView>
    decreases run.len(),
{
    if run.len() == 0 {
        Some(start)
    } else {
        match session_after(start, run.drop_last()) {
            Some(state) => if calls_for(state, run.last().0, run.last().1) {
                next_session(state, run.last().0)
            } else {
                None
            },
            None => None,
        }
    }
}

/// `action` lets the client talk to the socket that `event` brought back.
pub open spec fn relays<T>(event: SessionEvent<T>, action: SessionAction<T>) -> bool {
    event matches SessionEvent::Forwarded { stream } && action == SessionAction::Relay { stream }
}

/// `run` begins with the greeting of the client and the request for its lease.
pub open spec fn asks_for_lease<T>(
    start: SessionView,
    run: Seq<(SessionEvent<T>, SessionAction<T>)>,
) -> bool {
    &&& run.len() >= 2
    &&& run[0].0 is Negotiated
    &&& run[0].1 is SendAuthenticationOk
    &&& run[1].0 is Greeted
    &&& is_attach(run[1].1, requested(start))
}

/// `run` goes on with `lease`, which is open, and the request for a spare of its
/// database.
pub open spec fn asks_for_spare<T>(
    start: SessionView,
    run: Seq<(SessionEvent<T>, SessionAction<T>)>,
    lease: AttachedLease,
) -> bool {
    &&& asks_for_lease(start, run)
    &&& run.len() >= 3
    &&& run[2].0 == SessionEvent::<T>::Attached { lease, closed: false }
    &&& is_checkout(run[2].1, lease@, start.params)
}

/// `run` goes on without a spare and with the opening of a connection.
pub open spec fn asks_for_connection<T>(
    start: SessionView,
    run: Seq<(SessionEvent<T>, SessionAction<T>)>,
    lease: AttachedLease,
) -> bool {
    &&& asks_for_spare(start, run, lease)
    &&& run.len() >= 4
    &&& run[3].0 is NoSpare
    &&& is_connect(run[3].1, lease@, start)
}

/// `run` comes to forwarding: on a spare of the leased database, or, where there
/// was none, on a connection to it.
pub open spec fn forwards<T>(
    start: SessionView,
    run: Seq<(SessionEvent<T>, SessionAction<T>)>,
    lease: AttachedLease,
    session: UpstreamSession<T>,
) -> bool {
    ||| {
        &&& run.len() == 4
        &&& asks_for_spare(start, run, lease)
        &&& run[3].0 == SessionEvent::SpareFound { session }
        &&& is_forward(run[3].1, session, start.pending)
    }
    ||| {
        &&& run.len() == 5
        &&& asks_for_connection(start, run, lease)
        &&& run[4].0 == SessionEvent::Connected { session }
        &&& is_forward(run[4].1, session, start.pending)
    }
}

/// What a session has done by each of its phases.
proof fn lemma_session_history<T>(
    start: SessionView,
    run: Seq<(SessionEvent<T>, SessionAction<T>)>,
)
    requires
        is_new(start),
    ensures
        match session_after(start, run) {
            None => true,
            Some(state) => {
                &&& state.params == start.params
                &&& state.host == start.host
                &&& state.port == start.port
                &&& match state.phase {
                    SessionPhase::Negotiating => run.len() == 0 && state == start,
                    SessionPhase::Greeting => run.len() == 1 && state.pending == start.pending
                        && run[0].0 is Negotiated && run[0].1 is SendAuthenticationOk,
                    SessionPhase::Attaching => run.len() == 2 && state.pending == start.pending
                        && asks_for_lease(start, run),
                    SessionPhase::CheckingOut => run.len() == 3 && state.pending == start.pending
                        && exists|lease: AttachedLease| #[trigger]
                        asks_for_spare(start, run, lease) && state.lease == Some(lease@),
                    SessionPhase::Connecting => run.len() == 4 && state.pending == start.pending
                        && exists|lease: AttachedLease| #[trigger]
                        asks_for_connection(start, run, lease) && state.lease == Some(lease@),
                    SessionPhase::Forwarding => exists|
                        lease: AttachedLease,
                        session: UpstreamSession<T>,
                    | #[trigger] forwards(start, run, lease, session),
                    _ => true,
                }
            },
        },
    decreases run.len(),
{
    if run.len() > 0 && session_after(start, run) is Some {
        let front = run.drop_last();
        lemma_session_history(start, front);
        let before = session_after(start, front)->Some_0;
        let event = run.last().0;
        match (before.phase, event) {
            (SessionPhase::Attaching, SessionEvent::Attached { lease, closed }) => {
                if !closed {
                    assert(asks_for_spare(start, run, lease));
                }
            },
            (SessionPhase::CheckingOut, SessionEvent::SpareFound { session }) => {
                let lease = choose|lease: AttachedLease| #[trigger]
                    asks_for_spare(start, front, lease) && before.lease == Some(lease@);
                assert(asks_for_spare(start, run, lease));
                assert(forwards(start, run, lease, session));
            },
            (SessionPhase::CheckingOut, SessionEvent::NoSpare) => {
                let lease = choose|lease: AttachedLease| #[trigger]
                    asks_for_spare(start, front, lease) && before.lease == Some(lease@);
                assert(asks_for_spare(start, run, lease));
                assert(asks_for_connection(start, run, lease));
            },
            (SessionPhase::Connecting, SessionEvent::Connected { session }) => {
                let lease = choose|lease: AttachedLease| #[trigger]
                    asks_for_connection(start, front, lease) && before.lease == Some(lease@);
                assert(asks_for_connection(start, run, lease));
                assert(forwards(start, run, lease, session));
            },
            _ => {},
        }
    }
}

/// A running session has done exactly this, in this order: it greeted the
/// client once; asked once for the lease that the `database` parameter names,
/// which was granted and open; asked for a spare of the leased database with the
/// client's parameters; where there was none, opened a connection to that
/// database with the same parameters at the upstream's address; sent to the
/// upstream exactly what the client had sent behind its startup message, and to
/// the client exactly the burst of that upstream.
pub proof fn lemma_running_session_history<T>(
    start: SessionView,
    run: Seq<(SessionEvent<T>, SessionAction<T>)>,
)
    requires
        is_new(start),
        session_after(start, run) matches Some(state) && state.phase == SessionPhase::Running,
    ensures
        run.len() > 0,
        relays(run.last().0, run.last().1),
        exists|lease: AttachedLease, session: UpstreamSession<T>| #[trigger]
            forwards(start, run.drop_last(), lease, session),
{
    lemma_session_history(start, run.drop_last());
}

/// What can happen in a row can happen up to any point of it.
proof fn lemma_session_prefix<T>(
    start: SessionView,
    run: Seq<(SessionEvent<T>, SessionAction<T>)>,
    n: int,
)
    requires
        0 <= n <= run.len(),
        session_after(start, run) is Some,
    ensures
        session_after(start, run.take(n)) is Some,
    decreases run.len(),
{
    if n == run.len() {
        assert(run.take(n) =~= run);
    } else {
        lemma_session_prefix(start, run.drop_last(), n);
        assert(run.drop_last().take(n) =~= run.take(n));
    }
}

/// `event` attaches a lease that is closed already.
pub open spec fn brings_closed_lease<T>(event: SessionEvent<T>) -> bool {
    event matches SessionEvent::Attached { closed, .. } && closed
}

/// A lease that is closed when it is attached costs no spare and no connection:
/// the client is told so, and nothing else happens.
pub proof fn lemma_closed_lease_takes_no_spare<T>(
    start: SessionView,
    run: Seq<(SessionEvent<T>, SessionAction<T>)>,
    i: int,
)
    requires
        is_new(start),
        session_after(start, run) is Some,
        0 <= i < run.len(),
        brings_closed_lease(run[i].0),
    ensures
        run.len() == i + 1,
        is_reject(run[i].1, "55000"@, "lease was closed during connection startup"@),
        forall|j: int|
            0 <= j < run.len() ==> !((#[trigger] run[j]).1 is CheckOut) && !(run[j].1 is Connect)
                && !(run[j].1 is Forward) && !(run[j].1 is Relay),
{
    let before = run.take(i);
    let upto = run.take(i + 1);
    lemma_session_prefix(start, run, i);
    lemma_session_prefix(start, run, i + 1);
    assert(upto.drop_last() =~= before);
    assert(upto.last() == run[i]);
    lemma_session_history(start, before);
    assert(asks_for_lease(start, before));
    assert(before[0] == run[0] && before[1] == run[1]);
    if run.len() > i + 1 {
        let beyond = run.take(i + 2);
        lemma_session_prefix(start, run, i + 2);
        assert(beyond.drop_last() =~= upto);
    }
}

} // verus!
