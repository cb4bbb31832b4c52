//! What routing and sessions owe to their clients.
use vstd::prelude::*;
use vstd::utf8::*;

use crate::buffer::RawBytes;
use crate::connection;
use crate::connection::{
    AttachError, AttachedLease, ConnectionFieldError, Route, Session, SessionAction, SessionEvent,
    SessionPhase, SessionView,
};
use crate::lease;
use crate::lease::{InvalidLeaseId, LeaseId};
use crate::params::StartupParams;
use crate::postgres_upstream::UpstreamSession;

verus! {

/// Every text may name a lease that is not empty, takes at most 256 bytes, and
/// holds neither a slash nor a null character; no other text may.
pub proof fn lemma_lease_names(text: Seq<char>)
    ensures
        lease::valid_lease(text) <==> {
            &&& 1 <= text.len()
            &&& encode_utf8(text).len() <= 256
            &&& forall|i: int| 0 <= i < text.len() ==> text[i] != '/' && text[i] != '\0'
        },
{
    assert forall|i: int| lease::valid_lease(text) && 0 <= i < text.len() implies text[i] != '/'
        && text[i] != '\0' by {
        if text[i] == '/' {
            assert(text.contains('/'));
        }
        if text[i] == '\0' {
            assert(text.contains('\0'));
        }
    }
}

/// A template and a lease that are joined by a slash are told apart again, for
/// every template that is not empty and holds no slash and every rest that holds
/// none. Nothing else names a session.
pub proof fn lemma_field_round_trip(template: Seq<char>, rest: Seq<char>)
    ensures
        connection::is_field(template + seq!['/'] + rest, template, rest) <==> {
            &&& template.len() > 0
            &&& forall|i: int| 0 <= i < template.len() ==> template[i] != '/'
            &&& forall|i: int| 0 <= i < rest.len() ==> rest[i] != '/'
        },
        template.len() > 0 && (forall|i: int| 0 <= i < template.len() ==> template[i] != '/')
            && lease::valid_lease(rest) ==> connection::names_session(
            template + seq!['/'] + rest,
        ),
{
    let text = template + seq!['/'] + rest;
    if connection::is_field(text, template, rest) {
        assert forall|i: int| 0 <= i < template.len() implies template[i] != '/' by {
            if template[i] == '/' {
                assert(template.contains('/'));
            }
        }
        assert forall|i: int| 0 <= i < rest.len() implies rest[i] != '/' by {
            if rest[i] == '/' {
                assert(rest.contains('/'));
            }
        }
    }
    if lease::valid_lease(rest) {
        lemma_lease_names(rest);
    }
    if template.len() > 0 && (forall|i: int| 0 <= i < template.len() ==> template[i] != '/')
        && lease::valid_lease(rest) {
        assert(connection::is_field(text, template, rest));
    }
}

/// A field is its template, one slash and its rest, and holds no other slash.
pub proof fn lemma_field_holds_one_slash(text: Seq<char>, template: Seq<char>, rest: Seq<char>)
    requires
        connection::is_field(text, template, rest),
    ensures
        text.len() == template.len() + 1 + rest.len(),
        template.len() > 0,
        text.take(template.len() as int) == template,
        text.skip((template.len() + 1) as int) == rest,
        forall|i: int| 0 <= i < text.len() ==> (text[i] == '/' <==> i == template.len()),
{
    assert(text.take(template.len() as int) =~= template);
    assert(text.skip((template.len() + 1) as int) =~= rest);
    assert forall|i: int| 0 <= i < text.len() implies (text[i] == '/' <==> i == template.len()) by {
        if i < template.len() {
            assert(text[i] == template[i]);
            if text[i] == '/' {
                assert(template.contains('/'));
            }
        } else if i > template.len() {
            assert(text[i] == rest[i - template.len() - 1]);
            if text[i] == '/' {
                assert(rest.contains('/'));
            }
        }
    }
}

/// A client is sent where its `replication` and `database` parameters say, and
/// its other parameters do not matter: whoever asks for replication is told that
/// there is none; whoever names no database, that one is required; the database
/// `pgtest` is the control panel, and every other one a session.
pub proof fn lemma_routing(params: StartupParams, route: Route)
    requires
        call_ensures(connection::route_startup, (&params,), route),
    ensures
        route is ControlPanel <==> !params@.dom().contains("replication"@)
            && params@.dom().contains("database"@) && params@["database"@] == "pgtest"@,
        route is Session <==> !params@.dom().contains("replication"@) && params@.dom().contains(
            "database"@,
        ) && params@["database"@] != "pgtest"@,
        route is Session ==> route->database@ == params@["database"@],
        route is Reject ==> route->Reject_0.code@ == (if params@.dom().contains("replication"@) {
            "0A000"@
        } else {
            "3D000"@
        }),
        route is Reject ==> route->Reject_0.message@ == (if params@.dom().contains(
            "replication"@,
        ) {
            "replication connections are not supported"@
        } else {
            "database is required in the connection URI"@
        }),
{
}

/// The SQLSTATE of a refused attachment.
pub proof fn lemma_attach_codes(error: AttachError, code: &'static str)
    requires
        call_ensures(AttachError::code, (error,), code),
    ensures
        code@ == (match error {
            AttachError::InvalidLeaseId => "22023"@,
            AttachError::LeaseRecordLimitReached => "53400"@,
            AttachError::LeaseClosed => "55000"@,
            AttachError::TemplateMismatch => "3D000"@,
            AttachError::Unavailable => "08006"@,
        }),
        connection::attach_code(error) == code@,
{
}

/// `action` tells the client this code and this message.
pub open spec fn tells<T>(action: SessionAction<T>, code: Seq<char>, message: Seq<char>) -> bool {
    action is Reject && action->Reject_0.code@ == code && action->Reject_0.message@ == message
}

/// A client whose session ends before its responses are forwarded is told why;
/// a client that cannot be reached, or whose responses are under way, is not. A
/// session ends exactly when the client is rejected or its connection closed.
pub proof fn lemma_session_endings<T>(
    session: Session,
    event: SessionEvent<T>,
    r: (Session, SessionAction<T>),
)
    requires
        call_ensures(Session::step::<T>, (session, event), r),
    ensures
        r.0@.phase == SessionPhase::Ended <==> (r.1
            is Reject || r.1 is Close),
        event is Greeted && !connection::names_session(session@.params["database"@]) ==> tells(
            r.1,
            "22023"@,
            "expected template/lease-id with a valid lease ID"@,
        ),
        event is AttachRefused ==> tells(
            r.1,
            connection::attach_code(event->error),
            event->message@,
        ),
        event is Attached && event->closed ==> tells(
            r.1,
            "55000"@,
            "lease was closed during connection startup"@,
        ),
        event is LeaseClosed && session@.phase == SessionPhase::Connecting ==> tells(
            r.1,
            "55000"@,
            "lease was closed during connection startup"@,
        ),
        event is ConnectFailed ==> tells(r.1, "08006"@, "unable to connect to PostgreSQL"@),
        event is NegotiationFailed || event is GreetingFailed || event is ForwardFailed || event
            is RelayEnded ==> r.1 is Close,
        event is LeaseClosed && session@.phase != SessionPhase::Connecting ==> r.1 is Close,
{
}

/// A client with a valid template and lease gets to its database: once it is
/// greeted, its lease attached and open, and a spare found, or a connection
/// opened where there is none, its session runs. No step on this way can be
/// refused.
pub proof fn lemma_session_gets_to_run<T>(
    start: SessionView,
    template: Seq<char>,
    name: Seq<char>,
    attached: AttachedLease,
    session: UpstreamSession<T>,
    stream: T,
)
    requires
        connection::is_new(start),
        template.len() > 0,
        forall|i: int| 0 <= i < template.len() ==> template[i] != '/',
        lease::valid_lease(name),
        start.params["database"@] == template + seq!['/'] + name,
    ensures
        ({
            let negotiated = connection::next_session(start, SessionEvent::<T>::Negotiated);
            let greeted = connection::next_session(
                negotiated->Some_0,
                SessionEvent::<T>::Greeted,
            );
            let open = connection::next_session(
                greeted->Some_0,
                SessionEvent::<T>::Attached { lease: attached, closed: false },
            );
            let warm = connection::next_session(
                open->Some_0,
                SessionEvent::SpareFound { session },
            );
            let missed = connection::next_session(open->Some_0, SessionEvent::<T>::NoSpare);
            let cold = connection::next_session(
                missed->Some_0,
                SessionEvent::Connected { session },
            );
            let warm_run = connection::next_session(
                warm->Some_0,
                SessionEvent::Forwarded { stream },
            );
            let cold_run = connection::next_session(
                cold->Some_0,
                SessionEvent::Forwarded { stream },
            );
            &&& negotiated is Some && greeted is Some && open is Some
            &&& warm is Some && missed is Some && cold is Some
            &&& warm_run is Some && warm_run->Some_0.phase == SessionPhase::Running
            &&& cold_run is Some && cold_run->Some_0.phase == SessionPhase::Running
        }),
{
    lemma_field_round_trip(template, name);
}

/// The lease that is asked for is the one that the client named, and the
/// template the one before the slash.
pub proof fn lemma_named_lease_is_attached<T>(
    session: Session,
    template: Seq<char>,
    name: Seq<char>,
    r: (Session, SessionAction<T>),
)
    requires
        session@.phase == SessionPhase::Greeting,
        template.len() > 0,
        forall|i: int| 0 <= i < template.len() ==> template[i] != '/',
        lease::valid_lease(name),
        session@.params["database"@] == template + seq!['/'] + name,
        call_ensures(Session::step::<T>, (session, SessionEvent::<T>::Greeted), r),
    ensures
        r.0@.phase == SessionPhase::Attaching,
        r.1 is Attach,
        r.1->template@ == template,
        r.1->lease_id@ == name,
{
    lemma_field_round_trip(template, name);
    lemma_lease_names(name);
    connection::lemma_field_unambiguous(
        template + seq!['/'] + name,
        template,
        name,
        r.1->template@,
        r.1->lease_id@,
    );
}

/// What a session asks for comes from its client, its lease and its upstream and
/// from nowhere else: the greeting; a spare of the leased database for the
/// client's parameters; a connection to the leased database for the same
/// parameters at the upstream's address; the pending bytes for the upstream and
/// the burst for the client; the socket for the relay.
pub proof fn lemma_session_requests<T>(
    session: Session,
    event: SessionEvent<T>,
    r: (Session, SessionAction<T>),
)
    requires
        call_ensures(Session::step::<T>, (session, event), r),
    ensures
        event is Negotiated ==> r.1 is SendAuthenticationOk,
        event is Attached && !event->closed ==> {
            &&& r.1 is CheckOut
            &&& r.1->CheckOut_database_id.0 == event->lease.database_id.0
            &&& r.1->CheckOut_client_params@ == session@.params
        },
        event is NoSpare ==> {
            &&& r.1 is Connect
            &&& session@.lease is Some
            &&& r.1->database_name@ == session@.lease->Some_0.name
            &&& r.1->Connect_client_params@ == session@.params
            &&& r.1->host@ == session@.host
            &&& r.1->port == session@.port
        },
        event is SpareFound ==> {
            &&& r.1 is Forward
            &&& r.1->Forward_stream == event->SpareFound_session.stream
            &&& r.1->to_upstream@ == session@.pending
            &&& r.1->to_client@ == event->SpareFound_session.session_burst.bytes@
        },
        event is Connected ==> {
            &&& r.1 is Forward
            &&& r.1->Forward_stream == event->Connected_session.stream
            &&& r.1->to_upstream@ == session@.pending
            &&& r.1->to_client@ == event->Connected_session.session_burst.bytes@
        },
        event is Forwarded ==> {
            &&& r.1 is Relay
            &&& r.1->Relay_stream == event->stream
        },
{
}

/// A session keeps its client and its upstream, keeps its lease once it has one,
/// and keeps the pending bytes until it forwards them.
pub proof fn lemma_session_remembers<T>(
    session: Session,
    event: SessionEvent<T>,
    r: (Session, SessionAction<T>),
)
    requires
        call_ensures(Session::step::<T>, (session, event), r),
    ensures
        r.0@.params == session@.params,
        r.0@.host == session@.host,
        r.0@.port == session@.port,
        event is Attached ==> r.0@.lease is Some && r.0@.lease->Some_0.database_id
            == event->lease.database_id.0 && r.0@.lease->Some_0.name == event->lease.database_name@,
        !(event is Attached) ==> r.0@.lease == session@.lease,
        r.0@.phase != SessionPhase::Forwarding ==> r.0@.pending == session@.pending,
        r.0@.phase == SessionPhase::Forwarding ==> r.0@.pending.len() == 0,
{
}

/// What may happen to a session in each of its phases, it can be told, and goes
/// on to the phase that follows.
pub proof fn lemma_session_phases<T>(
    session: Session,
    event: SessionEvent<T>,
    r: (Session, SessionAction<T>),
)
    requires
        match session@.phase {
            SessionPhase::Negotiating => event is Negotiated || event is NegotiationFailed,
            SessionPhase::Greeting => event is Greeted || event is GreetingFailed,
            SessionPhase::Attaching => event is Attached || event is AttachRefused,
            SessionPhase::CheckingOut => session@.lease is Some && (event is SpareFound || event
                is NoSpare),
            SessionPhase::Connecting => event is Connected || event is ConnectFailed || event
                is LeaseClosed,
            SessionPhase::Forwarding => event is Forwarded || event is ForwardFailed || event
                is LeaseClosed,
            SessionPhase::Running => event is RelayEnded || event is LeaseClosed,
            SessionPhase::Ended => false,
        },
    ensures
        call_requires(Session::step::<T>, (session, event)),
        call_ensures(Session::step::<T>, (session, event), r) ==> r.0@.phase == (
        if event is Negotiated {
            SessionPhase::Greeting
        } else if event is Greeted && connection::names_session(session@.params["database"@]) {
            SessionPhase::Attaching
        } else if event is Attached && !event->closed {
            SessionPhase::CheckingOut
        } else if event is NoSpare {
            SessionPhase::Connecting
        } else if event is SpareFound || event is Connected {
            SessionPhase::Forwarding
        } else if event is Forwarded {
            SessionPhase::Running
        } else {
            SessionPhase::Ended
        }),
{
}

/// A template and a lease that are joined by a slash are split again. Whatever
/// is no such text is refused for its form, and whatever may not name a lease
/// for that.
pub proof fn lemma_splitting(
    input: &str,
    template: Seq<char>,
    rest: Seq<char>,
    outcome: Result<(&str, LeaseId), ConnectionFieldError>,
)
    requires
        call_ensures(connection::parse_connection_field, (input,), outcome),
    ensures
        input@ == template + seq!['/'] + rest && template.len() > 0 && (forall|i: int|
            0 <= i < template.len() ==> template[i] != '/') && (forall|i: int|
            0 <= i < rest.len() ==> rest[i] != '/') ==> {
            &&& outcome is Ok <==> lease::valid_lease(rest)
            &&& outcome is Ok ==> outcome->Ok_0.0@ == template && outcome->Ok_0.1@ == rest
            &&& outcome is Err ==> outcome->Err_0 is InvalidLeaseId
        },
        outcome is Ok ==> input@ == outcome->Ok_0.0@ + seq!['/'] + outcome->Ok_0.1@,
        (forall|i: int| 0 <= i < input@.len() ==> input@[i] != '/') ==> outcome is Err
            && outcome->Err_0 is InvalidFormat,
        input@.len() > 0 && input@[0] == '/' ==> outcome is Err && outcome->Err_0 is InvalidFormat,
        (exists|i: int, j: int| 0 <= i < j < input@.len() && input@[i] == '/' && input@[j] == '/')
            ==> outcome is Err && outcome->Err_0 is InvalidFormat,
{
    let text = input@;
    if text == template + seq!['/'] + rest {
        lemma_field_round_trip(template, rest);
    }
    assert forall|one: Seq<char>, tail: Seq<char>| #[trigger]
        connection::is_field(text, one, tail) implies {
        &&& one.len() < text.len()
        &&& text[one.len() as int] == '/'
        &&& text[0] != '/'
        &&& forall|i: int| 0 <= i < text.len() ==> (text[i] == '/' <==> i == one.len())
        &&& connection::is_field(text, template, rest) ==> one == template && tail == rest
    } by {
        lemma_field_holds_one_slash(text, one, tail);
        if connection::is_field(text, template, rest) {
            connection::lemma_field_unambiguous(text, one, tail, template, rest);
        }
    }
}

/// A session begins for every client that names a database, with all that the
/// client sent and nothing done.
pub proof fn lemma_beginnings(
    params: StartupParams,
    host: String,
    port: u16,
    pending: RawBytes,
    r: Option<Session>,
)
    requires
        call_ensures(connection::start_session, (params, host, port, pending), r),
    ensures
        r is Some <==> params@.dom().contains("database"@),
        r is Some ==> {
            let state = r->Some_0@;
            &&& connection::is_new(state)
            &&& state.params == params@
            &&& state.host == host@
            &&& state.port == port
            &&& state.pending == pending@
            &&& state.phase == SessionPhase::Negotiating
            &&& state.lease is None
        },
{
}

/// A text is taken as a lease ID as it is, or refused.
pub proof fn lemma_lease_ids(value: String, r: Result<LeaseId, InvalidLeaseId>)
    requires
        call_ensures(LeaseId::new, (value,), r),
    ensures
        r is Ok <==> {
            &&& 1 <= value@.len()
            &&& encode_utf8(value@).len() <= 256
            &&& forall|i: int| 0 <= i < value@.len() ==> value@[i] != '/' && value@[i] != '\0'
        },
        r is Ok ==> r->Ok_0@ == value@,
{
    lemma_lease_names(value@);
}

} // verus!
