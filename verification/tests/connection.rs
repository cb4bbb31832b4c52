use bytes::BytesMut;
use pgtest_wire::buffer::RawBytes;
use pgtest_wire::connection::{
    parse_connection_field, route_startup, start_session, AttachError, AttachedLease,
    ConnectionFieldError, Rejection, Route, SessionAction, SessionEvent, SessionPhase,
};
use pgtest_wire::connection_warm::pool::DatabaseId;
use pgtest_wire::lease::LeaseId;
use pgtest_wire::params::StartupParams;
use pgtest_wire::postgres_upstream::{SessionBurst, UpstreamSession};

#[test]
fn connection_connection_field_validates_lease_ids() {
    assert!(matches!(
        parse_connection_field("template"),
        Err(ConnectionFieldError::InvalidFormat)
    ));
    assert!(matches!(
        parse_connection_field("template/"),
        Err(ConnectionFieldError::InvalidLeaseId(_))
    ));
    for input in ["", "template", "/lease", "template/", "template/a/b", "template/a\0b"] {
        assert!(parse_connection_field(input).is_err(), "{input:?}");
    }
    assert!(parse_connection_field(&format!("template/{}", "a".repeat(257))).is_err());
    for value in [" Mixed Case 雪 ".to_owned(), "é".repeat(128)] {
        let input = format!("template/{value}");
        let (database, lease) = parse_connection_field(&input).unwrap();
        assert_eq!(database, "template");
        assert_eq!(lease.as_str(), value);
    }
}

#[test]
fn wire_listener_connection_field_validates_lease_ids() {
    for input in ["", "template", "/lease", "template/", "template/a/b", "template/a\0b"] {
        assert!(parse_connection_field(input).is_err(), "{input:?}");
    }
    assert!(parse_connection_field(&format!("template/{}", "a".repeat(257))).is_err());
    for value in [" Mixed Case 雪 ".to_owned(), "é".repeat(128)] {
        let input = format!("template/{value}");
        let (database, lease) = parse_connection_field(&input).unwrap();
        assert_eq!(database, "template");
        assert_eq!(lease.as_str(), value);
    }
}

#[test]
fn field_errors_tell_format_from_lease() {
    for input in ["", "/", "/lease", "a/b/c", "a//", "//"] {
        assert_eq!(
            parse_connection_field(input).unwrap_err(),
            ConnectionFieldError::InvalidFormat,
            "{input:?}"
        );
    }
    for input in ["雪/", "a/\0"] {
        assert!(
            matches!(
                parse_connection_field(input),
                Err(ConnectionFieldError::InvalidLeaseId(_))
            ),
            "{input:?}"
        );
    }
    assert_eq!(
        ConnectionFieldError::InvalidFormat.message(),
        Some("expected template/lease-id")
    );
    let (template, lease) = parse_connection_field("雪_é/🦀").unwrap();
    assert_eq!((template, lease.as_str()), ("雪_é", "🦀"));
}

#[test]
fn lease_ids_are_bounded_in_bytes() {
    assert!(LeaseId::new("é".repeat(128)).is_ok());
    assert!(LeaseId::new("é".repeat(129)).is_err());
    assert!(LeaseId::new("a".repeat(256)).is_ok());
    assert!(LeaseId::new("a".repeat(257)).is_err());
    assert!(LeaseId::new(String::new()).is_err());
    let id = LeaseId::new(" x ".to_owned()).unwrap();
    assert_eq!(id.clone(), id);
    assert_eq!(id.as_str(), " x ");
}

fn params(pairs: &[(&str, &str)]) -> StartupParams {
    let mut params = StartupParams::new();
    for (name, value) in pairs {
        params.insert((*name).to_owned(), (*value).to_owned());
    }
    params
}

fn rejection(code: &'static str, message: &str) -> Rejection {
    Rejection { code, message: message.to_owned() }
}

#[test]
fn clients_are_routed_by_their_parameters() {
    assert_eq!(
        route_startup(&params(&[("database", "pgtest"), ("replication", "")])),
        Route::Reject(rejection("0A000", "replication connections are not supported"))
    );
    assert_eq!(
        route_startup(&params(&[("user", "postgres")])),
        Route::Reject(rejection("3D000", "database is required in the connection URI"))
    );
    assert_eq!(route_startup(&params(&[("database", "pgtest")])), Route::ControlPanel);
    for database in ["PGTEST", "pgtest/", "template/lease", ""] {
        assert_eq!(
            route_startup(&params(&[("database", database)])),
            Route::Session { database: database.to_owned() }
        );
    }
}

type Event = SessionEvent<u8>;
type Action = SessionAction<u8>;

fn client(database: &str) -> StartupParams {
    params(&[("database", database), ("user", "alice"), ("application_name", "suite")])
}

fn drive(database: &str, events: Vec<Event>) -> (SessionPhase, Vec<Action>) {
    let pending = RawBytes::from(BytesMut::from(b"Q\0\0\0\x0dSELECT 1".as_slice()));
    let mut session =
        start_session(client(database), "upstream.test".to_owned(), 5433, pending).unwrap();
    let mut actions = Vec::new();
    for event in events {
        let (next, action) = session.step(event);
        session = next;
        actions.push(action);
    }
    (session.phase(), actions)
}

fn attached(closed: bool) -> Event {
    let database_name = "physical_7".to_owned();
    SessionEvent::Attached {
        lease: AttachedLease { database_id: DatabaseId(7), database_name },
        closed,
    }
}

fn upstream(stream: u8, burst: &[u8]) -> UpstreamSession<u8> {
    let bytes = RawBytes::from(BytesMut::from(burst));
    UpstreamSession { stream, session_burst: SessionBurst { bytes, ready: true } }
}

fn spare() -> Event {
    SessionEvent::SpareFound { session: upstream(1, b"Z\0\0\0\x05I") }
}

#[test]
fn sessions_need_a_database() {
    let pending = RawBytes::from(BytesMut::new());
    assert!(start_session(params(&[("user", "alice")]), "h".to_owned(), 1, pending).is_none());
}

#[test]
fn warm_sessions_forward_what_was_sent_and_reach_the_relay() {
    let (phase, actions) = drive(
        "template/lease",
        vec![
            SessionEvent::Negotiated,
            SessionEvent::Greeted,
            attached(false),
            spare(),
            SessionEvent::Forwarded { stream: 1 },
        ],
    );
    assert_eq!(phase, SessionPhase::Running);
    assert!(matches!(
        &actions[..],
        [
            SessionAction::SendAuthenticationOk,
            SessionAction::Attach { template, lease_id },
            SessionAction::CheckOut { database_id: DatabaseId(7), client_params },
            SessionAction::Forward { stream: 1, to_upstream, to_client },
            SessionAction::Relay { stream: 1 },
        ] if template == "template"
            && lease_id.as_str() == "lease"
            && *client_params == client("template/lease")
            && to_upstream.bytes() == b"Q\0\0\0\x0dSELECT 1"
            && to_client.bytes() == b"Z\0\0\0\x05I"
    ));
}

#[test]
fn cold_sessions_connect_to_the_leased_database() {
    let (phase, actions) = drive(
        "template/lease",
        vec![
            SessionEvent::Negotiated,
            SessionEvent::Greeted,
            attached(false),
            SessionEvent::NoSpare,
            SessionEvent::Connected { session: upstream(2, b"E\0\0\0\x04") },
            SessionEvent::Forwarded { stream: 2 },
            SessionEvent::RelayEnded,
        ],
    );
    assert_eq!(phase, SessionPhase::Ended);
    assert!(matches!(
        &actions[3..],
        [
            SessionAction::Connect { database_name, client_params, host, port: 5433 },
            SessionAction::Forward { stream: 2, to_upstream, to_client },
            SessionAction::Relay { stream: 2 },
            SessionAction::Close,
        ] if database_name == "physical_7"
            && *client_params == client("template/lease")
            && host == "upstream.test"
            && to_upstream.bytes() == b"Q\0\0\0\x0dSELECT 1"
            && to_client.bytes() == b"E\0\0\0\x04"
    ));
}

#[test]
fn leases_closed_at_attachment_take_no_spare() {
    let (phase, actions) = drive(
        "template/lease",
        vec![SessionEvent::Negotiated, SessionEvent::Greeted, attached(true)],
    );
    assert_eq!(phase, SessionPhase::Ended);
    assert!(matches!(
        &actions[..],
        [
            SessionAction::SendAuthenticationOk,
            SessionAction::Attach { .. },
            SessionAction::Reject(rejection),
        ] if rejection.code == "55000"
            && rejection.message == "lease was closed during connection startup"
    ));
}

fn last_rejection(database: &str, events: Vec<Event>) -> Rejection {
    let (phase, mut actions) = drive(database, events);
    assert_eq!(phase, SessionPhase::Ended);
    match actions.pop().unwrap() {
        SessionAction::Reject(rejection) => rejection,
        other => panic!("{other:?}"),
    }
}

#[test]
fn invalid_databases_are_rejected_after_the_greeting() {
    for database in ["template", "template/", "a/b/c", ""] {
        assert_eq!(
            last_rejection(database, vec![SessionEvent::Negotiated, SessionEvent::Greeted]),
            rejection("22023", "expected template/lease-id with a valid lease ID")
        );
    }
}

#[test]
fn refused_attachments_keep_their_code_and_text() {
    for (error, code) in [
        (AttachError::InvalidLeaseId, "22023"),
        (AttachError::LeaseRecordLimitReached, "53400"),
        (AttachError::LeaseClosed, "55000"),
        (AttachError::TemplateMismatch, "3D000"),
        (AttachError::Unavailable, "08006"),
    ] {
        let refused = SessionEvent::AttachRefused { error, message: "the reason".to_owned() };
        assert_eq!(
            last_rejection(
                "template/lease",
                vec![SessionEvent::Negotiated, SessionEvent::Greeted, refused]
            ),
            rejection(code, "the reason")
        );
    }
}

#[test]
fn closed_leases_are_reported_only_before_forwarding() {
    let before = || vec![SessionEvent::Negotiated, SessionEvent::Greeted, attached(false)];
    let closed = rejection("55000", "lease was closed during connection startup");
    let mut events = before();
    events.push(SessionEvent::NoSpare);
    events.push(SessionEvent::LeaseClosed);
    assert_eq!(last_rejection("template/lease", events), closed);

    for forwarded in [false, true] {
        let mut events = before();
        events.push(spare());
        if forwarded {
            events.push(SessionEvent::Forwarded { stream: 1 });
        }
        events.push(SessionEvent::LeaseClosed);
        let (phase, actions) = drive("template/lease", events);
        assert_eq!(phase, SessionPhase::Ended);
        assert!(matches!(actions.last(), Some(SessionAction::Close)));
    }
}

#[test]
fn failed_steps_end_the_session() {
    let mut events = vec![SessionEvent::Negotiated, SessionEvent::Greeted, attached(false)];
    events.push(SessionEvent::NoSpare);
    events.push(SessionEvent::ConnectFailed);
    assert_eq!(
        last_rejection("template/lease", events),
        rejection("08006", "unable to connect to PostgreSQL")
    );
    for events in [
        vec![SessionEvent::NegotiationFailed],
        vec![SessionEvent::Negotiated, SessionEvent::GreetingFailed],
        vec![
            SessionEvent::Negotiated,
            SessionEvent::Greeted,
            attached(false),
            spare(),
            SessionEvent::ForwardFailed,
        ],
    ] {
        let (phase, actions) = drive("template/lease", events);
        assert_eq!(phase, SessionPhase::Ended);
        assert!(matches!(actions.last(), Some(SessionAction::Close)));
    }
}

#[test]
fn rejections_are_fatal() {
    assert_eq!(rejection("55000", "closed").severity(), "FATAL");
}
