use pgtest_wire::buffer::RawBytes;
use pgtest_wire::params::StartupParams;
use pgtest_wire::postgres_upstream::{
    is_idle, is_socket_directory, socket_file_name, startup_request, Handshake,
    HandshakeProgress, ProtocolFault, ReadProbe, SessionBurst, UpstreamError,
};
use pgtest_wire::wire_listener::{
    FoundFile, SocketIdentity, WireError, WireListener, DEFAULT_WIRE_PORT,
};
use pgwire::messages::startup::{Authentication, Startup};
use pgwire::messages::{DecodeContext, Message};

/// Feed a reply in pieces of `size` bytes; `None` where the reply breaks off.
fn connect_with_reply(
    reply: &[u8],
    size: usize,
) -> Result<Option<SessionBurst>, UpstreamError> {
    let mut handshake = Handshake::new();
    for chunk in reply.chunks(size) {
        handshake = match handshake.receive(chunk).advance()? {
            HandshakeProgress::Established(burst) => return Ok(Some(burst)),
            HandshakeProgress::NeedsBytes { handshake, missing } => {
                assert!(missing > 0);
                handshake
            }
        };
    }
    Ok(None)
}

#[test]
fn replies_that_break_off_need_more_bytes() {
    for size in [1, 2, 100] {
        for reply in [
            b"".as_slice(),
            b"R\0\0\0\x08\0\0\0".as_slice(),
            b"R\0\0\0\x08\0\0\0\0".as_slice(),
            b"R\0\0\0\x08\0\0\0\0S\0\0\0\x08a\0b\0Z\0\0\0\x05".as_slice(),
        ] {
            assert!(connect_with_reply(reply, size).unwrap().is_none());
        }
    }
}

#[test]
fn missing_bytes_are_counted() {
    for (reply, expected) in [
        (b"".as_slice(), 5),
        (b"R\0\0".as_slice(), 2),
        (b"R\0\0\0\x08\0".as_slice(), 3),
        (b"R\0\0\0\x08\0\0\0\0S\0\0\0\x08a".as_slice(), 3),
    ] {
        match Handshake::new().receive(reply).advance().unwrap() {
            HandshakeProgress::NeedsBytes { missing, .. } => assert_eq!(missing, expected),
            HandshakeProgress::Established(_) => panic!("{reply:?}"),
        }
    }
}

#[test]
fn refused_startups_keep_their_error_kind() {
    for size in [1, 2, 100] {
        assert!(matches!(
            connect_with_reply(b"X\0\0\0\x04", size),
            Err(UpstreamError::UnexpectedMessage(b'X'))
        ));
        assert!(matches!(
            connect_with_reply(b"E\0\0\0\x04", size),
            Err(UpstreamError::StartupRejected)
        ));
        for code in [2u8, 3, 10, 11, 12] {
            let reply = [b'R', 0, 0, 0, 8, 0, 0, 0, code];
            assert!(matches!(
                connect_with_reply(&reply, size),
                Err(UpstreamError::UnsupportedAuthentication)
            ));
        }
        assert!(matches!(
            connect_with_reply(b"R\0\0\0\x0c\0\0\0\x05salt", size),
            Err(UpstreamError::UnsupportedAuthentication)
        ));
        assert!(matches!(
            connect_with_reply(b"R\0\0\0\x08\0\0\0\x63", size),
            Err(UpstreamError::Protocol(ProtocolFault::InvalidAuthenticationMessageCode(99)))
        ));
        assert!(matches!(
            connect_with_reply(b"R\0\0\0\x08\xff\xff\xff\xff", size),
            Err(UpstreamError::Protocol(ProtocolFault::InvalidAuthenticationMessageCode(-1)))
        ));
    }
}

#[test]
fn malformed_lengths_are_errors() {
    for (reply, length) in [
        (b"R\0\0\0\x04".to_vec(), 4),
        (b"R\0\0\0\x08\0\0\0\x05".to_vec(), 8), // MD5 without its salt.
        (b"R\0\0\0\x03".to_vec(), 3),
        (b"R\xff\xff\xff\xff".to_vec(), -1),
        (b"R\x80\0\0\0".to_vec(), i32::MIN),
        (b"R\0\0\0\x08\0\0\0\0Z\0\0\0\x03".to_vec(), 3),
    ] {
        for size in [1, 2, 100] {
            match connect_with_reply(&reply, size) {
                Err(UpstreamError::InvalidFrameLength(found)) => assert_eq!(found, length),
                _ => panic!("{reply:?}"),
            }
        }
    }
    let limit = Authentication::max_message_length();
    let mut oversized = vec![b'R'];
    oversized.extend_from_slice(&((limit + 1) as i32).to_be_bytes());
    assert!(matches!(
        connect_with_reply(&oversized, 2),
        Err(UpstreamError::Protocol(ProtocolFault::MessageTooLarge { max, length }))
            if max == limit && length == limit + 1
    ));
}

#[test]
fn bursts_are_kept_byte_for_byte() {
    for (burst, ready) in [
        (b"S\0\0\0\x08a\0b\0Z\0\0\0\x05I".as_slice(), true),
        (b"E\0\0\0\x04".as_slice(), false),
        (b"N\0\0\0\x04K\0\0\0\x04Z\0\0\0\x04".as_slice(), true),
    ] {
        for size in [1, 2, 3, 100] {
            let mut reply = b"R\0\0\0\x08\0\0\0\0".to_vec();
            reply.extend_from_slice(burst);
            let session = connect_with_reply(&reply, size).unwrap().unwrap();
            assert_eq!(session.bytes.bytes(), burst);
            assert_eq!(session.ready, ready);
            assert!(!session.bytes.is_empty());
        }
    }
    // What follows the end of the burst is no part of it.
    let session =
        connect_with_reply(b"R\0\0\0\x08\0\0\0\0Z\0\0\0\x05IA\0\0\0\x04", 100)
            .unwrap()
            .unwrap();
    assert_eq!(session.bytes.bytes(), b"Z\0\0\0\x05I");
}

#[test]
fn raw_bytes_hold_a_buffer() {
    let raw = RawBytes::from(bytes::BytesMut::from(&b"abc"[..]));
    assert_eq!(raw.bytes(), b"abc");
    assert!(!raw.is_empty());
    assert!(RawBytes::from(bytes::BytesMut::new()).is_empty());
}

fn params(pairs: &[(&str, &str)]) -> StartupParams {
    let mut params = StartupParams::new();
    for (name, value) in pairs {
        params.insert((*name).to_owned(), (*value).to_owned());
    }
    params
}

#[test]
fn startup_requests_route_to_the_leased_database() {
    let client = params(&[
        ("user", "postgres"),
        ("replication", "true"),
        ("database", "template/lease"),
        ("application_name", "vitest"),
    ]);
    let mut request = startup_request("clone_1", &client).unwrap();
    let mut expected = vec![0, 0, 0, 0, 0, 3, 0, 0];
    // Names come in the order of their bytes.
    expected
        .extend_from_slice(b"application_name\0vitest\0database\0clone_1\0user\0postgres\0\0");
    let length = expected.len() as u32;
    expected[..4].copy_from_slice(&length.to_be_bytes());
    assert_eq!(&request[..], &expected[..]);

    let decoded = Startup::decode(&mut request, &DecodeContext::default()).unwrap().unwrap();
    assert_eq!(decoded.parameters.len(), 3);
    assert_eq!(decoded.parameters["database"], "clone_1");
}

#[test]
fn oversized_startup_is_an_encoding_error() {
    let limit = Startup::max_message_length();
    let name = "application_name";
    // The length counts 9 bytes of framing, the database and both null bytes.
    let framing = 9 + "database".len() + "test".len() + 2 + name.len() + 2;
    let fits = params(&[(name, &"a".repeat(limit - framing))]);
    assert_eq!(startup_request("test", &fits).unwrap().len(), limit);
    let exceeds = params(&[(name, &"a".repeat(limit - framing + 1))]);
    assert!(matches!(
        startup_request("test", &exceeds),
        Err(UpstreamError::Protocol(ProtocolFault::MessageTooLarge { max, length }))
            if max == limit && length == limit + 1
    ));
}

#[test]
fn endpoints_are_told_apart() {
    assert!(is_socket_directory("/var/run/postgresql"));
    assert!(is_socket_directory("/"));
    assert!(!is_socket_directory("localhost"));
    assert!(!is_socket_directory(""));
    assert_eq!(socket_file_name(5433), ".s.PGSQL.5433");
    assert_eq!(socket_file_name(0), ".s.PGSQL.0");
    assert_eq!(socket_file_name(DEFAULT_WIRE_PORT), ".s.PGSQL.6432");
    assert_eq!(WireListener::new(), WireListener {});
}

#[test]
fn only_the_own_socket_is_removed() {
    let socket = SocketIdentity { device: 1, inode: 2 };
    assert!(socket.owns(Some(FoundFile { is_socket: true, device: 1, inode: 2 })));
    for found in [
        None,
        Some(FoundFile { is_socket: false, device: 1, inode: 2 }),
        Some(FoundFile { is_socket: true, device: 3, inode: 2 }),
        Some(FoundFile { is_socket: true, device: 1, inode: 3 }),
    ] {
        assert!(!socket.owns(found));
    }
}

#[test]
fn only_silent_open_spares_are_idle() {
    assert!(is_idle(ReadProbe::WouldBlock));
    assert!(!is_idle(ReadProbe::Readable));
    assert!(!is_idle(ReadProbe::Failed));
}

#[test]
fn socket_errors_keep_their_kind() {
    let missing = || std::io::Error::from(std::io::ErrorKind::NotFound);
    assert!(matches!(UpstreamError::from(missing()),
        UpstreamError::Io(error) if error.kind() == std::io::ErrorKind::NotFound));
    let WireError::Listen(error) = WireError::from(missing());
    assert_eq!(error.kind(), std::io::ErrorKind::NotFound);
}

#[test]
fn fewer_than_the_missing_bytes_leave_a_handshake_pending() {
    let reply = b"R\0\0\0\x08\0\0\0\0S\0\0\0\x08a\0b\0Z\0\0\0\x05I";
    for received in 0..reply.len() {
        let progress = Handshake::new().receive(&reply[..received]).advance().unwrap();
        let HandshakeProgress::NeedsBytes { handshake, missing } = progress else {
            panic!("{received} bytes are no handshake");
        };
        let next = received + missing - 1;
        assert!(next < reply.len());
        assert!(matches!(
            handshake.receive(&reply[received..next]).advance(),
            Ok(HandshakeProgress::NeedsBytes { missing: 1, .. })
        ));
    }
}
