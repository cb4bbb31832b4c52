//! The handshake with an upstream PostgreSQL server.
//!
//! The server's replies are framed: a tag byte, a big-endian length that counts
//! itself, and a body. A handshake is one authentication frame followed by a
//! burst of frames that ends with ReadyForQuery or with an ErrorResponse. The
//! burst is kept byte for byte, to be replayed to the client.
use bytes::BytesMut;
use pgwire::error::PgWireError;
use pgwire::messages::startup::{Authentication, Startup};
use pgwire::messages::{DecodeContext, Message};
use vstd::prelude::*;
use vstd::utf8::*;

use crate::buffer;
use crate::buffer::RawBytes;
use crate::params::StartupParams;
use crate::text;

pub mod laws;

verus! {

/// `pgwire::error::PgWireError`, carried without looking inside.
#[verifier::external_type_specification]
#[verifier::external_body]
pub struct ExPgWireError(PgWireError);

/// `std::io::Error`, carried without looking inside.
#[verifier::external_type_specification]
#[verifier::external_body]
pub struct ExIoError(std::io::Error);

/// Why a message could not be written or read.
#[derive(Debug)]
pub enum ProtocolFault {
    /// The message is longer than its type allows.
    MessageTooLarge { max: usize, length: usize },
    /// No authentication message has this code.
    InvalidAuthenticationMessageCode(i32),
    /// Any other fault.
    Other(PgWireError),
}

/// Why an upstream connection could not be used.
#[derive(Debug)]
pub enum UpstreamError {
    /// The socket failed or was closed.
    Io(std::io::Error),
    /// A message broke the protocol.
    Protocol(ProtocolFault),
    /// The server asks for more than `trust` authentication.
    UnsupportedAuthentication,
    /// The server answered the startup message with an error.
    StartupRejected,
    /// The server answered the startup message with this tag.
    UnexpectedMessage(u8),
    /// A frame has this length.
    InvalidFrameLength(i32),
}

impl From<std::io::Error> for UpstreamError {
    fn from(error: std::io::Error) -> (r: UpstreamError)
        ensures
            r == UpstreamError::Io(error),
    {
        UpstreamError::Io(error)
    }
}

impl vstd::std_specs::convert::FromSpecImpl<std::io::Error> for UpstreamError {
    open spec fn obeys_from_spec() -> bool {
        true
    }

    open spec fn from_spec(error: std::io::Error) -> UpstreamError {
        UpstreamError::Io(error)
    }
}

/// What an authentication message asks for.
#[derive(Debug, Clone, Copy, PartialEq, Eq, Structural)]
pub enum AuthenticationReply {
    /// Nothing: the connection is trusted.
    Trusted,
    /// Some proof of identity.
    Challenge,
}

/// The tag of an authentication message.
pub const TAG_AUTHENTICATION: u8 = 0x52;

/// The tag of an error response.
pub const TAG_ERROR: u8 = 0x45;

/// The tag that tells the client that the server is ready.
pub const TAG_READY: u8 = 0x5a;

/// The big-endian number in the four bytes of `s` from `at` on, in two's
/// complement.
pub open spec fn be_i32(s: Seq<u8>, at: int) -> int {
    let raw = s[at] * 0x100_0000 + s[at + 1] * 0x1_0000 + s[at + 2] * 0x100 + s[at + 3];
    if raw < 0x8000_0000 {
        raw
    } else {
        raw - 0x1_0000_0000
    }
}

/// Read four bytes as a big-endian number.
fn read_be_i32(bytes: &[u8], at: usize) -> (value: i32)
    requires
        at + 4 <= bytes@.len(),
    ensures
        value == be_i32(bytes@, at as int),
{
    let raw: i64 = bytes[at] as i64 * 0x100_0000 + bytes[at + 1] as i64 * 0x1_0000 + bytes[at + 2]
        as i64 * 0x100 + bytes[at + 3] as i64;
    if raw < 0x8000_0000 {
        raw as i32
    } else {
        (raw - 0x1_0000_0000) as i32
    }
}

/// What stands at some place of a stream of frames.
pub enum FrameView {
    /// The stream ends before the frame does.
    Incomplete,
    /// The frame's length is impossible.
    BadLength(int),
    /// The frame is longer than allowed.
    TooLarge { length: int },
    /// A whole frame, up to `end`.
    Whole { tag: u8, end: int },
}

/// The frame of at most `max` bytes (its tag not counted) that starts at `at`.
pub open spec fn frame_at(s: Seq<u8>, at: int, max: int) -> FrameView {
    let length = be_i32(s, at + 1);
    if s.len() < at + 5 {
        FrameView::Incomplete
    } else if length < 4 {
        FrameView::BadLength(length)
    } else if length > max {
        FrameView::TooLarge { length }
    } else if at + 1 + length > usize::MAX {
        FrameView::BadLength(length)
    } else if s.len() < at + 1 + length {
        FrameView::Incomplete
    } else {
        FrameView::Whole { tag: s[at], end: at + 1 + length }
    }
}

/// A frame, or the number of bytes without which it cannot be told.
pub enum FrameProgress {
    NeedsBytes(usize),
    Whole { tag: u8, end: usize },
}

/// `error` is what is wrong with `frame`.
pub open spec fn frame_fault(frame: FrameView, max: int, error: UpstreamError) -> bool {
    match frame {
        FrameView::BadLength(length) => error == UpstreamError::InvalidFrameLength(length as i32)
            && i32::MIN <= length <= i32::MAX,
        FrameView::TooLarge { length } => error matches UpstreamError::Protocol(
            ProtocolFault::MessageTooLarge { max: limit, length: actual },
        ) && limit == max && actual == length,
        _ => false,
    }
}

/// Look for a whole frame at `cursor`.
pub fn read_frame(stream: &[u8], cursor: usize, max_length: usize) -> (r: Result<
    FrameProgress,
    UpstreamError,
>)
    requires
        cursor <= stream@.len(),
    ensures
        match r {
            Ok(FrameProgress::NeedsBytes(missing)) => missing > 0 && forall|more: Seq<u8>|
                more.len() < missing ==> frame_at(
                    #[trigger] (stream@ + more),
                    cursor as int,
                    max_length as int,
                ) is Incomplete,
            Ok(FrameProgress::Whole { tag, end }) => frame_at(
                stream@,
                cursor as int,
                max_length as int,
            ) == (FrameView::Whole { tag, end: end as int }),
            Err(error) => frame_fault(
                frame_at(stream@, cursor as int, max_length as int),
                max_length as int,
                error,
            ),
        },
{
    let available: usize = stream.len() - cursor;
    if available < 5 {
        return Ok(FrameProgress::NeedsBytes(5 - available));
    }
    let length = read_be_i32(stream, cursor + 1);
    if length < 4 {
        return Err(UpstreamError::InvalidFrameLength(length));
    }
    if length as usize > max_length {
        return Err(
            UpstreamError::Protocol(
                ProtocolFault::MessageTooLarge { max: max_length, length: length as usize },
            ),
        );
    }
    match cursor.checked_add(1 + length as usize) {
        None => Err(UpstreamError::InvalidFrameLength(length)),
        Some(end) => {
            if stream.len() < end {
                Ok(FrameProgress::NeedsBytes(end - stream.len()))
            } else {
                Ok(FrameProgress::Whole { tag: stream[cursor], end })
            }
        },
    }
}

/// The parameters of a client that an upstream connection may carry: the proxy
/// owns `database` and `replication`.
pub open spec fn forwarded(client: Map<Seq<char>, Seq<char>>) -> Map<Seq<char>, Seq<char>> {
    client.remove("database"@).remove("replication"@)
}

/// The parameters of an upstream connection to the database `name`.
pub open spec fn upstream_parameters(
    client: Map<Seq<char>, Seq<char>>,
    name: Seq<char>,
) -> Map<Seq<char>, Seq<char>> {
    forwarded(client).insert("database"@, name)
}

/// Leave out the parameters that the proxy owns.
pub fn forwardable(client_params: &StartupParams) -> (kept: StartupParams)
    ensures
        kept@ == forwarded(client_params@),
{
    client_params.without("database", "replication")
}

/// What is forwarded once is forwarded again unchanged.
pub proof fn lemma_forwarding_is_idempotent(client: Map<Seq<char>, Seq<char>>)
    ensures
        forwarded(forwarded(client)) == forwarded(client),
{
    assert(forwarded(forwarded(client)) =~= forwarded(client));
}

/// An upstream connection is routed to its own database, never asks for
/// replication, and otherwise carries exactly what the client sent.
pub proof fn lemma_upstream_parameters_route(
    client: Map<Seq<char>, Seq<char>>,
    name: Seq<char>,
    key: Seq<char>,
)
    ensures
        upstream_parameters(client, name).dom().contains("database"@),
        upstream_parameters(client, name)["database"@] == name,
        !upstream_parameters(client, name).dom().contains("replication"@),
        key != "database"@ && key != "replication"@ ==> {
            &&& upstream_parameters(client, name).dom().contains(key) == client.dom().contains(key)
            &&& upstream_parameters(client, name)[key] == client[key]
        },
{
    reveal_strlit("database");
    reveal_strlit("replication");
    assert("database"@.len() != "replication"@.len());
}

/// `left` comes before `right` in the order of their bytes.
pub open spec fn precedes(left: Seq<u8>, right: Seq<u8>) -> bool
    decreases left.len(),
{
    if right.len() == 0 {
        false
    } else if left.len() == 0 {
        true
    } else if left[0] != right[0] {
        left[0] < right[0]
    } else {
        precedes(left.skip(1), right.skip(1))
    }
}

/// `names` lists the names of `parameters` in the order of their UTF-8 bytes.
pub open spec fn is_name_order(
    names: Seq<Seq<char>>,
    parameters: Map<Seq<char>, Seq<char>>,
) -> bool {
    &&& forall|name: Seq<char>| #[trigger] names.contains(name) <==> parameters.dom().contains(name)
    &&& forall|i: int, j: int|
        0 <= i < j < names.len() ==> precedes(
            encode_utf8(#[trigger] names[i]),
            encode_utf8(#[trigger] names[j]),
        )
}

/// The named parameters, each name and each value ended by a null byte.
pub open spec fn parameter_bytes(
    names: Seq<Seq<char>>,
    parameters: Map<Seq<char>, Seq<char>>,
) -> Seq<u8>
    decreases names.len(),
{
    if names.len() == 0 {
        seq![]
    } else {
        parameter_bytes(names.drop_last(), parameters) + encode_utf8(names.last()).push(0)
            + encode_utf8(parameters[names.last()]).push(0)
    }
}

/// `n` in four bytes, the highest first.
pub open spec fn be_bytes(n: nat) -> Seq<u8> {
    seq![
        (n / 0x100_0000 % 0x100) as u8,
        (n / 0x1_0000 % 0x100) as u8,
        (n / 0x100 % 0x100) as u8,
        (n % 0x100) as u8,
    ]
}

/// The startup message of protocol 3.0: its length, the version, the
/// parameters and a final null byte.
pub open spec fn startup_message(
    names: Seq<Seq<char>>,
    parameters: Map<Seq<char>, Seq<char>>,
) -> Seq<u8> {
    let pairs = parameter_bytes(names, parameters);
    be_bytes(9 + pairs.len()) + seq![0u8, 3, 0, 0] + pairs + seq![0u8]
}

/// The longest startup message.
pub open spec fn startup_limit() -> int {
    10_000
}

/// `bytes` is the startup message of `parameters`, and short enough.
pub open spec fn is_startup(
    parameters: Map<Seq<char>, Seq<char>>,
    names: Seq<Seq<char>>,
    bytes: Seq<u8>,
) -> bool {
    &&& is_name_order(names, parameters)
    &&& bytes == startup_message(names, parameters)
    &&& bytes.len() <= startup_limit()
}

/// The startup message of `parameters` would be `length` bytes long, which is
/// too much.
pub open spec fn is_oversized_startup(
    parameters: Map<Seq<char>, Seq<char>>,
    names: Seq<Seq<char>>,
    length: int,
) -> bool {
    &&& is_name_order(names, parameters)
    &&& length == startup_message(names, parameters).len()
    &&& length > startup_limit()
}

/// `Message::encode` of `Startup::new()` with the given parameters. The names
/// come in the order of their bytes, as the map inside `Startup` keeps them. A
/// message longer than [`startup_limit`] is refused with its length.
#[verifier::external_body]
fn encode_startup(parameters: &StartupParams) -> (r: Result<BytesMut, ProtocolFault>)
    ensures
        match r {
            Ok(bytes) => exists|names: Seq<Seq<char>>| #[trigger]
                is_startup(parameters@, names, buffer::held(bytes)),
            Err(ProtocolFault::MessageTooLarge { max, length }) => max == startup_limit() && exists|
                names: Seq<Seq<char>>,
            | #[trigger] is_oversized_startup(parameters@, names, length as int),
            Err(_) => false,
        },
{
    let mut startup = Startup::new();
    startup.parameters = parameters.pairs().iter().cloned().collect();
    let mut out = BytesMut::with_capacity(256);
    match startup.encode(&mut out) {
        Ok(()) => Ok(out),
        Err(PgWireError::MessageTooLarge(max, length)) => {
            Err(ProtocolFault::MessageTooLarge { max, length })
        },
        Err(error) => Err(ProtocolFault::Other(error)),
    }
}

/// The message that opens an upstream connection to the database `db_name` on
/// behalf of a client.
pub fn startup_request(db_name: &str, client_params: &StartupParams) -> (r: Result<
    BytesMut,
    UpstreamError,
>)
    ensures
        match r {
            Ok(bytes) => exists|names: Seq<Seq<char>>| #[trigger]
                is_startup(
                    upstream_parameters(client_params@, db_name@),
                    names,
                    buffer::held(bytes),
                ),
            Err(UpstreamError::Protocol(ProtocolFault::MessageTooLarge { max, length })) => max
                == startup_limit() && exists|names: Seq<Seq<char>>| #[trigger]
                is_oversized_startup(
                    upstream_parameters(client_params@, db_name@),
                    names,
                    length as int,
                ),
            Err(_) => false,
        },
{
    let mut parameters = forwardable(client_params);
    parameters.insert("database".to_owned(), db_name.to_owned());
    assert(parameters@ == upstream_parameters(client_params@, db_name@));
    match encode_startup(&parameters) {
        Ok(bytes) => {
            let reply = Ok(bytes);
            assert(reply->Ok_0 == bytes);
            reply
        },
        Err(fault) => Err(UpstreamError::Protocol(fault)),
    }
}

/// Whether an upstream host names a directory of Unix sockets.
pub fn is_socket_directory(host: &str) -> (unix: bool)
    ensures
        unix == (host@.len() > 0 && host@[0] == '/'),
{
    let chars = text::to_chars(host);
    chars.len() > 0 && chars[0] == '/'
}

/// The file name of the Unix socket for `port`.
pub fn socket_file_name(port: u16) -> (name: String)
    ensures
        name@ == ".s.PGSQL."@ + text::decimal(port as nat),
{
    let mut name = ".s.PGSQL.".to_owned();
    text::push_decimal(&mut name, port as usize);
    name
}

/// The longest authentication message, its tag not counted.
pub open spec fn authentication_limit() -> int {
    30_000
}

/// `Message::max_message_length` of `Authentication`.
#[verifier::external_body]
fn max_authentication_length() -> (length: usize)
    ensures
        length == authentication_limit(),
{
    Authentication::max_message_length()
}

/// The codes of the authentication messages that ask for a proof of identity:
/// Kerberos, a password in clear text or hashed, and the three SASL messages.
pub open spec fn is_challenge(code: int) -> bool {
    code == 2 || code == 3 || code == 5 || code == 10 || code == 11 || code == 12
}

/// `Message::decode` of `Authentication`, on one whole frame. The code in the
/// first four bytes of the body decides: zero is the message that trusts the
/// connection, the codes of [`is_challenge`] ask for a proof of identity, and
/// any other code is an error that names it. The decoder reads the code without
/// looking whether it is there, and the salt behind code 5 likewise.
#[verifier::external_body]
fn decode_authentication(frame: BytesMut) -> (r: Result<Option<AuthenticationReply>, ProtocolFault>)
    requires
        buffer::held(frame).len() >= 9,
        buffer::held(frame).len() - 1 == be_i32(buffer::held(frame), 1),
        buffer::held(frame).len() - 1 <= authentication_limit(),
        be_i32(buffer::held(frame), 5) == 5 ==> buffer::held(frame).len() >= 13,
    ensures
        match r {
            Ok(Some(AuthenticationReply::Trusted)) => be_i32(buffer::held(frame), 5) == 0,
            Ok(Some(AuthenticationReply::Challenge)) => is_challenge(
                be_i32(buffer::held(frame), 5),
            ),
            Ok(None) => false,
            Err(ProtocolFault::InvalidAuthenticationMessageCode(code)) => {
                &&& code == be_i32(buffer::held(frame), 5)
                &&& code != 0
                &&& !is_challenge(code as int)
            },
            Err(_) => false,
        },
{
    let mut frame = frame;
    match Authentication::decode(&mut frame, &DecodeContext::default()) {
        Ok(Some(Authentication::Ok)) => Ok(Some(AuthenticationReply::Trusted)),
        Ok(Some(_)) => Ok(Some(AuthenticationReply::Challenge)),
        Ok(None) => Ok(None),
        Err(PgWireError::InvalidAuthenticationMessageCode(code)) => {
            Err(ProtocolFault::InvalidAuthenticationMessageCode(code))
        },
        Err(error) => Err(ProtocolFault::Other(error)),
    }
}

/// Where the frame ends that trusts the connection, if `s` starts with one.
pub open spec fn authentication_end(s: Seq<u8>) -> Option<int> {
    match frame_at(s, 0, authentication_limit()) {
        FrameView::Whole { tag, end } => if tag == TAG_AUTHENTICATION && end >= 9 && be_i32(s, 5)
            == 0 {
            Some(end)
        } else {
            None
        },
        _ => None,
    }
}

/// `s` starts with something other than a frame that trusts the connection, and
/// `error` says what is wrong with it.
pub open spec fn authentication_fails(s: Seq<u8>, error: UpstreamError) -> bool {
    match frame_at(s, 0, authentication_limit()) {
        FrameView::Whole { tag, end } => {
            let length = end - 1;
            if tag == TAG_AUTHENTICATION {
                if length < 8 || (be_i32(s, 5) == 5 && length < 12) {
                    error == UpstreamError::InvalidFrameLength(length as i32)
                } else if be_i32(s, 5) == 0 {
                    false
                } else if is_challenge(be_i32(s, 5)) {
                    error == UpstreamError::UnsupportedAuthentication
                } else {
                    error == UpstreamError::Protocol(
                        ProtocolFault::InvalidAuthenticationMessageCode(be_i32(s, 5) as i32),
                    )
                }
            } else if tag == TAG_ERROR {
                error == UpstreamError::StartupRejected
            } else {
                error == UpstreamError::UnexpectedMessage(tag)
            }
        },
        frame => frame_fault(frame, authentication_limit(), error),
    }
}

/// Whether a frame with this tag ends the burst.
pub open spec fn ends_burst(tag: u8) -> bool {
    tag == TAG_READY || tag == TAG_ERROR
}

/// The frame that ends the burst of frames from `at` on, or what stands in the
/// way of reaching it.
pub open spec fn burst_at(s: Seq<u8>, at: int) -> FrameView
    decreases s.len() - at,
{
    match frame_at(s, at, i32::MAX as int) {
        FrameView::Whole { tag, end } => if ends_burst(tag) || end <= at || end > s.len() {
            FrameView::Whole { tag, end }
        } else {
            burst_at(s, end)
        },
        frame => frame,
    }
}

/// `s` holds a whole handshake: the authentication frame up to `start`, and
/// behind it a burst of `length` bytes that `tag` ends.
pub open spec fn is_handshake(s: Seq<u8>, start: int, length: int, tag: u8) -> bool {
    &&& authentication_end(s) == Some(start)
    &&& burst_at(s.skip(start), 0) == (FrameView::Whole { tag, end: length })
}

/// `s` cannot be continued to a handshake, because of `error`.
pub open spec fn handshake_fails(s: Seq<u8>, error: UpstreamError) -> bool {
    ||| authentication_fails(s, error)
    ||| authentication_end(s) matches Some(start) && frame_fault(
        burst_at(s.skip(start), 0),
        i32::MAX as int,
        error,
    )
}

/// `s` breaks off inside a handshake, and at least `missing` bytes before its
/// next frame ends.
pub open spec fn lacks(s: Seq<u8>, missing: int) -> bool {
    forall|more: Seq<u8>| more.len() < missing ==> handshake_pending(#[trigger] (s + more))
}

/// `s` breaks off inside a handshake.
pub open spec fn handshake_pending(s: Seq<u8>) -> bool {
    ||| frame_at(s, 0, authentication_limit()) is Incomplete
    ||| authentication_end(s) matches Some(start) && burst_at(s.skip(start), 0) is Incomplete
}

/// A frame that can be told stays what it is when more bytes arrive.
proof fn lemma_frame_prefix(s: Seq<u8>, t: Seq<u8>, at: int, max: int)
    requires
        0 <= at <= s.len(),
        !(frame_at(s, at, max) is Incomplete),
    ensures
        frame_at(s + t, at, max) == frame_at(s, at, max),
{
}

/// `s` holds whole frames from `at` to `cursor`, none of which ends the burst.
spec fn walked(s: Seq<u8>, at: int, cursor: int) -> bool
    decreases cursor - at,
{
    ||| at == cursor
    ||| frame_at(s, at, i32::MAX as int) matches FrameView::Whole { tag, end } && !ends_burst(tag)
        && at < end <= cursor && walked(s, end, cursor)
}

/// Frames that were walked over stay walked over when more bytes arrive, and
/// the burst is the one that starts behind them.
proof fn lemma_walked(s: Seq<u8>, t: Seq<u8>, at: int, cursor: int)
    requires
        0 <= at <= cursor <= s.len(),
        walked(s, at, cursor),
    ensures
        walked(s + t, at, cursor),
        burst_at(s, at) == burst_at(s, cursor),
    decreases cursor - at,
{
    if at != cursor {
        lemma_frame_prefix(s, t, at, i32::MAX as int);
        let end = frame_at(s, at, i32::MAX as int)->Whole_end;
        lemma_walked(s, t, end, cursor);
    }
}

/// Walking over one more frame.
proof fn lemma_walked_step(s: Seq<u8>, at: int, cursor: int)
    requires
        0 <= at <= cursor <= s.len(),
        walked(s, at, cursor),
        frame_at(s, cursor, i32::MAX as int) matches FrameView::Whole { tag, end } && !ends_burst(
            tag,
        ),
    ensures
        ({
            let end = frame_at(s, cursor, i32::MAX as int)->Whole_end;
            cursor < end <= s.len() && walked(s, at, end)
        }),
    decreases cursor - at,
{
    let end = frame_at(s, cursor, i32::MAX as int)->Whole_end;
    if at != cursor {
        let next = frame_at(s, at, i32::MAX as int)->Whole_end;
        lemma_walked_step(s, next, cursor);
    } else {
        assert(walked(s, end, end));
    }
}

/// A burst that can be told stays what it is when more bytes arrive.
proof fn lemma_burst_prefix(s: Seq<u8>, t: Seq<u8>, at: int)
    requires
        0 <= at <= s.len(),
        !(burst_at(s, at) is Incomplete),
    ensures
        burst_at(s + t, at) == burst_at(s, at),
    decreases s.len() - at,
{
    lemma_frame_prefix(s, t, at, i32::MAX as int);
    if let FrameView::Whole { tag, end } = frame_at(s, at, i32::MAX as int) {
        if !ends_burst(tag) {
            lemma_burst_prefix(s, t, end);
        }
    }
}

/// What a handshake comes to depends on the bytes alone, not on the pieces in
/// which they arrive: once it is decided, further bytes change nothing.
pub proof fn lemma_handshake_is_decided_once(
    s: Seq<u8>,
    more: Seq<u8>,
    start: int,
    length: int,
    tag: u8,
    error: UpstreamError,
)
    ensures
        is_handshake(s, start, length, tag) ==> is_handshake(s + more, start, length, tag) && (s
            + more).skip(start).take(length) == s.skip(start).take(length),
        handshake_fails(s, error) ==> handshake_fails(s + more, error),
{
    if !(frame_at(s, 0, authentication_limit()) is Incomplete) {
        lemma_frame_prefix(s, more, 0, authentication_limit());
        if let Some(begin) = authentication_end(s) {
            assert((s + more).skip(begin) =~= s.skip(begin) + more);
            if !(burst_at(s.skip(begin), 0) is Incomplete) {
                lemma_burst_prefix(s.skip(begin), more, 0);
                if is_handshake(s, start, length, tag) {
                    lemma_burst_bounds(s.skip(begin), 0);
                    assert((s + more).skip(start).take(length) =~= s.skip(start).take(length));
                }
            }
        }
        assert(s.len() >= 5);
        assert(authentication_end(s + more) == authentication_end(s));
    }
}

/// A burst ends inside the stream.
pub(crate) proof fn lemma_burst_bounds(s: Seq<u8>, at: int)
    requires
        0 <= at <= s.len(),
    ensures
        burst_at(s, at) matches FrameView::Whole { tag, end } ==> ends_burst(tag) && at < end
            <= s.len(),
    decreases s.len() - at,
{
    if let FrameView::Whole { tag, end } = frame_at(s, at, i32::MAX as int) {
        if !ends_burst(tag) {
            lemma_burst_bounds(s, end);
        }
    }
}

/// No stream is at once a handshake, a broken one and a pending one.
pub proof fn lemma_handshake_outcomes_exclude_each_other(
    s: Seq<u8>,
    start: int,
    length: int,
    tag: u8,
    error: UpstreamError,
)
    ensures
        !(is_handshake(s, start, length, tag) && handshake_fails(s, error)),
        !(is_handshake(s, start, length, tag) && handshake_pending(s)),
        !(handshake_fails(s, error) && handshake_pending(s)),
{
}

/// How far the authentication has come.
enum AuthenticationProgress {
    NeedsBytes { received: BytesMut, missing: usize },
    Trusted { rest: BytesMut },
}

/// Read the server's answer to the startup message. The bytes behind it are
/// kept for the burst.
fn authenticate(received: BytesMut) -> (r: Result<AuthenticationProgress, UpstreamError>)
    ensures
        match r {
            Ok(AuthenticationProgress::NeedsBytes { received: kept, missing }) => {
                &&& lacks(buffer::held(received), missing as int)
                &&& buffer::held(kept) == buffer::held(received)
                &&& missing > 0
            },
            Ok(AuthenticationProgress::Trusted { rest }) => authentication_end(
                buffer::held(received),
            ) matches Some(end) && end <= buffer::held(received).len() && buffer::held(rest)
                == buffer::held(received).skip(end),
            Err(error) => authentication_fails(buffer::held(received), error),
        },
{
    let ghost s = buffer::held(received);
    let mut received = received;
    match read_frame(buffer::contents(&received), 0, max_authentication_length()) {
        Err(error) => Err(error),
        Ok(FrameProgress::NeedsBytes(missing)) => Ok(
            AuthenticationProgress::NeedsBytes { received, missing },
        ),
        Ok(FrameProgress::Whole { tag, end }) => {
            if tag == TAG_AUTHENTICATION {
                let length: i32 = (end - 1) as i32;
                if length < 8 {
                    return Err(UpstreamError::InvalidFrameLength(length));
                }
                let code = read_be_i32(buffer::contents(&received), 5);
                if code == 5 && length < 12 {
                    return Err(UpstreamError::InvalidFrameLength(length));
                }
                let frame = received.split_to(end);
                proof {
                    let f = buffer::held(frame);
                    assert(f =~= s.take(end as int));
                    assert(be_i32(f, 1) == be_i32(s, 1));
                    assert(be_i32(f, 5) == be_i32(s, 5));
                }
                match decode_authentication(frame) {
                    Ok(Some(AuthenticationReply::Trusted)) => Ok(
                        AuthenticationProgress::Trusted { rest: received },
                    ),
                    Ok(Some(AuthenticationReply::Challenge)) => Err(
                        UpstreamError::UnsupportedAuthentication,
                    ),
                    Ok(None) => Err(UpstreamError::InvalidFrameLength(length)),
                    Err(fault) => Err(UpstreamError::Protocol(fault)),
                }
            } else if tag == TAG_ERROR {
                Err(UpstreamError::StartupRejected)
            } else {
                Err(UpstreamError::UnexpectedMessage(tag))
            }
        },
    }
}

/// How far the burst has come.
enum BurstProgress {
    NeedsBytes { cursor: usize, missing: usize },
    Complete { end: usize, tag: u8 },
}

/// Walk over whole frames from `cursor` on until one ends the burst.
fn wait_for_ready_for_query(received: &BytesMut, cursor: usize) -> (r: Result<
    BurstProgress,
    UpstreamError,
>)
    requires
        cursor <= buffer::held(*received).len(),
        walked(buffer::held(*received), 0, cursor as int),
    ensures
        match r {
            Ok(BurstProgress::NeedsBytes { cursor: reached, missing }) => {
                &&& forall|more: Seq<u8>|
                    more.len() < missing ==> burst_at(
                        #[trigger] (buffer::held(*received) + more),
                        0,
                    ) is Incomplete
                &&& reached <= buffer::held(*received).len()
                &&& walked(buffer::held(*received), 0, reached as int)
                &&& missing > 0
            },
            Ok(BurstProgress::Complete { end, tag }) => burst_at(buffer::held(*received), 0) == (
            FrameView::Whole { tag, end: end as int }),
            Err(error) => frame_fault(
                burst_at(buffer::held(*received), 0),
                i32::MAX as int,
                error,
            ),
        },
{
    let ghost s = buffer::held(*received);
    let stream = buffer::contents(received);
    let mut cursor: usize = cursor;
    loop
        invariant
            s == buffer::held(*received),
            stream@ == s,
            cursor <= s.len(),
            walked(s, 0, cursor as int),
        decreases s.len() - cursor,
    {
        proof {
            lemma_walked(s, Seq::empty(), 0, cursor as int);
        }
        match read_frame(stream, cursor, i32::MAX as usize) {
            Err(error) => {
                return Err(error);
            },
            Ok(FrameProgress::NeedsBytes(missing)) => {
                proof {
                    assert forall|more: Seq<u8>| more.len() < missing implies burst_at(
                        #[trigger] (s + more),
                        0,
                    ) is Incomplete by {
                        lemma_walked(s, more, 0, cursor as int);
                        lemma_walked(s + more, Seq::empty(), 0, cursor as int);
                    }
                }
                return Ok(BurstProgress::NeedsBytes { cursor, missing });
            },
            Ok(FrameProgress::Whole { tag, end }) => {
                if tag == TAG_READY || tag == TAG_ERROR {
                    return Ok(BurstProgress::Complete { end, tag });
                }
                proof {
                    lemma_walked_step(s, 0, cursor as int);
                }
                cursor = end;
            },
        }
    }
}

/// A handshake of which some bytes may still be missing.
pub struct Handshake {
    received: BytesMut,
    trusted: bool,
    cursor: usize,
    stream: Ghost<Seq<u8>>,
}

/// How far a handshake has come.
pub enum HandshakeProgress {
    /// At least `missing` more bytes have to be received.
    NeedsBytes { handshake: Handshake, missing: usize },
    /// The server let the connection in.
    Established(SessionBurst),
}

/// What the server sent behind its authentication message.
#[derive(Debug)]
pub struct SessionBurst {
    /// The frames, byte for byte.
    pub bytes: RawBytes,
    /// Whether the last of them says that the server is ready; otherwise it is
    /// an error response.
    pub ready: bool,
}

/// A connection on which the handshake is done.
#[derive(Debug)]
pub struct UpstreamSession<T> {
    pub stream: T,
    pub session_burst: SessionBurst,
}

/// What a read that does not wait finds on a spare connection.
#[derive(Debug, Clone, Copy, PartialEq, Eq, Structural)]
pub enum ReadProbe {
    /// Nothing, and the connection is open.
    WouldBlock,
    /// Bytes, or the end of the stream.
    Readable,
    /// An error.
    Failed,
}

/// Whether a spare connection can be handed to a client. A fresh idle backend
/// has nothing to read: the end of the stream, errors and unsolicited data all
/// make the spare unsuitable.
pub fn is_idle(probe: ReadProbe) -> (idle: bool)
    ensures
        idle == (probe == ReadProbe::WouldBlock),
{
    match probe {
        ReadProbe::WouldBlock => true,
        ReadProbe::Readable | ReadProbe::Failed => false,
    }
}

/// `burst` is the burst of the handshake in `stream`, which starts at `start`
/// and which `tag` ends.
pub open spec fn is_burst(stream: Seq<u8>, start: int, tag: u8, burst: SessionBurst) -> bool {
    &&& is_handshake(stream, start, burst.bytes@.len() as int, tag)
    &&& burst.bytes@ == stream.skip(start).take(burst.bytes@.len() as int)
    &&& burst.ready == (tag == TAG_READY)
}

impl View for Handshake {
    type V = Seq<u8>;

    /// All bytes received so far.
    closed spec fn view(&self) -> Seq<u8> {
        self.stream@
    }
}

/// `outcome` is what a handshake comes to on the bytes of `stream`.
pub open spec fn is_advance(
    stream: Seq<u8>,
    outcome: Result<HandshakeProgress, UpstreamError>,
) -> bool {
    match outcome {
        Ok(HandshakeProgress::NeedsBytes { handshake, missing }) => {
            &&& handshake_pending(stream)
            &&& handshake@ == stream
            &&& missing > 0
            &&& lacks(stream, missing as int)
        },
        Ok(HandshakeProgress::Established(burst)) => exists|start: int, tag: u8|
            is_burst(stream, start, tag, burst),
        Err(error) => handshake_fails(stream, error),
    }
}

impl Handshake {
    #[verifier::type_invariant]
    spec fn keeps_the_stream(self) -> bool {
        let held = buffer::held(self.received);
        if self.trusted {
            &&& authentication_end(self.stream@) matches Some(start) && start <= self.stream@.len()
                && held == self.stream@.skip(start)
            &&& self.cursor <= held.len()
            &&& walked(held, 0, self.cursor as int)
        } else {
            held == self.stream@
        }
    }

    /// A handshake of which nothing has been received.
    pub fn new() -> (handshake: Handshake)
        ensures
            handshake@ == Seq::<u8>::empty(),
    {
        Handshake {
            received: BytesMut::with_capacity(1024),
            trusted: false,
            cursor: 0,
            stream: Ghost(Seq::empty()),
        }
    }

    /// Take in bytes from the server.
    pub fn receive(self, chunk: &[u8]) -> (handshake: Handshake)
        requires
            self@.len() + chunk@.len() <= isize::MAX / 4,
        ensures
            handshake@ == self@ + chunk@,
    {
        proof {
            use_type_invariant(&self);
        }
        let Handshake { received, trusted, cursor, stream } = self;
        let mut received = received;
        let ghost held = buffer::held(received);
        received.extend_from_slice(chunk);
        let stream: Ghost<Seq<u8>> = Ghost(stream@ + chunk@);
        proof {
            if trusted {
                let start = authentication_end(self@)->Some_0;
                lemma_frame_prefix(self@, chunk@, 0, authentication_limit());
                assert(authentication_end(stream@) == Some(start));
                assert(stream@.skip(start) =~= held + chunk@);
                lemma_walked(held, chunk@, 0, cursor as int);
            }
        }
        Handshake { received, trusted, cursor, stream }
    }

    /// Decide what can be decided on the bytes received so far.
    pub fn advance(self) -> (r: Result<HandshakeProgress, UpstreamError>)
        ensures
            is_advance(self@, r),
    {
        proof {
            use_type_invariant(&self);
        }
        let Handshake { received, trusted, cursor, stream } = self;
        let mut received = received;
        let mut cursor: usize = cursor;
        if !trusted {
            match authenticate(received) {
                Err(error) => {
                    return Err(error);
                },
                Ok(AuthenticationProgress::NeedsBytes { received: kept, missing }) => {
                    assert(self@ + Seq::empty() =~= self@);
                    let handshake = Handshake { received: kept, trusted, cursor, stream };
                    return Ok(HandshakeProgress::NeedsBytes { handshake, missing });
                },
                Ok(AuthenticationProgress::Trusted { rest }) => {
                    received = rest;
                    cursor = 0;
                },
            }
        }
        let ghost start = authentication_end(self@)->Some_0;
        let ghost held = buffer::held(received);
        assert(held == self@.skip(start));
        match wait_for_ready_for_query(&received, cursor) {
            Err(error) => Err(error),
            Ok(BurstProgress::NeedsBytes { cursor: reached, missing }) => {
                proof {
                    assert forall|more: Seq<u8>| more.len() < missing implies handshake_pending(
                        #[trigger] (self@ + more),
                    ) by {
                        lemma_frame_prefix(self@, more, 0, authentication_limit());
                        assert((self@ + more).skip(start) =~= held + more);
                    }
                    assert(self@ + Seq::empty() =~= self@);
                }
                let handshake = Handshake { received, trusted: true, cursor: reached, stream };
                Ok(HandshakeProgress::NeedsBytes { handshake, missing })
            },
            Ok(BurstProgress::Complete { end, tag }) => {
                proof {
                    lemma_burst_bounds(held, 0);
                }
                let bytes = RawBytes::from(received.split_to(end));
                let burst = SessionBurst { bytes, ready: tag == TAG_READY };
                assert(is_burst(self@, start, tag, burst));
                let progress = HandshakeProgress::Established(burst);
                assert(progress->Established_0 == burst);
                Ok(progress)
            },
        }
    }
}

} // verus!
