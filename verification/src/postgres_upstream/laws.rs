//! What the reading of frames and handshakes owes to those who write them.
use bytes::BytesMut;
use vstd::prelude::*;
use vstd::utf8::*;

use crate::params::StartupParams;
use crate::postgres_upstream;
use crate::postgres_upstream::{
    FrameProgress, FrameView, Handshake, HandshakeProgress, ProtocolFault, ReadProbe, SessionBurst,
    UpstreamError,
};
use crate::{buffer, text};

verus! {

/// The number that four bytes stand for, the highest first.
pub open spec fn unsigned(a: u8, b: u8, c: u8, d: u8) -> int {
    a * 0x100_0000 + b * 0x1_0000 + c * 0x100 + d
}

/// Four bytes hold a number by its digits to the base 256, the highest first.
pub proof fn lemma_be_bytes_are_digits(n: nat)
    requires
        n < 0x1_0000_0000,
    ensures
        postgres_upstream::be_bytes(n).len() == 4,
        ({
            let b = postgres_upstream::be_bytes(n);
            unsigned(b[0], b[1], b[2], b[3]) == n
        }),
{
}

/// Four bytes stand for one number only.
proof fn lemma_digits_are_unique(a: u8, b: u8, c: u8, d: u8, e: u8, f: u8, g: u8, h: u8)
    requires
        unsigned(a, b, c, d) == unsigned(e, f, g, h),
    ensures
        a == e,
        b == f,
        c == g,
        d == h,
{
}

/// A number that was written is read back, wherever it stands. Numbers from
/// the upper half of the range are read as negative ones.
pub proof fn lemma_number_round_trip(before: Seq<u8>, n: nat, rest: Seq<u8>)
    requires
        n < 0x1_0000_0000,
    ensures
        postgres_upstream::be_i32(
            before + postgres_upstream::be_bytes(n) + rest,
            before.len() as int,
        ) == (if n < 0x8000_0000 {
            n as int
        } else {
            n - 0x1_0000_0000
        }),
{
    lemma_be_bytes_are_digits(n);
    let b = postgres_upstream::be_bytes(n);
    let s = before + b + rest;
    let at = before.len() as int;
    assert(s[at] == b[0] && s[at + 1] == b[1] && s[at + 2] == b[2] && s[at + 3] == b[3]);
}

/// A frame as a server writes it: its tag, the length of its body and of the
/// length itself, and its body.
pub open spec fn frame_bytes(tag: u8, body: Seq<u8>) -> Seq<u8> {
    seq![tag] + postgres_upstream::be_bytes(4 + body.len()) + body
}

/// What a frame's header says where it stands in a stream.
proof fn lemma_header(before: Seq<u8>, tag: u8, body: Seq<u8>, rest: Seq<u8>)
    requires
        4 + body.len() <= i32::MAX,
    ensures
        ({
            let s = before + frame_bytes(tag, body) + rest;
            let at = before.len() as int;
            &&& s.len() == at + 5 + body.len() + rest.len()
            &&& s[at] == tag
            &&& postgres_upstream::be_i32(s, at + 1) == 4 + body.len()
            &&& s.subrange(at + 5, at + 5 + body.len()) == body
        }),
{
    let s = before + frame_bytes(tag, body) + rest;
    let at = before.len() as int;
    let written = postgres_upstream::be_bytes(4 + body.len());
    lemma_be_bytes_are_digits(4 + body.len());
    assert(s =~= (before + seq![tag]) + written + (body + rest));
    lemma_number_round_trip(before + seq![tag], 4 + body.len(), body + rest);
    assert(s.subrange(at + 5, at + 5 + body.len()) =~= body);
}

/// Every frame that a server may write is found whole, with its tag and its end,
/// wherever it stands and whatever follows it.
pub proof fn lemma_frame_round_trip(
    before: Seq<u8>,
    tag: u8,
    body: Seq<u8>,
    rest: Seq<u8>,
    max: int,
)
    requires
        4 + body.len() <= max <= i32::MAX,
        before.len() + 5 + body.len() <= usize::MAX,
    ensures
        postgres_upstream::frame_at(
            before + frame_bytes(tag, body) + rest,
            before.len() as int,
            max,
        ) == (FrameView::Whole { tag, end: (before.len() + 5 + body.len()) as int }),
{
    lemma_header(before, tag, body, rest);
}

/// A frame that is found is one that a server wrote: its bytes are its tag, its
/// length and its body, and its length is within the limit.
pub proof fn lemma_found_frame_was_written(s: Seq<u8>, at: int, max: int, tag: u8, end: int)
    requires
        0 <= at,
        max <= i32::MAX,
        postgres_upstream::frame_at(s, at, max) == (FrameView::Whole { tag, end }),
    ensures
        at + 5 <= end <= s.len(),
        end - at - 1 <= max,
        s.subrange(at, end) == frame_bytes(tag, s.subrange(at + 5, end)),
{
    let body = s.subrange(at + 5, end);
    let n = (4 + body.len()) as nat;
    lemma_be_bytes_are_digits(n);
    let b = postgres_upstream::be_bytes(n);
    assert(unsigned(s[at + 1], s[at + 2], s[at + 3], s[at + 4]) == n) by {
        assert(postgres_upstream::be_i32(s, at + 1) == n);
    }
    lemma_digits_are_unique(
        b[0],
        b[1],
        b[2],
        b[3],
        s[at + 1],
        s[at + 2],
        s[at + 3],
        s[at + 4],
    );
    assert(s.subrange(at, end) =~= frame_bytes(tag, body));
}

/// A frame that breaks off is waited for: it is neither found nor refused.
pub proof fn lemma_broken_frame_is_incomplete(
    before: Seq<u8>,
    tag: u8,
    body: Seq<u8>,
    max: int,
    n: int,
)
    requires
        4 + body.len() <= max <= i32::MAX,
        before.len() + 5 + body.len() <= usize::MAX,
        0 <= n < 5 + body.len(),
    ensures
        postgres_upstream::frame_at(
            before + frame_bytes(tag, body).take(n),
            before.len() as int,
            max,
        ) is Incomplete,
{
    let s = before + frame_bytes(tag, body).take(n);
    let whole = before + frame_bytes(tag, body) + Seq::<u8>::empty();
    let at = before.len() as int;
    lemma_header(before, tag, body, Seq::empty());
    lemma_be_bytes_are_digits(4 + body.len());
    if n >= 5 {
        assert(s[at + 1] == whole[at + 1] && s[at + 2] == whole[at + 2] && s[at + 3] == whole[at
            + 3] && s[at + 4] == whole[at + 4]);
    }
}

/// Only impossible lengths are refused: those too short for the length itself
/// or negative, with the number that was read, and those over the limit, with
/// their length.
pub proof fn lemma_refused_lengths(s: Seq<u8>, at: int, max: int)
    requires
        0 <= at,
        at + 5 <= s.len(),
        4 <= max <= i32::MAX,
        at + 1 + max <= usize::MAX,
    ensures
        ({
            let n = unsigned(s[at + 1], s[at + 2], s[at + 3], s[at + 4]);
            let frame = postgres_upstream::frame_at(s, at, max);
            &&& n < 4 ==> frame == FrameView::BadLength(n)
            &&& n >= 0x8000_0000 ==> frame == FrameView::BadLength(n - 0x1_0000_0000)
            &&& max < n < 0x8000_0000 ==> frame == (FrameView::TooLarge { length: n })
            &&& 4 <= n <= max ==> !(frame is BadLength) && !(frame is TooLarge)
        }),
{
}

/// The bytes of a row of frames.
pub open spec fn row_bytes(frames: Seq<(u8, Seq<u8>)>) -> Seq<u8>
    decreases frames.len(),
{
    if frames.len() == 0 {
        Seq::empty()
    } else {
        frame_bytes(frames[0].0, frames[0].1) + row_bytes(frames.skip(1))
    }
}

/// A server may write each of these frames before the last one of its burst.
pub open spec fn is_row(frames: Seq<(u8, Seq<u8>)>) -> bool {
    forall|i: int|
        0 <= i < frames.len() ==> {
            &&& (#[trigger] frames[i]).0 != 0x5a
            &&& frames[i].0 != 0x45
            &&& 4 + frames[i].1.len() <= i32::MAX
        }
}

/// A row of frames that a ready message or an error response follows is a burst
/// that ends with it, whatever comes behind.
pub proof fn lemma_burst_round_trip(
    before: Seq<u8>,
    frames: Seq<(u8, Seq<u8>)>,
    tag: u8,
    body: Seq<u8>,
    rest: Seq<u8>,
)
    requires
        is_row(frames),
        tag == 0x5a || tag == 0x45,
        4 + body.len() <= i32::MAX,
        before.len() + row_bytes(frames).len() + 5 + body.len() <= usize::MAX,
    ensures
        postgres_upstream::burst_at(
            before + row_bytes(frames) + frame_bytes(tag, body) + rest,
            before.len() as int,
        ) == (FrameView::Whole {
            tag,
            end: (before.len() + row_bytes(frames).len() + 5 + body.len()) as int,
        }),
    decreases frames.len(),
{
    let s = before + row_bytes(frames) + frame_bytes(tag, body) + rest;
    lemma_be_bytes_are_digits(4 + body.len());
    if frames.len() == 0 {
        assert(s =~= before + frame_bytes(tag, body) + rest);
        lemma_frame_round_trip(before, tag, body, rest, i32::MAX as int);
    } else {
        let first = frames[0];
        let others = frames.skip(1);
        assert forall|i: int| 0 <= i < others.len() implies {
            &&& (#[trigger] others[i]).0 != 0x5a
            &&& others[i].0 != 0x45
            &&& 4 + others[i].1.len() <= i32::MAX
        } by {
            assert(others[i] == frames[i + 1]);
        }
        let written = frame_bytes(first.0, first.1);
        lemma_be_bytes_are_digits(4 + first.1.len());
        let tail = row_bytes(others) + frame_bytes(tag, body) + rest;
        assert(s =~= before + written + tail);
        lemma_frame_round_trip(before, first.0, first.1, tail, i32::MAX as int);
        lemma_burst_round_trip(before + written, others, tag, body, rest);
        assert(s =~= (before + written) + row_bytes(others) + frame_bytes(tag, body) + rest);
    }
}

/// The reply of a server that trusts the connection: an authentication message
/// of code zero, a row of frames, and a last frame.
pub open spec fn reply_bytes(
    extra: Seq<u8>,
    frames: Seq<(u8, Seq<u8>)>,
    tag: u8,
    body: Seq<u8>,
) -> Seq<u8> {
    frame_bytes(0x52, seq![0u8, 0, 0, 0] + extra) + row_bytes(frames) + frame_bytes(tag, body)
}

/// A server may send this reply.
pub open spec fn is_reply(
    extra: Seq<u8>,
    frames: Seq<(u8, Seq<u8>)>,
    tag: u8,
    body: Seq<u8>,
) -> bool {
    &&& is_row(frames)
    &&& tag == 0x5a || tag == 0x45
    &&& 8 + extra.len() <= 30_000
    &&& 4 + body.len() <= i32::MAX
    &&& reply_bytes(extra, frames, tag, body).len() <= usize::MAX
}

/// Every reply of a server that trusts the connection establishes it, whatever
/// follows. The burst is exactly the frames behind the authentication message,
/// byte for byte, and is ready if a ready message ends it.
pub proof fn lemma_reply_establishes(
    extra: Seq<u8>,
    frames: Seq<(u8, Seq<u8>)>,
    tag: u8,
    body: Seq<u8>,
    rest: Seq<u8>,
)
    requires
        is_reply(extra, frames, tag, body),
    ensures
        ({
            let s = reply_bytes(extra, frames, tag, body) + rest;
            let burst = row_bytes(frames) + frame_bytes(tag, body);
            &&& postgres_upstream::is_handshake(s, (9 + extra.len()) as int, burst.len() as int, tag)
            &&& s.skip((9 + extra.len()) as int).take(burst.len() as int) == burst
            &&& !postgres_upstream::handshake_pending(s)
            &&& forall|error: UpstreamError| !postgres_upstream::handshake_fails(s, error)
            &&& forall|start: int, last: u8, kept: SessionBurst|
                postgres_upstream::is_burst(s, start, last, kept) ==> kept.bytes@ == burst
                    && kept.ready == (tag == 0x5a)
        }),
{
    let trusted = frame_bytes(0x52, seq![0u8, 0, 0, 0] + extra);
    let burst = row_bytes(frames) + frame_bytes(tag, body);
    let s = reply_bytes(extra, frames, tag, body) + rest;
    let start = 9 + extra.len();
    let empty = Seq::<u8>::empty();
    lemma_be_bytes_are_digits(8 + extra.len());
    lemma_be_bytes_are_digits(4 + body.len());
    assert(trusted.len() == start);
    assert(s =~= empty + trusted + (burst + rest));
    lemma_frame_round_trip(
        empty,
        0x52,
        seq![0u8, 0, 0, 0] + extra,
        burst + rest,
        30_000,
    );
    lemma_header(empty, 0x52, seq![0u8, 0, 0, 0] + extra, burst + rest);
    assert forall|i: int| 5 <= i < 9 implies s[i] == 0 by {
        assert(s[i] == trusted[i]);
        assert(trusted[i] == (seq![0u8, 0, 0, 0] + extra)[i - 5]);
    }
    assert(s[5] == 0 && s[6] == 0 && s[7] == 0 && s[8] == 0);
    assert(postgres_upstream::authentication_end(s) == Some(start as int));
    assert(s.skip(start as int) =~= empty + row_bytes(frames) + frame_bytes(tag, body) + rest);
    lemma_burst_round_trip(empty, frames, tag, body, rest);
    assert(s.skip(start as int).take(burst.len() as int) =~= burst);
    assert forall|error: UpstreamError| !postgres_upstream::handshake_fails(s, error) by {
        postgres_upstream::lemma_handshake_outcomes_exclude_each_other(
            s,
            start as int,
            burst.len() as int,
            tag,
            error,
        );
    }
}

/// A reply that breaks off is waited for: none of its proper beginnings
/// establishes or refuses the connection.
pub proof fn lemma_broken_reply_is_pending(
    extra: Seq<u8>,
    frames: Seq<(u8, Seq<u8>)>,
    tag: u8,
    body: Seq<u8>,
    n: int,
)
    requires
        is_reply(extra, frames, tag, body),
        0 <= n < reply_bytes(extra, frames, tag, body).len(),
    ensures
        postgres_upstream::handshake_pending(reply_bytes(extra, frames, tag, body).take(n)),
{
    let s = reply_bytes(extra, frames, tag, body);
    let part = s.take(n);
    let more = s.skip(n);
    let burst = row_bytes(frames) + frame_bytes(tag, body);
    assert(part + more =~= s);
    lemma_be_bytes_are_digits(8 + extra.len());
    lemma_reply_establishes(extra, frames, tag, body, Seq::empty());
    assert(s + Seq::<u8>::empty() =~= s);
    lemma_outcome_is_known(part);
    if !postgres_upstream::handshake_pending(part) {
        if exists|error: UpstreamError| postgres_upstream::handshake_fails(part, error) {
            let error = choose|error: UpstreamError|
                postgres_upstream::handshake_fails(part, error);
            postgres_upstream::lemma_handshake_is_decided_once(part, more, 0, 0, 0, error);
            assert(postgres_upstream::handshake_fails(s, error));
        } else {
            let (start, length, last) = choose|start: int, length: int, last: u8|
                postgres_upstream::is_handshake(part, start, length, last);
            postgres_upstream::lemma_handshake_is_decided_once(
                part,
                more,
                start,
                length,
                last,
                UpstreamError::StartupRejected,
            );
            assert(postgres_upstream::is_handshake(s, start, length, last));
            postgres_upstream::lemma_burst_bounds(part.skip(start), 0);
        }
    }
}

/// Every stream is a handshake, breaks off inside one, or cannot become one.
pub proof fn lemma_outcome_is_known(s: Seq<u8>)
    ensures
        ({
            ||| postgres_upstream::handshake_pending(s)
            ||| exists|start: int, length: int, tag: u8|
                postgres_upstream::is_handshake(s, start, length, tag)
            ||| exists|error: UpstreamError| postgres_upstream::handshake_fails(s, error)
        }),
{
    let limit = postgres_upstream::authentication_limit();
    match postgres_upstream::frame_at(s, 0, limit) {
        FrameView::Incomplete => {},
        FrameView::BadLength(length) => {
            let error = UpstreamError::InvalidFrameLength(length as i32);
            assert(postgres_upstream::handshake_fails(s, error));
        },
        FrameView::TooLarge { length } => {
            let error = UpstreamError::Protocol(
                ProtocolFault::MessageTooLarge { max: limit as usize, length: length as usize },
            );
            assert(postgres_upstream::handshake_fails(s, error));
        },
        FrameView::Whole { tag, end } => {
            match postgres_upstream::authentication_end(s) {
                Some(start) => {
                    lemma_burst_is_known(s.skip(start), 0);
                    match postgres_upstream::burst_at(s.skip(start), 0) {
                        FrameView::Incomplete => {},
                        FrameView::Whole { tag, end } => {
                            assert(postgres_upstream::is_handshake(s, start, end, tag));
                        },
                        frame => {
                            let error = choose|error: UpstreamError|
                                postgres_upstream::frame_fault(frame, i32::MAX as int, error);
                            assert(postgres_upstream::handshake_fails(s, error));
                        },
                    }
                },
                None => {
                    let error = if tag == postgres_upstream::TAG_ERROR {
                        UpstreamError::StartupRejected
                    } else if tag != postgres_upstream::TAG_AUTHENTICATION {
                        UpstreamError::UnexpectedMessage(tag)
                    } else if end < 9 || (postgres_upstream::be_i32(s, 5) == 5 && end < 13) {
                        UpstreamError::InvalidFrameLength((end - 1) as i32)
                    } else if postgres_upstream::is_challenge(postgres_upstream::be_i32(s, 5)) {
                        UpstreamError::UnsupportedAuthentication
                    } else {
                        UpstreamError::Protocol(
                            ProtocolFault::InvalidAuthenticationMessageCode(
                                postgres_upstream::be_i32(s, 5) as i32,
                            ),
                        )
                    };
                    assert(postgres_upstream::handshake_fails(s, error));
                },
            }
        },
    }
}

/// What stands in the way of a burst has an error.
proof fn lemma_burst_is_known(s: Seq<u8>, at: int)
    requires
        0 <= at,
    ensures
        ({
            let frame = postgres_upstream::burst_at(s, at);
            ||| frame is Incomplete
            ||| frame is Whole
            ||| exists|error: UpstreamError|
                postgres_upstream::frame_fault(frame, i32::MAX as int, error)
        }),
    decreases s.len() - at,
{
    match postgres_upstream::frame_at(s, at, i32::MAX as int) {
        FrameView::Whole { tag, end } => {
            if !(postgres_upstream::ends_burst(tag) || end <= at || end > s.len()) {
                lemma_burst_is_known(s, end);
            }
        },
        FrameView::BadLength(length) => {
            let error = UpstreamError::InvalidFrameLength(length as i32);
            assert(postgres_upstream::frame_fault(
                postgres_upstream::burst_at(s, at),
                i32::MAX as int,
                error,
            ));
        },
        FrameView::TooLarge { length } => {
            let error = UpstreamError::Protocol(
                ProtocolFault::MessageTooLarge { max: i32::MAX as usize, length: length as usize },
            );
            assert(postgres_upstream::frame_fault(
                postgres_upstream::burst_at(s, at),
                i32::MAX as int,
                error,
            ));
        },
        FrameView::Incomplete => {},
    }
}

/// A server that does not answer with an authentication message refuses the
/// connection if it sends an error, and breaks the protocol otherwise.
pub proof fn lemma_other_answers_are_refused(
    tag: u8,
    body: Seq<u8>,
    rest: Seq<u8>,
    error: UpstreamError,
)
    requires
        tag != 0x52,
        4 + body.len() <= 30_000,
        5 + body.len() <= usize::MAX,
    ensures
        postgres_upstream::handshake_fails(frame_bytes(tag, body) + rest, error) <==> error == (
        if tag == 0x45 {
            UpstreamError::StartupRejected
        } else {
            UpstreamError::UnexpectedMessage(tag)
        }),
{
    let empty = Seq::<u8>::empty();
    assert(frame_bytes(tag, body) + rest =~= empty + frame_bytes(tag, body) + rest);
    lemma_frame_round_trip(empty, tag, body, rest, 30_000);
}

/// A server that asks for a proof of identity is refused, and so is one whose
/// authentication message has an unknown code. Code five comes with a salt of
/// four bytes.
pub proof fn lemma_challenges_are_refused(
    code: nat,
    extra: Seq<u8>,
    rest: Seq<u8>,
    error: UpstreamError,
)
    requires
        0 < code < 0x8000_0000,
        8 + extra.len() <= 30_000,
        9 + extra.len() <= usize::MAX,
    ensures
        ({
            let body = postgres_upstream::be_bytes(code) + extra;
            let s = frame_bytes(0x52, body) + rest;
            postgres_upstream::handshake_fails(s, error) <==> error == (if code == 5
                && extra.len() < 4 {
                UpstreamError::InvalidFrameLength((8 + extra.len()) as i32)
            } else if code == 2 || code == 3 || code == 5 || code == 10 || code == 11 || code
                == 12 {
                UpstreamError::UnsupportedAuthentication
            } else {
                UpstreamError::Protocol(
                    ProtocolFault::InvalidAuthenticationMessageCode(code as i32),
                )
            })
        }),
{
    let empty = Seq::<u8>::empty();
    let body = postgres_upstream::be_bytes(code) + extra;
    let s = frame_bytes(0x52, body) + rest;
    lemma_be_bytes_are_digits(code);
    lemma_be_bytes_are_digits(4 + body.len());
    assert(s =~= empty + frame_bytes(0x52, body) + rest);
    lemma_frame_round_trip(empty, 0x52, body, rest, 30_000);
    let head = seq![0x52u8] + postgres_upstream::be_bytes(4 + body.len());
    assert(s =~= head + postgres_upstream::be_bytes(code) + (extra + rest));
    lemma_number_round_trip(head, code, extra + rest);
}

/// An authentication message too short for its code is refused with its length.
pub proof fn lemma_short_authentication_is_refused(
    body: Seq<u8>,
    rest: Seq<u8>,
    error: UpstreamError,
)
    requires
        body.len() < 4,
    ensures
        postgres_upstream::handshake_fails(frame_bytes(0x52, body) + rest, error) <==> error
            == UpstreamError::InvalidFrameLength((4 + body.len()) as i32),
{
    let empty = Seq::<u8>::empty();
    assert(frame_bytes(0x52, body) + rest =~= empty + frame_bytes(0x52, body) + rest);
    lemma_frame_round_trip(empty, 0x52, body, rest, 30_000);
}

/// What goes upstream is what the client sent, without the two parameters that
/// the proxy decides on, and nothing else.
pub proof fn lemma_forwarding_keeps_the_rest(client: Map<Seq<char>, Seq<char>>, key: Seq<char>)
    ensures
        postgres_upstream::forwarded(client).dom().contains(key) <==> client.dom().contains(key)
            && key != "database"@ && key != "replication"@,
        postgres_upstream::forwarded(client).dom().contains(key)
            ==> postgres_upstream::forwarded(client)[key] == client[key],
{
}

/// A startup message begins with its own length and the protocol version, holds
/// every name with its value behind it, each ended by a null byte, and ends with
/// one more.
pub proof fn lemma_startup_message_layout(
    names: Seq<Seq<char>>,
    parameters: Map<Seq<char>, Seq<char>>,
)
    requires
        postgres_upstream::startup_message(names, parameters).len() <= 10_000,
    ensures
        ({
            let message = postgres_upstream::startup_message(names, parameters);
            let n = message.len() as int;
            &&& unsigned(message[0], message[1], message[2], message[3]) == n
            &&& message.subrange(4, 8) == seq![0u8, 3, 0, 0]
            &&& message.last() == 0
            &&& message.subrange(8, n - 1) == postgres_upstream::parameter_bytes(
                names,
                parameters,
            )
        }),
{
    let pairs = postgres_upstream::parameter_bytes(names, parameters);
    let message = postgres_upstream::startup_message(names, parameters);
    lemma_be_bytes_are_digits(9 + pairs.len());
    let b = postgres_upstream::be_bytes(9 + pairs.len());
    assert(message[0] == b[0] && message[1] == b[1] && message[2] == b[2] && message[3] == b[3]);
    assert(message.subrange(4, 8) =~= seq![0u8, 3, 0, 0]);
    assert(message.subrange(8, message.len() - 1) =~= pairs);
}

/// A handshake that received a whole reply establishes the connection with
/// exactly the burst of that reply, whatever follows.
pub proof fn lemma_advance_on_a_reply(
    handshake: Handshake,
    extra: Seq<u8>,
    frames: Seq<(u8, Seq<u8>)>,
    tag: u8,
    body: Seq<u8>,
    rest: Seq<u8>,
    outcome: Result<HandshakeProgress, UpstreamError>,
)
    requires
        is_reply(extra, frames, tag, body),
        handshake@ == reply_bytes(extra, frames, tag, body) + rest,
        call_ensures(Handshake::advance, (handshake,), outcome),
    ensures
        outcome is Ok,
        outcome->Ok_0 is Established,
        outcome->Ok_0->Established_0.bytes@ == row_bytes(frames) + frame_bytes(tag, body),
        outcome->Ok_0->Established_0.ready == (tag == 0x5a),
{
    lemma_reply_establishes(extra, frames, tag, body, rest);
}

/// A handshake that received a part of a reply asks for more bytes, and not for
/// more than are missing, and keeps those that came.
pub proof fn lemma_advance_on_a_part(
    handshake: Handshake,
    extra: Seq<u8>,
    frames: Seq<(u8, Seq<u8>)>,
    tag: u8,
    body: Seq<u8>,
    n: int,
    outcome: Result<HandshakeProgress, UpstreamError>,
)
    requires
        is_reply(extra, frames, tag, body),
        0 <= n < reply_bytes(extra, frames, tag, body).len(),
        handshake@ == reply_bytes(extra, frames, tag, body).take(n),
        call_ensures(Handshake::advance, (handshake,), outcome),
    ensures
        outcome is Ok,
        outcome->Ok_0 is NeedsBytes,
        outcome->Ok_0->handshake@ == handshake@,
        0 < outcome->Ok_0->missing <= reply_bytes(extra, frames, tag, body).len() - n,
{
    let s = reply_bytes(extra, frames, tag, body);
    let part = s.take(n);
    lemma_broken_reply_is_pending(extra, frames, tag, body, n);
    if outcome is Err {
        postgres_upstream::lemma_handshake_outcomes_exclude_each_other(
            part,
            0,
            0,
            0,
            outcome->Err_0,
        );
    } else if outcome->Ok_0 is Established {
        let burst = outcome->Ok_0->Established_0;
        let (start, last) = choose|start: int, last: u8|
            postgres_upstream::is_burst(part, start, last, burst);
        postgres_upstream::lemma_handshake_outcomes_exclude_each_other(
            part,
            start,
            burst.bytes@.len() as int,
            last,
            UpstreamError::StartupRejected,
        );
    } else {
        lemma_reply_establishes(extra, frames, tag, body, Seq::empty());
        assert(s + Seq::<u8>::empty() =~= s);
        assert(part + s.skip(n) =~= s);
        assert(!postgres_upstream::handshake_pending(part + s.skip(n)));
    }
}

/// It does not matter in which pieces a reply arrives.
pub proof fn lemma_pieces_do_not_matter(
    begun: Handshake,
    chunk: &[u8],
    later: Handshake,
    other: &[u8],
    whole: Handshake,
    extra: Seq<u8>,
    frames: Seq<(u8, Seq<u8>)>,
    tag: u8,
    body: Seq<u8>,
    rest: Seq<u8>,
    progress: HandshakeProgress,
    outcome: Result<HandshakeProgress, UpstreamError>,
)
    requires
        is_reply(extra, frames, tag, body),
        chunk@ + other@ == reply_bytes(extra, frames, tag, body) + rest,
        chunk@.len() < reply_bytes(extra, frames, tag, body).len(),
        call_ensures(Handshake::new, (), begun),
        call_ensures(Handshake::receive, (begun, chunk), later),
        call_ensures(Handshake::advance, (later,), Ok(progress)),
        call_ensures(Handshake::receive, (progress->handshake, other), whole),
        call_ensures(Handshake::advance, (whole,), outcome),
    ensures
        progress is NeedsBytes,
        outcome is Ok,
        outcome->Ok_0 is Established,
        outcome->Ok_0->Established_0.bytes@ == row_bytes(frames) + frame_bytes(tag, body),
        outcome->Ok_0->Established_0.ready == (tag == 0x5a),
{
    let s = reply_bytes(extra, frames, tag, body);
    let n = chunk@.len() as int;
    assert(begun@ + chunk@ =~= chunk@);
    assert(chunk@ =~= (chunk@ + other@).take(n));
    assert((s + rest).take(n) =~= s.take(n));
    lemma_advance_on_a_part(later, extra, frames, tag, body, n, Ok(progress));
    lemma_advance_on_a_reply(whole, extra, frames, tag, body, rest, outcome);
}

/// A handshake that failed says what is wrong, and one that cannot fail does
/// not.
pub proof fn lemma_advance_on_a_refusal(
    handshake: Handshake,
    error: UpstreamError,
    outcome: Result<HandshakeProgress, UpstreamError>,
)
    requires
        call_ensures(Handshake::advance, (handshake,), outcome),
    ensures
        postgres_upstream::handshake_fails(handshake@, error) ==> outcome is Err,
        outcome is Err ==> postgres_upstream::handshake_fails(handshake@, outcome->Err_0),
{
    let s = handshake@;
    if postgres_upstream::handshake_fails(s, error) && outcome is Ok {
        if let HandshakeProgress::Established(burst) = outcome->Ok_0 {
            let (start, last) = choose|start: int, last: u8|
                postgres_upstream::is_burst(s, start, last, burst);
            postgres_upstream::lemma_handshake_outcomes_exclude_each_other(
                s,
                start,
                burst.bytes@.len() as int,
                last,
                error,
            );
        } else {
            postgres_upstream::lemma_handshake_outcomes_exclude_each_other(s, 0, 0, 0, error);
        }
    }
}

/// A server that answers the startup message with an error is a refusal, and one
/// that answers with anything but an authentication message breaks the protocol.
pub proof fn lemma_advance_on_another_answer(
    handshake: Handshake,
    tag: u8,
    body: Seq<u8>,
    rest: Seq<u8>,
    outcome: Result<HandshakeProgress, UpstreamError>,
)
    requires
        tag != 0x52,
        4 + body.len() <= 30_000,
        5 + body.len() <= usize::MAX,
        handshake@ == frame_bytes(tag, body) + rest,
        call_ensures(Handshake::advance, (handshake,), outcome),
    ensures
        outcome == Err::<HandshakeProgress, UpstreamError>(
            if tag == 0x45 {
                UpstreamError::StartupRejected
            } else {
                UpstreamError::UnexpectedMessage(tag)
            },
        ),
{
    let error = if tag == 0x45 {
        UpstreamError::StartupRejected
    } else {
        UpstreamError::UnexpectedMessage(tag)
    };
    lemma_other_answers_are_refused(tag, body, rest, error);
    lemma_advance_on_a_refusal(handshake, error, outcome);
    lemma_other_answers_are_refused(tag, body, rest, outcome->Err_0);
}

/// A server that asks for a proof of identity is told apart from one that sends
/// an unknown code; neither gets any further.
pub proof fn lemma_advance_on_a_challenge(
    handshake: Handshake,
    code: nat,
    extra: Seq<u8>,
    rest: Seq<u8>,
    outcome: Result<HandshakeProgress, UpstreamError>,
)
    requires
        0 < code < 0x8000_0000,
        code == 5 ==> extra.len() >= 4,
        8 + extra.len() <= 30_000,
        9 + extra.len() <= usize::MAX,
        handshake@ == frame_bytes(0x52, postgres_upstream::be_bytes(code) + extra) + rest,
        call_ensures(Handshake::advance, (handshake,), outcome),
    ensures
        outcome == Err::<HandshakeProgress, UpstreamError>(
            if code == 2 || code == 3 || code == 5 || code == 10 || code == 11 || code == 12 {
                UpstreamError::UnsupportedAuthentication
            } else {
                UpstreamError::Protocol(
                    ProtocolFault::InvalidAuthenticationMessageCode(code as i32),
                )
            },
        ),
{
    let error = if code == 2 || code == 3 || code == 5 || code == 10 || code == 11 || code == 12 {
        UpstreamError::UnsupportedAuthentication
    } else {
        UpstreamError::Protocol(ProtocolFault::InvalidAuthenticationMessageCode(code as i32))
    };
    lemma_challenges_are_refused(code, extra, rest, error);
    lemma_advance_on_a_refusal(handshake, error, outcome);
    lemma_challenges_are_refused(code, extra, rest, outcome->Err_0);
}

/// What opens an upstream connection begins with its own length and the protocol
/// version and lists the parameters of the connection in order; one that would be
/// too long is refused with its length.
pub proof fn lemma_startup_requests(
    db_name: &str,
    client: StartupParams,
    r: Result<BytesMut, UpstreamError>,
)
    requires
        call_ensures(postgres_upstream::startup_request, (db_name, &client), r),
    ensures
        ({
            let parameters = postgres_upstream::upstream_parameters(client@, db_name@);
            &&& r is Ok ==> {
                let message = buffer::held(r->Ok_0);
                let n = message.len() as int;
                &&& 9 <= n <= 10_000
                &&& unsigned(message[0], message[1], message[2], message[3]) == n
                &&& message.subrange(4, 8) == seq![0u8, 3, 0, 0]
                &&& message.last() == 0
                &&& exists|names: Seq<Seq<char>>| #[trigger]
                    postgres_upstream::is_name_order(names, parameters) && message.subrange(
                        8,
                        n - 1,
                    ) == postgres_upstream::parameter_bytes(names, parameters)
            }
            &&& r is Err ==> r->Err_0 is Protocol && r->Err_0->Protocol_0 is MessageTooLarge
                && r->Err_0->Protocol_0->max == 10_000 && r->Err_0->Protocol_0->length > 10_000
        }),
{
    let parameters = postgres_upstream::upstream_parameters(client@, db_name@);
    if r is Ok {
        let message = buffer::held(r->Ok_0);
        let names = choose|names: Seq<Seq<char>>| #[trigger]
            postgres_upstream::is_startup(parameters, names, message);
        lemma_startup_message_layout(names, parameters);
        assert(postgres_upstream::is_name_order(names, parameters));
    }
}

/// Parameters are written one behind the other, each as its name, a null byte,
/// its value and a null byte.
pub proof fn lemma_parameters_are_listed(
    names: Seq<Seq<char>>,
    name: Seq<char>,
    parameters: Map<Seq<char>, Seq<char>>,
)
    ensures
        postgres_upstream::parameter_bytes(Seq::empty(), parameters).len() == 0,
        postgres_upstream::parameter_bytes(names.push(name), parameters)
            == postgres_upstream::parameter_bytes(names, parameters) + encode_utf8(name)
            + seq![0u8] + encode_utf8(parameters[name]) + seq![0u8],
{
    assert(names.push(name).drop_last() =~= names);
    assert(postgres_upstream::parameter_bytes(names.push(name), parameters)
        =~= postgres_upstream::parameter_bytes(names, parameters) + encode_utf8(name) + seq![0u8]
        + encode_utf8(parameters[name]) + seq![0u8]);
}

/// A client's parameters go upstream as they are, but for the two that the proxy
/// decides on.
pub proof fn lemma_forwardable_parameters(
    client: StartupParams,
    kept: StartupParams,
    key: Seq<char>,
)
    requires
        call_ensures(postgres_upstream::forwardable, (&client,), kept),
    ensures
        kept@.dom().contains(key) <==> client@.dom().contains(key) && key != "database"@ && key
            != "replication"@,
        kept@.dom().contains(key) ==> kept@[key] == client@[key],
{
    lemma_forwarding_keeps_the_rest(client@, key);
}

/// A host that begins with a slash is a directory of sockets, in which the socket
/// of a port is named after it.
pub proof fn lemma_socket_files(host: &str, unix: bool, port: u16, name: String)
    requires
        call_ensures(postgres_upstream::is_socket_directory, (host,), unix),
        call_ensures(postgres_upstream::socket_file_name, (port,), name),
    ensures
        unix <==> host@.len() > 0 && host@[0] == '/',
        name@.len() > 9,
        name@.take(9) == ".s.PGSQL."@,
        text::number(name@.skip(9)) == port,
{
    reveal_strlit(".s.PGSQL.");
    text::lemma_decimal_is_read_back(port as nat);
    assert(name@.take(9) =~= ".s.PGSQL."@);
    assert(name@.skip(9) =~= text::decimal(port as nat));
}

/// A spare is idle if there is nothing to read on it, and only then.
pub proof fn lemma_idle_probes(probe: ReadProbe, idle: bool)
    requires
        call_ensures(postgres_upstream::is_idle, (probe,), idle),
    ensures
        probe == ReadProbe::WouldBlock ==> idle,
        probe == ReadProbe::Readable || probe == ReadProbe::Failed ==> !idle,
{
}

/// Reading finds every frame that a server may write, with its tag and its end,
/// and nothing less.
pub proof fn lemma_reading_a_frame(
    stream: &[u8],
    before: Seq<u8>,
    tag: u8,
    body: Seq<u8>,
    rest: Seq<u8>,
    cursor: usize,
    max: usize,
    r: Result<FrameProgress, UpstreamError>,
)
    requires
        4 + body.len() <= max <= i32::MAX,
        cursor == before.len(),
        before.len() + 5 + body.len() <= usize::MAX,
        stream@ == before + frame_bytes(tag, body) + rest,
        call_ensures(postgres_upstream::read_frame, (stream, cursor, max), r),
    ensures
        r == Ok::<FrameProgress, UpstreamError>(
            FrameProgress::Whole { tag, end: (before.len() + 5 + body.len()) as usize },
        ),
{
    lemma_frame_round_trip(before, tag, body, rest, max as int);
    assert(stream@ + Seq::<u8>::empty() =~= stream@);
}

} // verus!
