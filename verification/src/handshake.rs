//! The handshake packet: the first thing a client sends, and what the relay
//! sends on in its place.
//!
//! On the wire a handshake is a frame length, then the packet id 0, the
//! protocol version, the host name and port that the client believes it is
//! talking to, and the state it wants to enter next.

use vstd::prelude::*;
use vstd::slice::slice_subrange;
use vstd::utf8::encode_utf8;
use crate::error::ProtocolError;
use crate::routing::BackendAddress;
use crate::varint::{
    decode_varint,
    encode_varint,
    lemma_decode_varint_prefix,
    lemma_varint_roundtrip,
    read_varint,
    write_varint,
};
use crate::wire::{
    decode_string,
    decode_u16,
    encode_string,
    encode_u16,
    lemma_string_roundtrip,
    lemma_u16_roundtrip,
    read_bigendian_u16,
    read_string,
    write_bigendian_u16,
    write_string,
};

verus! {

/// The frame length that gives away a client older than the framed protocol.
pub const LEGACY_PING_LENGTH: i32 = 510;

/// The packet id of a handshake.
pub const HANDSHAKE_PACKET_ID: i32 = 0;

/// What the client wants to do once the handshake is through.
#[derive(Clone, Copy, Debug, PartialEq, Eq, Structural)]
pub enum NextState {
    Status,
    Login,
}

impl NextState {
    /// The number that stands for this state on the wire.
    pub open spec fn spec_selector(self) -> i32 {
        match self {
            NextState::Status => 1,
            NextState::Login => 2,
        }
    }

    /// The number that stands for this state on the wire.
    #[verifier::when_used_as_spec(spec_selector)]
    pub fn selector(self) -> (code: i32)
        ensures
            code == self.spec_selector(),
    {
        match self {
            NextState::Status => 1,
            NextState::Login => 2,
        }
    }

    /// The state that `code` stands for, if it stands for one.
    pub fn from_selector(code: i32) -> (state: Option<NextState>)
        ensures
            state == next_state_of(code),
    {
        if code == 1 {
            Some(NextState::Status)
        } else if code == 2 {
            Some(NextState::Login)
        } else {
            None
        }
    }
}

/// The state that `code` stands for on the wire, if it stands for one.
pub open spec fn next_state_of(code: i32) -> Option<NextState> {
    if code == 1 {
        Some(NextState::Status)
    } else if code == 2 {
        Some(NextState::Login)
    } else {
        None
    }
}

/// A parsed handshake.
#[derive(Clone, Debug, PartialEq, Eq)]
pub struct HandshakeRecord {
    /// Opaque to the relay; passed on as it came.
    pub protocol_version: i32,
    /// The host the client believes it is connecting to.
    pub hostname: String,
    /// The port the client believes it is connecting to.
    pub port: u16,
    pub next_state: NextState,
}

/// A handshake as a mathematical value.
pub struct HandshakeView {
    pub protocol_version: i32,
    pub hostname: Seq<char>,
    pub port: u16,
    pub next_state: NextState,
}

impl View for HandshakeRecord {
    type V = HandshakeView;

    open spec fn view(&self) -> HandshakeView {
        HandshakeView {
            protocol_version: self.protocol_version,
            hostname: self.hostname@,
            port: self.port,
            next_state: self.next_state,
        }
    }
}

/// The frame length and the packet id at the front of `s`: how many bytes
/// they take, once both are in order.
///
/// The frame length is looked at for one thing only, the value 510. It does
/// not bound the fields that follow.
pub open spec fn decode_header(s: Seq<u8>) -> Result<nat, ProtocolError> {
    match decode_varint(s) {
        Err(e) => Err(e),
        Ok((frame_len, used)) => {
            if frame_len == LEGACY_PING_LENGTH {
                Err(ProtocolError::LegacyPingUnsupported)
            } else {
                match decode_varint(s.skip(used as int)) {
                    Err(e) => Err(e),
                    Ok((packet_id, more)) => {
                        if packet_id != HANDSHAKE_PACKET_ID {
                            Err(ProtocolError::UnexpectedPacketId)
                        } else {
                            Ok(used + more)
                        }
                    },
                }
            }
        },
    }
}

/// The protocol version, host name and port at the front of `s`.
pub open spec fn decode_target(s: Seq<u8>) -> Result<((i32, Seq<char>, u16), nat), ProtocolError> {
    match decode_varint(s) {
        Err(e) => Err(e),
        Ok((version, a)) => match decode_string(s.skip(a as int)) {
            Err(e) => Err(e),
            Ok((host, b)) => match decode_u16(s.skip((a + b) as int)) {
                Err(e) => Err(e),
                Ok((port, c)) => Ok(((version, host, port), a + b + c)),
            },
        },
    }
}

/// The next-state selector at the front of `s`.
pub open spec fn decode_next_state(s: Seq<u8>) -> Result<(NextState, nat), ProtocolError> {
    match decode_varint(s) {
        Err(e) => Err(e),
        Ok((code, used)) => match next_state_of(code) {
            Some(state) => Ok((state, used)),
            None => Err(ProtocolError::InvalidNextState),
        },
    }
}

/// What reading one handshake from the front of `s` gives: the handshake and
/// the count of bytes it took, or the first thing that is wrong with `s`.
pub open spec fn decode_handshake(s: Seq<u8>) -> Result<(HandshakeView, nat), ProtocolError> {
    match decode_header(s) {
        Err(e) => Err(e),
        Ok(a) => match decode_target(s.skip(a as int)) {
            Err(e) => Err(e),
            Ok(((version, host, port), b)) => match decode_next_state(s.skip((a + b) as int)) {
                Err(e) => Err(e),
                Ok((state, c)) => Ok(
                    (
                        HandshakeView {
                            protocol_version: version,
                            hostname: host,
                            port,
                            next_state: state,
                        },
                        a + b + c,
                    ),
                ),
            },
        },
    }
}

/// Reads one handshake packet from the front of `input`, the bytes that have
/// arrived from a client so far.
///
/// Returns the handshake and how many bytes it took. `Truncated` says how
/// many more bytes have to arrive before the next field can be read; every
/// other error is final.
pub fn read_handshake(input: &[u8]) -> (r: Result<(HandshakeRecord, usize), ProtocolError>)
    ensures
        match decode_handshake(input@) {
            Ok((handshake, n)) => r matches Ok((record, used)) && record@ == handshake && used
                == n,
            Err(e) => r matches Err(err) && err == e,
        },
{
    let end = input.len();
    let (frame_len, mut pos) = read_varint(input)?;
    if frame_len == LEGACY_PING_LENGTH {
        return Err(ProtocolError::LegacyPingUnsupported);
    }
    let (packet_id, used) = read_varint(slice_subrange(input, pos, end))?;
    if packet_id != HANDSHAKE_PACKET_ID {
        return Err(ProtocolError::UnexpectedPacketId);
    }
    pos = pos + used;
    let ghost header = pos;
    let (protocol_version, used) = read_varint(slice_subrange(input, pos, end))?;
    pos = pos + used;
    proof {
        assert(input@.skip(header as int).skip(used as int) =~= input@.skip(pos as int));
    }
    let (hostname, used) = read_string(slice_subrange(input, pos, end))?;
    pos = pos + used;
    proof {
        assert(input@.skip(header as int).skip(pos - header) =~= input@.skip(pos as int));
    }
    let (port, used) = read_bigendian_u16(slice_subrange(input, pos, end))?;
    pos = pos + used;
    let (code, used) = read_varint(slice_subrange(input, pos, end))?;
    let next_state = match NextState::from_selector(code) {
        Some(state) => state,
        None => {
            return Err(ProtocolError::InvalidNextState);
        },
    };
    Ok((HandshakeRecord { protocol_version, hostname, port, next_state }, pos + used))
}

/// The body of the handshake that is sent on to a backend: everything but the
/// frame length.
pub open spec fn encode_handshake_body(
    version: i32,
    host: Seq<char>,
    port: u16,
    state: NextState,
) -> Seq<u8> {
    encode_varint(HANDSHAKE_PACKET_ID as nat) + encode_varint(version as nat) + encode_string(host)
        + encode_u16(port) + encode_varint(state.spec_selector() as nat)
}

/// The framed handshake: the length of the body in bytes, then the body.
pub open spec fn encode_handshake(
    version: i32,
    host: Seq<char>,
    port: u16,
    state: NextState,
) -> Seq<u8> {
    let body = encode_handshake_body(version, host, port, state);
    encode_varint(body.len()) + body
}

/// Whether a handshake with these fields can be written: the version and
/// both lengths have to be numbers that the format can carry.
pub open spec fn handshake_encodable(
    version: i32,
    host: Seq<char>,
    port: u16,
    state: NextState,
) -> bool {
    &&& version >= 0
    &&& encode_utf8(host).len() <= i32::MAX
    &&& encode_handshake_body(version, host, port, state).len() <= i32::MAX
}

/// Builds the handshake that goes to `backend` in place of the one the
/// client sent: the client's protocol version and next state, the backend's
/// host and port.
pub fn rewrite_handshake(record: &HandshakeRecord, backend: &BackendAddress) -> (r: Result<
    Vec<u8>,
    ProtocolError,
>)
    ensures
        if handshake_encodable(
            record.protocol_version,
            backend.host@,
            backend.port,
            record.next_state,
        ) {
            r matches Ok(frame) && frame@ == encode_handshake(
                record.protocol_version,
                backend.host@,
                backend.port,
                record.next_state,
            )
        } else {
            r matches Err(e) && e == ProtocolError::VarIntTooLarge
        },
{
    let mut body: Vec<u8> = Vec::new();
    write_varint(&mut body, HANDSHAKE_PACKET_ID)?;
    write_varint(&mut body, record.protocol_version)?;
    write_string(&mut body, backend.host.as_str())?;
    write_bigendian_u16(&mut body, backend.port);
    write_varint(&mut body, record.next_state.selector())?;
    proof {
        assert(body@ =~= encode_handshake_body(
            record.protocol_version,
            backend.host@,
            backend.port,
            record.next_state,
        ));
    }
    if body.len() > i32::MAX as usize {
        return Err(ProtocolError::VarIntTooLarge);
    }
    let mut frame: Vec<u8> = Vec::new();
    write_varint(&mut frame, body.len() as i32)?;
    frame.extend_from_slice(body.as_slice());
    proof {
        assert(frame@ =~= encode_varint(body@.len()) + body@);
    }
    Ok(frame)
}

/// A stream that opens with the number 510 is refused as a legacy ping, and
/// on the strength of that number alone: the verdict is already reached on
/// the bytes of the number, so that nothing after them is ever asked for.
pub proof fn lemma_legacy_ping_refused(s: Seq<u8>, used: nat)
    requires
        decode_varint(s) == Ok::<(i32, nat), ProtocolError>((LEGACY_PING_LENGTH, used)),
    ensures
        decode_handshake(s) == Err::<(HandshakeView, nat), ProtocolError>(
            ProtocolError::LegacyPingUnsupported,
        ),
        decode_handshake(s.take(used as int)) == Err::<(HandshakeView, nat), ProtocolError>(
            ProtocolError::LegacyPingUnsupported,
        ),
{
    let front = s.take(used as int);
    assert(front.take(used as int) =~= front);
    lemma_decode_varint_prefix(s, front);
}

/// A first packet whose id is not 0 is refused, whatever follows the id.
pub proof fn lemma_unexpected_packet_id(s: Seq<u8>, frame_len: i32, used: nat, id: i32, more: nat)
    requires
        decode_varint(s) == Ok::<(i32, nat), ProtocolError>((frame_len, used)),
        frame_len != LEGACY_PING_LENGTH,
        decode_varint(s.skip(used as int)) == Ok::<(i32, nat), ProtocolError>((id, more)),
        id != HANDSHAKE_PACKET_ID,
    ensures
        decode_handshake(s) == Err::<(HandshakeView, nat), ProtocolError>(
            ProtocolError::UnexpectedPacketId,
        ),
{
}

/// A handshake that is in order up to its last field is refused where that
/// field holds anything but 1 or 2.
pub proof fn lemma_invalid_next_state(
    s: Seq<u8>,
    header: nat,
    target: (i32, Seq<char>, u16),
    used: nat,
    code: i32,
    more: nat,
)
    requires
        decode_header(s) == Ok::<nat, ProtocolError>(header),
        decode_target(s.skip(header as int)) == Ok::<((i32, Seq<char>, u16), nat), ProtocolError>(
            (target, used),
        ),
        decode_varint(s.skip((header + used) as int)) == Ok::<(i32, nat), ProtocolError>(
            (code, more),
        ),
        code != 1,
        code != 2,
    ensures
        decode_handshake(s) == Err::<(HandshakeView, nat), ProtocolError>(
            ProtocolError::InvalidNextState,
        ),
{
}

/// The front of a built frame reads back as a header in order.
proof fn lemma_header_roundtrip(body_len: i32, tail: Seq<u8>)
    requires
        body_len >= 0,
        body_len != LEGACY_PING_LENGTH,
    ensures
        decode_header(
            encode_varint(body_len as nat) + (encode_varint(HANDSHAKE_PACKET_ID as nat) + tail),
        ) == Ok::<nat, ProtocolError>(
            encode_varint(body_len as nat).len() + encode_varint(HANDSHAKE_PACKET_ID as nat).len(),
        ),
{
    let len = encode_varint(body_len as nat);
    let id = encode_varint(HANDSHAKE_PACKET_ID as nat);
    let s = len + (id + tail);
    lemma_varint_roundtrip(body_len, id + tail);
    assert(s.skip(len.len() as int) =~= id + tail);
    lemma_varint_roundtrip(HANDSHAKE_PACKET_ID, tail);
}

/// A written version, host and port read back as they were.
proof fn lemma_target_roundtrip(version: i32, host: Seq<char>, port: u16, tail: Seq<u8>)
    requires
        version >= 0,
        encode_utf8(host).len() <= i32::MAX,
    ensures
        decode_target(
            encode_varint(version as nat) + (encode_string(host) + (encode_u16(port) + tail)),
        ) == Ok::<((i32, Seq<char>, u16), nat), ProtocolError>(
            (
                (version, host, port),
                encode_varint(version as nat).len() + encode_string(host).len() + 2,
            ),
        ),
{
    let ver = encode_varint(version as nat);
    let name = encode_string(host);
    let prt = encode_u16(port);
    let s = ver + (name + (prt + tail));
    lemma_varint_roundtrip(version, name + (prt + tail));
    assert(s.skip(ver.len() as int) =~= name + (prt + tail));
    lemma_string_roundtrip(host, prt + tail);
    assert(s.skip((ver.len() + name.len()) as int) =~= prt + tail);
    lemma_u16_roundtrip(port, tail);
}

/// A written next state reads back as it was.
proof fn lemma_next_state_roundtrip(state: NextState, rest: Seq<u8>)
    ensures
        decode_next_state(encode_varint(state.spec_selector() as nat) + rest) == Ok::<
            (NextState, nat),
            ProtocolError,
        >((state, encode_varint(state.spec_selector() as nat).len())),
{
    lemma_varint_roundtrip(state.spec_selector(), rest);
}

/// How a frame of six pieces, with anything after it, falls apart again
/// when it is read from the front.
proof fn lemma_frame_layout(
    len: Seq<u8>,
    id: Seq<u8>,
    ver: Seq<u8>,
    name: Seq<u8>,
    prt: Seq<u8>,
    sel: Seq<u8>,
    rest: Seq<u8>,
)
    ensures
        (len + (id + ver + name + prt + sel)) + rest == len + (id + (ver + (name + (prt + (sel
            + rest))))),
        (len + (id + (ver + (name + (prt + (sel + rest)))))).skip((len.len() + id.len()) as int)
            == ver + (name + (prt + (sel + rest))),
        (len + (id + (ver + (name + (prt + (sel + rest)))))).skip(
            (len.len() + id.len() + (ver.len() + name.len() + prt.len())) as int,
        ) == sel + rest,
        (len + (id + ver + name + prt + sel)).len() == len.len() + id.len() + (ver.len()
            + name.len() + prt.len()) + sel.len(),
{
    let s = len + (id + (ver + (name + (prt + (sel + rest)))));
    assert((len + (id + ver + name + prt + sel)) + rest =~= s);
    assert(s.skip((len.len() + id.len()) as int) =~= ver + (name + (prt + (sel + rest))));
    assert(s.skip((len.len() + id.len() + (ver.len() + name.len() + prt.len())) as int) =~= sel
        + rest);
}

/// A stream whose three parts read in order reads as a handshake.
proof fn lemma_handshake_from_parts(
    s: Seq<u8>,
    header: nat,
    target: (i32, Seq<char>, u16),
    used: nat,
    state: NextState,
    more: nat,
)
    requires
        decode_header(s) == Ok::<nat, ProtocolError>(header),
        decode_target(s.skip(header as int)) == Ok::<((i32, Seq<char>, u16), nat), ProtocolError>(
            (target, used),
        ),
        decode_next_state(s.skip((header + used) as int)) == Ok::<(NextState, nat), ProtocolError>(
            (state, more),
        ),
    ensures
        decode_handshake(s) == Ok::<(HandshakeView, nat), ProtocolError>(
            (
                HandshakeView {
                    protocol_version: target.0,
                    hostname: target.1,
                    port: target.2,
                    next_state: state,
                },
                header + used + more,
            ),
        ),
{
}

/// A stream reads as a handshake when it is made of a header, a target and
/// a next state, each of which reads back from where it stands.
proof fn lemma_handshake_from_pieces(
    len: Seq<u8>,
    id: Seq<u8>,
    ver: Seq<u8>,
    name: Seq<u8>,
    prt: Seq<u8>,
    sel: Seq<u8>,
    rest: Seq<u8>,
    target: (i32, Seq<char>, u16),
    state: NextState,
)
    requires
        decode_header(len + (id + (ver + (name + (prt + (sel + rest)))))) == Ok::<
            nat,
            ProtocolError,
        >(len.len() + id.len()),
        decode_target(ver + (name + (prt + (sel + rest)))) == Ok::<
            ((i32, Seq<char>, u16), nat),
            ProtocolError,
        >((target, ver.len() + name.len() + prt.len())),
        decode_next_state(sel + rest) == Ok::<(NextState, nat), ProtocolError>(
            (state, sel.len()),
        ),
    ensures
        decode_handshake((len + (id + ver + name + prt + sel)) + rest) == Ok::<
            (HandshakeView, nat),
            ProtocolError,
        >(
            (
                HandshakeView {
                    protocol_version: target.0,
                    hostname: target.1,
                    port: target.2,
                    next_state: state,
                },
                (len + (id + ver + name + prt + sel)).len(),
            ),
        ),
{
    lemma_frame_layout(len, id, ver, name, prt, sel, rest);
    lemma_handshake_from_parts(
        len + (id + (ver + (name + (prt + (sel + rest))))),
        len.len() + id.len(),
        target,
        ver.len() + name.len() + prt.len(),
        state,
        sel.len(),
    );
}

/// What `rewrite_handshake` builds reads back as a handshake with the very
/// fields that went in, and takes exactly the bytes that were built,
/// whatever follows them.
///
/// One body length is left out: a body of 510 bytes is framed with the
/// number that marks a legacy ping, and a reader refuses it.
pub proof fn lemma_handshake_roundtrip(
    version: i32,
    host: Seq<char>,
    port: u16,
    state: NextState,
    rest: Seq<u8>,
)
    requires
        handshake_encodable(version, host, port, state),
        encode_handshake_body(version, host, port, state).len() != LEGACY_PING_LENGTH,
    ensures
        decode_handshake(encode_handshake(version, host, port, state) + rest) == Ok::<
            (HandshakeView, nat),
            ProtocolError,
        >(
            (
                HandshakeView { protocol_version: version, hostname: host, port, next_state: state },
                encode_handshake(version, host, port, state).len(),
            ),
        ),
{
    let id = encode_varint(HANDSHAKE_PACKET_ID as nat);
    let ver = encode_varint(version as nat);
    let name = encode_string(host);
    let prt = encode_u16(port);
    let sel = encode_varint(state.spec_selector() as nat);
    let body = encode_handshake_body(version, host, port, state);
    let len = encode_varint(body.len());

    lemma_header_roundtrip(body.len() as i32, ver + (name + (prt + (sel + rest))));
    lemma_target_roundtrip(version, host, port, sel + rest);
    lemma_next_state_roundtrip(state, rest);
    lemma_handshake_from_pieces(len, id, ver, name, prt, sel, rest, (version, host, port), state);
}

} // verus!
