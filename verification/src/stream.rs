//! Reading from a stream that arrives in pieces.
//!
//! The readers of this crate are handed the bytes that have arrived so far
//! and are asked again when more have come. The laws here say why that is
//! sound: a verdict, once reached, is not changed by later bytes; a reader
//! that asks for `needed` bytes reaches no verdict on fewer; and a value
//! that was read depends on its own bytes alone. A caller that reads exactly
//! what it is asked for therefore takes from the stream the bytes of the
//! handshake and not one more.

use vstd::prelude::*;
use crate::error::ProtocolError;
use crate::handshake::{decode_handshake, decode_header, decode_next_state, decode_target};
use crate::varint::{
    continuation_run,
    decode_varint,
    lemma_continuation_run,
    lemma_decode_varint_prefix,
};
use crate::wire::{decode_string, decode_u16};

verus! {

/// How the answer on an input that has grown by `added` bytes relates to the
/// answer before: a verdict stands, and a demand for bytes is reduced by what
/// has come, as long as that is less than was asked for.
pub open spec fn continues<R>(
    short: Result<R, ProtocolError>,
    long: Result<R, ProtocolError>,
    added: nat,
) -> bool {
    match short {
        Err(ProtocolError::Truncated { needed }) => needed >= 1 && (added < needed ==> long
            == Err::<R, ProtocolError>(
            ProtocolError::Truncated { needed: (needed - added) as usize },
        )),
        _ => long == short,
    }
}

proof fn lemma_skip_of_longer(s: Seq<u8>, t: Seq<u8>, a: nat)
    requires
        a <= s.len(),
    ensures
        (s + t).skip(a as int) == s.skip(a as int) + t,
{
    assert((s + t).skip(a as int) =~= s.skip(a as int) + t);
}

proof fn lemma_skip_of_shorter(s: Seq<u8>, n: nat, a: nat)
    requires
        a <= n <= s.len(),
    ensures
        s.take(n as int).skip(a as int) == s.skip(a as int).take(n - a),
        s.take(n as int) == s.take(a as int) + s.subrange(a as int, n as int),
{
    assert(s.take(n as int).skip(a as int) =~= s.skip(a as int).take(n - a));
    assert(s.take(n as int) =~= s.take(a as int) + s.subrange(a as int, n as int));
}

/// The bytes of a run of continuation bytes.
proof fn lemma_run_bytes(s: Seq<u8>, i: nat)
    requires
        i <= continuation_run(s),
    ensures
        i <= s.len(),
        forall|j: int| 0 <= j < i ==> s[j] >= 0x80,
    decreases i,
{
    if i > 0 {
        let rest = s.drop_first();
        lemma_run_bytes(rest, (i - 1) as nat);
        assert forall|j: int| 0 <= j < i implies s[j] >= 0x80 by {
            if j > 0 {
                assert(s[j] == rest[j - 1]);
            }
        }
    }
}

/// More bytes do not change what a variable-length integer reads as.
pub proof fn lemma_varint_continues(s: Seq<u8>, t: Seq<u8>)
    ensures
        continues(decode_varint(s), decode_varint(s + t), t.len()),
{
    match decode_varint(s) {
        Ok((v, n)) => {
            assert((s + t).take(n as int) =~= s.take(n as int));
            lemma_decode_varint_prefix(s, s + t);
        },
        Err(ProtocolError::Truncated { needed }) => {
            if t.len() == 0 {
                assert(s + t =~= s);
            }
        },
        Err(_) => {
            lemma_run_bytes(s, 5);
            assert forall|j: int| 0 <= j < 5 implies (s + t)[j] >= 0x80 by {
                assert((s + t)[j] == s[j]);
            }
            lemma_continuation_run(s + t, 5);
        },
    }
}

/// A variable-length integer lies within the input and depends on its own
/// bytes alone.
pub proof fn lemma_varint_own_bytes(s: Seq<u8>, n: nat)
    requires
        decode_varint(s) is Ok,
        decode_varint(s).unwrap().1 <= n <= s.len(),
    ensures
        1 <= decode_varint(s).unwrap().1 <= 5,
        decode_varint(s).unwrap().1 <= s.len(),
        decode_varint(s.take(n as int)) == decode_varint(s),
{
    let used = decode_varint(s).unwrap().1;
    assert(s.take(n as int).take(used as int) =~= s.take(used as int));
    lemma_decode_varint_prefix(s, s.take(n as int));
}

/// More bytes do not change what a 16-bit integer reads as.
pub proof fn lemma_u16_continues(s: Seq<u8>, t: Seq<u8>)
    ensures
        continues(decode_u16(s), decode_u16(s + t), t.len()),
{
    if s.len() >= 2 {
        assert((s + t)[0] == s[0] && (s + t)[1] == s[1]);
    }
}

/// A 16-bit integer lies within the input and depends on its own bytes
/// alone.
pub proof fn lemma_u16_own_bytes(s: Seq<u8>, n: nat)
    requires
        decode_u16(s) is Ok,
        2 <= n <= s.len(),
    ensures
        decode_u16(s).unwrap().1 == 2,
        decode_u16(s.take(n as int)) == decode_u16(s),
{
    assert(s.take(n as int)[0] == s[0] && s.take(n as int)[1] == s[1]);
}

/// More bytes do not change what a string reads as.
pub proof fn lemma_string_continues(s: Seq<u8>, t: Seq<u8>)
    ensures
        continues(decode_string(s), decode_string(s + t), t.len()),
{
    lemma_varint_continues(s, t);
    match decode_varint(s) {
        Ok((len, used)) => {
            lemma_varint_own_bytes(s, s.len());
            if len >= 0 && s.len() >= used + len {
                assert((s + t).subrange(used as int, used + len) =~= s.subrange(
                    used as int,
                    used + len,
                ));
            }
        },
        Err(_) => {},
    }
}

/// A string lies within the input and depends on its own bytes alone.
pub proof fn lemma_string_own_bytes(s: Seq<u8>, n: nat)
    requires
        decode_string(s) is Ok,
        decode_string(s).unwrap().1 <= n <= s.len(),
    ensures
        decode_string(s).unwrap().1 <= s.len(),
        decode_string(s.take(n as int)) == decode_string(s),
{
    let (len, used) = decode_varint(s).unwrap();
    lemma_varint_own_bytes(s, n);
    assert(s.take(n as int).subrange(used as int, used + len) =~= s.subrange(
        used as int,
        used + len,
    ));
}

/// More bytes do not change what a header reads as.
pub proof fn lemma_header_continues(s: Seq<u8>, t: Seq<u8>)
    ensures
        continues(decode_header(s), decode_header(s + t), t.len()),
{
    lemma_varint_continues(s, t);
    match decode_varint(s) {
        Ok((frame_len, used)) => {
            lemma_varint_own_bytes(s, s.len());
            lemma_skip_of_longer(s, t, used);
            lemma_varint_continues(s.skip(used as int), t);
        },
        Err(_) => {},
    }
}

/// A header lies within the input and depends on its own bytes alone.
pub proof fn lemma_header_own_bytes(s: Seq<u8>, n: nat)
    requires
        decode_header(s) is Ok,
        decode_header(s).unwrap() <= n <= s.len(),
    ensures
        decode_header(s).unwrap() <= s.len(),
        decode_header(s.take(n as int)) == decode_header(s),
{
    let used = decode_varint(s).unwrap().1;
    let rest = s.skip(used as int);
    lemma_varint_own_bytes(s, s.len());
    lemma_varint_own_bytes(rest, rest.len());
    lemma_varint_own_bytes(s, n);
    lemma_skip_of_shorter(s, n, used);
    lemma_varint_own_bytes(rest, (n - used) as nat);
}

/// More bytes do not change what a version, host and port read as.
pub proof fn lemma_target_continues(s: Seq<u8>, t: Seq<u8>)
    ensures
        continues(decode_target(s), decode_target(s + t), t.len()),
{
    lemma_varint_continues(s, t);
    match decode_varint(s) {
        Ok((version, a)) => {
            lemma_varint_own_bytes(s, s.len());
            lemma_skip_of_longer(s, t, a);
            lemma_string_continues(s.skip(a as int), t);
            match decode_string(s.skip(a as int)) {
                Ok((host, b)) => {
                    lemma_string_own_bytes(s.skip(a as int), (s.len() - a) as nat);
                    lemma_skip_of_longer(s, t, a + b);
                    lemma_u16_continues(s.skip((a + b) as int), t);
                },
                Err(_) => {},
            }
        },
        Err(_) => {},
    }
}

/// A version, host and port lie within the input and depend on their own
/// bytes alone.
pub proof fn lemma_target_own_bytes(s: Seq<u8>, n: nat)
    requires
        decode_target(s) is Ok,
        decode_target(s).unwrap().1 <= n <= s.len(),
    ensures
        decode_target(s).unwrap().1 <= s.len(),
        decode_target(s.take(n as int)) == decode_target(s),
{
    let a = decode_varint(s).unwrap().1;
    let s1 = s.skip(a as int);
    lemma_varint_own_bytes(s, s.len());
    let b = decode_string(s1).unwrap().1;
    let s2 = s.skip((a + b) as int);
    lemma_string_own_bytes(s1, s1.len());
    lemma_varint_own_bytes(s, n);
    lemma_skip_of_shorter(s, n, a);
    lemma_string_own_bytes(s1, (n - a) as nat);
    lemma_skip_of_shorter(s, n, a + b);
    lemma_u16_own_bytes(s2, (n - a - b) as nat);
}

/// More bytes do not change what a next state reads as.
pub proof fn lemma_next_state_continues(s: Seq<u8>, t: Seq<u8>)
    ensures
        continues(decode_next_state(s), decode_next_state(s + t), t.len()),
{
    lemma_varint_continues(s, t);
}

/// A next state lies within the input and depends on its own bytes alone.
pub proof fn lemma_next_state_own_bytes(s: Seq<u8>, n: nat)
    requires
        decode_next_state(s) is Ok,
        decode_next_state(s).unwrap().1 <= n <= s.len(),
    ensures
        decode_next_state(s).unwrap().1 <= s.len(),
        decode_next_state(s.take(n as int)) == decode_next_state(s),
{
    lemma_varint_own_bytes(s, n);
}

/// Bytes that arrive later never change what a handshake reads as: a
/// handshake and every final error stand whatever follows, and where `needed`
/// bytes are asked for, fewer lead to no verdict but to a demand for the
/// rest.
pub proof fn lemma_handshake_continues(s: Seq<u8>, t: Seq<u8>)
    ensures
        continues(decode_handshake(s), decode_handshake(s + t), t.len()),
{
    lemma_header_continues(s, t);
    match decode_header(s) {
        Ok(a) => {
            lemma_header_own_bytes(s, s.len());
            lemma_skip_of_longer(s, t, a);
            lemma_target_continues(s.skip(a as int), t);
            match decode_target(s.skip(a as int)) {
                Ok((target, b)) => {
                    lemma_target_own_bytes(s.skip(a as int), (s.len() - a) as nat);
                    lemma_skip_of_longer(s, t, a + b);
                    lemma_next_state_continues(s.skip((a + b) as int), t);
                },
                Err(_) => {},
            }
        },
        Err(_) => {},
    }
}

/// A handshake lies within the input, and reads the same from its own bytes
/// as from any input that begins with them.
pub proof fn lemma_handshake_own_bytes(s: Seq<u8>, n: nat)
    requires
        decode_handshake(s) is Ok,
        decode_handshake(s).unwrap().1 <= n <= s.len(),
    ensures
        decode_handshake(s).unwrap().1 <= s.len(),
        decode_handshake(s.take(n as int)) == decode_handshake(s),
{
    let a = decode_header(s).unwrap();
    let s1 = s.skip(a as int);
    lemma_header_own_bytes(s, s.len());
    let b = decode_target(s1).unwrap().1;
    let s2 = s.skip((a + b) as int);
    lemma_target_own_bytes(s1, s1.len());
    lemma_next_state_own_bytes(s2, s2.len());
    lemma_header_own_bytes(s, n);
    lemma_skip_of_shorter(s, n, a);
    lemma_target_own_bytes(s1, (n - a) as nat);
    lemma_skip_of_shorter(s, n, a + b);
    lemma_next_state_own_bytes(s2, (n - a - b) as nat);
}

} // verus!
