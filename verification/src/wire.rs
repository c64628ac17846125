//! The remaining wire primitives: a big-endian 16-bit integer and a string
//! that is prefixed with its length in bytes.

use vstd::prelude::*;
use vstd::slice::{slice_subrange, slice_to_vec};
use vstd::utf8::{decode_utf8, encode_utf8, valid_utf8};
use crate::error::ProtocolError;
use crate::varint::{decode_varint, encode_varint, lemma_varint_roundtrip, read_varint, write_varint};

verus! {

/// The two bytes that carry `n` on the wire, most significant first.
pub open spec fn encode_u16(n: u16) -> Seq<u8> {
    seq![(n / 256) as u8, (n % 256) as u8]
}

/// What reading a 16-bit integer from the front of `s` gives.
pub open spec fn decode_u16(s: Seq<u8>) -> Result<(u16, nat), ProtocolError> {
    if s.len() < 2 {
        Err(ProtocolError::Truncated { needed: (2 - s.len()) as usize })
    } else {
        Ok(((s[0] * 256 + s[1]) as u16, 2))
    }
}

/// The length prefix and the UTF-8 bytes of `chars`.
pub open spec fn encode_string(chars: Seq<char>) -> Seq<u8> {
    encode_varint(encode_utf8(chars).len()) + encode_utf8(chars)
}

/// What reading a length-prefixed string from the front of `s` gives.
///
/// A prefix below zero describes no field: no number of further bytes would
/// complete it, so it is reported as a number too large for the format.
pub open spec fn decode_string(s: Seq<u8>) -> Result<(Seq<char>, nat), ProtocolError> {
    match decode_varint(s) {
        Err(e) => Err(e),
        Ok((len, used)) => {
            if len < 0 {
                Err(ProtocolError::VarIntTooLarge)
            } else if s.len() < used + len {
                Err(ProtocolError::Truncated { needed: (used + len - s.len()) as usize })
            } else {
                let body = s.subrange(used as int, used + len);
                if valid_utf8(body) {
                    Ok((decode_utf8(body), (used + len) as nat))
                } else {
                    Err(ProtocolError::InvalidUtf8)
                }
            }
        },
    }
}

/// A port survives the trip over the wire, whatever follows it.
pub proof fn lemma_u16_roundtrip(p: u16, rest: Seq<u8>)
    ensures
        decode_u16(encode_u16(p) + rest) == Ok::<(u16, nat), ProtocolError>((p, 2)),
{
    let s = encode_u16(p) + rest;
    assert(s[0] == (p / 256) as u8 && s[1] == (p % 256) as u8);
}

/// A string whose UTF-8 form is short enough for its length to be written
/// survives the trip over the wire, whatever follows it.
pub proof fn lemma_string_roundtrip(chars: Seq<char>, rest: Seq<u8>)
    requires
        encode_utf8(chars).len() <= i32::MAX,
    ensures
        decode_string(encode_string(chars) + rest) == Ok::<(Seq<char>, nat), ProtocolError>(
            (chars, encode_string(chars).len()),
        ),
{
    broadcast use vstd::utf8::encode_utf8_valid_utf8, vstd::utf8::encode_utf8_decode_utf8;

    let bytes = encode_utf8(chars);
    let prefix = encode_varint(bytes.len());
    let s = encode_string(chars) + rest;
    lemma_varint_roundtrip(bytes.len() as i32, bytes + rest);
    assert(s =~= prefix + (bytes + rest));
    assert(s.subrange(prefix.len() as int, (prefix.len() + bytes.len()) as int) =~= bytes);
}

/// Reads a big-endian 16-bit integer from the front of `input`.
pub fn read_bigendian_u16(input: &[u8]) -> (r: Result<(u16, usize), ProtocolError>)
    ensures
        match decode_u16(input@) {
            Ok((v, n)) => r == Ok::<(u16, usize), ProtocolError>((v, n as usize)),
            Err(e) => r == Err::<(u16, usize), ProtocolError>(e),
        },
{
    if input.len() < 2 {
        return Err(ProtocolError::Truncated { needed: 2 - input.len() });
    }
    let high = input[0] as u16;
    let low = input[1] as u16;
    proof {
        assert(((high << 8) | low) == high * 256 + low) by (bit_vector)
            requires
                high < 256,
                low < 256,
        ;
    }
    Ok(((high << 8) | low, 2))
}

/// Appends the big-endian encoding of `n` to `out`.
pub fn write_bigendian_u16(out: &mut Vec<u8>, n: u16)
    ensures
        final(out)@ == old(out)@ + encode_u16(n),
{
    proof {
        assert((n >> 8) as u8 == (n / 256) as u8) by (bit_vector);
        assert((n & 0xFF) as u8 == (n % 256) as u8) by (bit_vector);
    }
    out.push((n >> 8) as u8);
    out.push((n & 0xFF) as u8);
    proof {
        assert(out@ =~= old(out)@ + encode_u16(n));
    }
}

/// Reads a length-prefixed UTF-8 string from the front of `input`.
///
/// Returns the string and how many bytes the prefix and the text took
/// together.
pub fn read_string(input: &[u8]) -> (r: Result<(String, usize), ProtocolError>)
    ensures
        match decode_string(input@) {
            Ok((chars, n)) => r matches Ok((text, used)) && text@ == chars && used == n,
            Err(e) => r matches Err(err) && err == e,
        },
{
    let (len, used) = read_varint(input)?;
    if len < 0 {
        return Err(ProtocolError::VarIntTooLarge);
    }
    let len = len as usize;
    let available = input.len() - used;
    if available < len {
        return Err(ProtocolError::Truncated { needed: len - available });
    }
    let body = slice_to_vec(slice_subrange(input, used, used + len));
    match String::from_utf8(body) {
        Ok(text) => {
            proof {
                vstd::utf8::encode_utf8_decode_utf8(text@);
            }
            Ok((text, used + len))
        },
        Err(_) => Err(ProtocolError::InvalidUtf8),
    }
}

/// Appends the length of `text` in bytes, then its bytes, to `out`.
///
/// A text of more than `i32::MAX` bytes has no length prefix; it is refused
/// with `VarIntTooLarge` and leaves `out` as it was.
pub fn write_string(out: &mut Vec<u8>, text: &str) -> (r: Result<(), ProtocolError>)
    ensures
        encode_utf8(text@).len() <= i32::MAX ==> r is Ok && final(out)@ == old(out)@
            + encode_string(text@),
        encode_utf8(text@).len() > i32::MAX ==> r == Err::<(), ProtocolError>(
            ProtocolError::VarIntTooLarge,
        ) && final(out)@ == old(out)@,
{
    let bytes = text.as_bytes();
    if bytes.len() > i32::MAX as usize {
        return Err(ProtocolError::VarIntTooLarge);
    }
    write_varint(out, bytes.len() as i32)?;
    out.extend_from_slice(bytes);
    proof {
        assert(out@ =~= old(out)@ + encode_string(text@));
    }
    Ok(())
}

} // verus!
