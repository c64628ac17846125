//! Variable-length integers: seven payload bits per byte, least significant
//! group first, the top bit of a byte set while more bytes follow, at most
//! five bytes.

use vstd::prelude::*;
use crate::error::ProtocolError;

verus! {

/// The most bytes a variable-length integer may take.
pub const MAX_VARINT_LEN: usize = 5;

/// 128 to the power `n`.
pub open spec fn pow128(n: nat) -> nat
    decreases n,
{
    if n == 0 {
        1
    } else {
        128 * pow128((n - 1) as nat)
    }
}

/// The number of leading bytes of `s` that announce a successor.
pub open spec fn continuation_run(s: Seq<u8>) -> nat
    decreases s.len(),
{
    if s.len() > 0 && s[0] >= 0x80 {
        1 + continuation_run(s.drop_first())
    } else {
        0
    }
}

/// The number whose base-128 digits, least significant first, are the low
/// seven bits of the bytes of `s`.
pub open spec fn base128(s: Seq<u8>) -> nat
    decreases s.len(),
{
    if s.len() == 0 {
        0
    } else {
        (s[0] % 128) as nat + 128 * base128(s.drop_first())
    }
}

/// The low 32 bits of `n`, read as a two's-complement number.
pub open spec fn wrap_i32(n: nat) -> i32 {
    let low = n % 0x1_0000_0000;
    if low < 0x8000_0000 {
        low as i32
    } else {
        (low - 0x1_0000_0000) as i32
    }
}

/// What reading one variable-length integer from the front of `s` gives: the
/// number and the count of bytes it took, or the reason why there is none.
pub open spec fn decode_varint(s: Seq<u8>) -> Result<(i32, nat), ProtocolError> {
    let run = continuation_run(s);
    if run >= MAX_VARINT_LEN {
        Err(ProtocolError::VarIntTooLarge)
    } else if run >= s.len() {
        Err(ProtocolError::Truncated { needed: 1 })
    } else {
        Ok((wrap_i32(base128(s.take(run as int + 1))), run + 1))
    }
}

/// The shortest encoding of `v`.
pub open spec fn encode_varint(v: nat) -> Seq<u8>
    decreases v,
{
    if v < 128 {
        seq![v as u8]
    } else {
        seq![(128 + v % 128) as u8] + encode_varint(v / 128)
    }
}

proof fn lemma_pow128_values()
    ensures
        pow128(0) == 1,
        pow128(1) == 0x80,
        pow128(2) == 0x4000,
        pow128(3) == 0x20_0000,
        pow128(4) == 0x1000_0000,
        pow128(5) == 0x8_0000_0000,
{
    reveal_with_fuel(pow128, 6);
}

/// A run of `i` continuation bytes at the front of `s` bounds
/// `continuation_run` from below, and fixes it where the run ends.
pub proof fn lemma_continuation_run(s: Seq<u8>, i: nat)
    requires
        i <= s.len(),
        forall|j: int| 0 <= j < i ==> s[j] >= 0x80,
    ensures
        continuation_run(s) >= i,
        (i == s.len() || s[i as int] < 0x80) ==> continuation_run(s) == i,
    decreases i,
{
    if i > 0 {
        let t = s.drop_first();
        assert forall|j: int| 0 <= j < i - 1 implies t[j] >= 0x80 by {
            assert(t[j] == s[j + 1]);
        }
        lemma_continuation_run(t, (i - 1) as nat);
        assert(s[0] >= 0x80);
    }
}

/// Appending one byte adds its payload at the next base-128 position.
proof fn lemma_base128_push(s: Seq<u8>, b: u8)
    ensures
        base128(s.push(b)) == base128(s) + (b % 128) * pow128(s.len()),
    decreases s.len(),
{
    let digit = (b % 128) as int;
    if s.len() == 0 {
        assert(s.push(b).drop_first() =~= Seq::<u8>::empty());
        assert(base128(s.push(b).drop_first()) == 0);
        assert(digit * pow128(0) == digit) by (nonlinear_arith)
            requires
                pow128(0) == 1,
        ;
    } else {
        let below = pow128((s.len() - 1) as nat) as int;
        assert(s.push(b).drop_first() =~= s.drop_first().push(b));
        assert(s.push(b)[0] == s[0]);
        lemma_base128_push(s.drop_first(), b);
        assert(base128(s.drop_first().push(b)) == base128(s.drop_first()) + digit * below);
        let here = pow128(s.len()) as int;
        assert(128 * (digit * below) == digit * here) by (nonlinear_arith)
            requires
                here == 128 * below,
        ;
    }
}

/// The run of continuation bytes of `s` is that of any sequence that agrees
/// with `s` up to and including the byte that ends the run.
proof fn lemma_continuation_run_agree(s: Seq<u8>, t: Seq<u8>)
    requires
        continuation_run(s) < s.len(),
        t.len() > continuation_run(s),
        forall|j: int| 0 <= j <= continuation_run(s) ==> s[j] == t[j],
    ensures
        continuation_run(t) == continuation_run(s),
    decreases s.len(),
{
    if s[0] >= 0x80 {
        let s1 = s.drop_first();
        let t1 = t.drop_first();
        assert(s[0] == t[0]);
        assert forall|j: int| 0 <= j <= continuation_run(s1) implies s1[j] == t1[j] by {
            assert(s1[j] == s[j + 1]);
            assert(t1[j] == t[j + 1]);
        }
        lemma_continuation_run_agree(s1, t1);
    } else {
        assert(s[0] == t[0]);
    }
}

/// A number that has been read stays read: what the bytes after it are, and
/// whether there are any, does not matter.
pub proof fn lemma_decode_varint_prefix(s: Seq<u8>, t: Seq<u8>)
    requires
        decode_varint(s) is Ok,
        t.len() >= decode_varint(s).unwrap().1,
        t.take(decode_varint(s).unwrap().1 as int) == s.take(decode_varint(s).unwrap().1 as int),
    ensures
        decode_varint(t) == decode_varint(s),
{
    let n = decode_varint(s).unwrap().1;
    assert forall|j: int| 0 <= j <= continuation_run(s) implies s[j] == t[j] by {
        assert(s.take(n as int)[j] == s[j]);
        assert(t.take(n as int)[j] == t[j]);
    }
    lemma_continuation_run_agree(s, t);
}

/// Setting the payload of `part` into group `i` of an accumulator that holds
/// only lower groups adds the payload times `128^i`, cut to 32 bits; below
/// the fifth group nothing is cut.
proof fn lemma_place_group(acc: u32, part: u8, i: usize)
    requires
        i < MAX_VARINT_LEN,
        acc < pow128(i as nat),
    ensures
        (acc | (((part & 0x7F) as u32) << (7 * i) as u32)) == (acc + (part % 128) * pow128(
            i as nat,
        )) % 0x1_0000_0000,
        i + 1 < MAX_VARINT_LEN ==> acc + (part % 128) * pow128(i as nat) < pow128((i + 1) as nat)
            <= 0x1000_0000,
        (part & 0x80 == 0) == (part < 0x80),
{
    lemma_pow128_values();
    let shift = (7 * i) as u32;
    let scale = pow128(i as nat) as u32;
    assert(1u32 << 0 == 1 && 1u32 << 7 == 0x80 && 1u32 << 14 == 0x4000 && 1u32 << 21 == 0x20_0000
        && 1u32 << 28 == 0x1000_0000) by (bit_vector);
    assert(scale == 1u32 << shift);
    assert((acc | (((part & 0x7F) as u32) << shift)) == (acc + (part % 128) * scale)
        % 0x1_0000_0000) by (bit_vector)
        requires
            shift <= 28,
            scale == 1u32 << shift,
            acc < scale,
    ;
    assert((part % 128) * scale + acc < 128 * scale) by (nonlinear_arith)
        requires
            acc < scale,
            part % 128 <= 127,
    ;
    assert((part & 0x80 == 0) == (part < 0x80)) by (bit_vector);
}

/// A cast from `u32` to `i32` reads the same 32 bits as a two's-complement
/// number.
proof fn lemma_cast_wraps(bits: u32)
    ensures
        bits as i32 == wrap_i32(bits as nat),
{
    assert((bits as i32) == (if bits < 0x8000_0000 {
        bits as int
    } else {
        bits - 0x1_0000_0000
    })) by (bit_vector);
}

/// Reads one variable-length integer from the front of `input`.
///
/// Returns the number and how many bytes it took. Where `input` ends while a
/// byte still announces a successor the answer is `Truncated`; where five
/// bytes in a row do so it is `VarIntTooLarge`, whatever follows.
pub fn read_varint(input: &[u8]) -> (r: Result<(i32, usize), ProtocolError>)
    ensures
        match decode_varint(input@) {
            Ok((v, n)) => r == Ok::<(i32, usize), ProtocolError>((v, n as usize)),
            Err(e) => r == Err::<(i32, usize), ProtocolError>(e),
        },
{
    let mut acc: u32 = 0;
    let mut i: usize = 0;
    proof {
        assert(input@.take(0) =~= Seq::<u8>::empty());
    }
    while i < MAX_VARINT_LEN
        invariant
            i <= MAX_VARINT_LEN,
            i <= input.len(),
            forall|j: int| 0 <= j < i ==> input@[j] >= 0x80,
            i < MAX_VARINT_LEN ==> acc == base128(input@.take(i as int)) && acc < pow128(
                i as nat,
            ),
        decreases MAX_VARINT_LEN - i,
    {
        proof {
            lemma_continuation_run(input@, i as nat);
        }
        if i >= input.len() {
            return Err(ProtocolError::Truncated { needed: 1 });
        }
        let part = input[i];
        proof {
            lemma_place_group(acc, part, i);
            lemma_base128_push(input@.take(i as int), part);
            assert(input@.take(i as int).push(part) =~= input@.take(i + 1));
        }
        acc = acc | (((part & 0x7F) as u32) << (7 * i) as u32);
        if part & 0x80 == 0 {
            proof {
                lemma_continuation_run(input@, i as nat);
                lemma_cast_wraps(acc);
            }
            return Ok((#[verifier::truncate] (acc as i32), i + 1));
        }
        i += 1;
    }
    proof {
        lemma_continuation_run(input@, i as nat);
    }
    Err(ProtocolError::VarIntTooLarge)
}

/// The shape of an encoding: every byte but the last announces a successor,
/// the payloads spell `v`, and a number below `128^k` takes at most `k` bytes.
pub proof fn lemma_encode_varint_shape(v: nat)
    ensures
        encode_varint(v).len() >= 1,
        forall|j: int| 0 <= j < encode_varint(v).len() - 1 ==> encode_varint(v)[j] >= 0x80,
        encode_varint(v).last() < 0x80,
        base128(encode_varint(v)) == v,
        forall|k: nat| k >= 1 && v < pow128(k) ==> encode_varint(v).len() <= k,
    decreases v,
{
    let e = encode_varint(v);
    if v < 128 {
        assert(e.drop_first() =~= Seq::<u8>::empty());
        assert(base128(e.drop_first()) == 0);
    } else {
        let tail = encode_varint(v / 128);
        lemma_encode_varint_shape(v / 128);
        assert(e.drop_first() =~= tail);
        assert(e.last() == tail.last());
        assert forall|j: int| 0 <= j < e.len() - 1 implies e[j] >= 0x80 by {
            if j > 0 {
                assert(e[j] == tail[j - 1]);
            }
        }
        assert forall|k: nat| k >= 1 && v < pow128(k) implies e.len() <= k by {
            assert(pow128(1) == 128) by {
                reveal_with_fuel(pow128, 2);
            }
            assert(k >= 2);
            assert(v / 128 < pow128((k - 1) as nat));
        }
    }
}

/// Reading back what `encode_varint` wrote gives the number again, and takes
/// exactly the bytes that were written: every `i32` that has an encoding, that
/// is every one from zero up, survives the round trip, whatever follows it on
/// the wire.
pub proof fn lemma_varint_roundtrip(v: i32, rest: Seq<u8>)
    requires
        v >= 0,
    ensures
        encode_varint(v as nat).len() <= MAX_VARINT_LEN,
        decode_varint(encode_varint(v as nat) + rest) == Ok::<(i32, nat), ProtocolError>(
            (v, encode_varint(v as nat).len()),
        ),
{
    let e = encode_varint(v as nat);
    let s = e + rest;
    lemma_encode_varint_shape(v as nat);
    lemma_pow128_values();
    assert(e.len() <= 5);
    assert forall|j: int| 0 <= j < e.len() - 1 implies s[j] >= 0x80 by {
        assert(s[j] == e[j]);
    }
    assert(s[e.len() - 1] == e.last());
    lemma_continuation_run(s, (e.len() - 1) as nat);
    assert(s.take(e.len() as int) =~= e);
}

/// Appends the encoding of `val` to `out`.
///
/// Only numbers from zero up have an encoding of at most five bytes under the
/// writer's rule; a negative one is refused with `VarIntTooLarge` and leaves
/// `out` as it was.
pub fn write_varint(out: &mut Vec<u8>, val: i32) -> (r: Result<(), ProtocolError>)
    ensures
        val >= 0 ==> r is Ok && final(out)@ == old(out)@ + encode_varint(val as nat),
        val < 0 ==> r == Err::<(), ProtocolError>(ProtocolError::VarIntTooLarge) && final(out)@
            == old(out)@,
{
    if val < 0 {
        return Err(ProtocolError::VarIntTooLarge);
    }
    let mut rest: u32 = val as u32;
    while rest >= 0x80
        invariant
            out@ + encode_varint(rest as nat) == old(out)@ + encode_varint(val as nat),
        decreases rest,
    {
        let byte: u8 = ((rest & 0x7F) | 0x80) as u8;
        proof {
            assert(((rest & 0x7F) | 0x80) as u8 == (128 + rest % 128) as u8) by (bit_vector);
            assert(rest >> 7 == rest / 128) by (bit_vector);
            assert(out@.push(byte) + encode_varint((rest / 128) as nat) =~= out@ + encode_varint(
                rest as nat,
            ));
        }
        out.push(byte);
        rest = rest >> 7;
    }
    proof {
        assert(out@.push(rest as u8) =~= out@ + encode_varint(rest as nat));
    }
    out.push(rest as u8);
    Ok(())
}

} // verus!
