//! Compact integers: the variable-length integer form of the wire format.
//!
//! A value below 2^6 takes one byte, below 2^14 two, below 2^30 four; the two
//! low bits of the first byte say which. A larger value is written as a
//! prefix byte that holds its byte count, followed by that many bytes, least
//! significant first. Only the shortest form of a value is an encoding, and
//! the decoder accepts nothing else.

use vstd::prelude::*;
use crate::error::DecodeError;

verus! {

/// One more than the largest value of the one-byte form.
pub const SINGLE_LIMIT: u128 = 64;

/// One more than the largest value of the two-byte form.
pub const DOUBLE_LIMIT: u128 = 16384;

/// One more than the largest value of the four-byte form.
pub const QUAD_LIMIT: u128 = 1073741824;

/// 256 to the power `n`.
pub open spec fn pow256(n: nat) -> nat
    decreases n,
{
    if n == 0 {
        1
    } else {
        256 * pow256((n - 1) as nat)
    }
}

/// The `n` low bytes of `v`, least significant first.
pub open spec fn le_bytes(v: nat, n: nat) -> Seq<u8>
    decreases n,
{
    if n == 0 {
        Seq::empty()
    } else {
        seq![(v % 256) as u8] + le_bytes(v / 256, (n - 1) as nat)
    }
}

/// The number that `b` spells, least significant byte first.
pub open spec fn le_value(b: Seq<u8>) -> nat
    decreases b.len(),
{
    if b.len() == 0 {
        0
    } else {
        b[0] as nat + 256 * le_value(b.skip(1))
    }
}

/// The least number of bytes that can hold `v`, at least one.
pub open spec fn byte_width(v: nat) -> nat
    decreases v,
{
    if v < 256 {
        1
    } else {
        1 + byte_width(v / 256)
    }
}

/// The compact encoding of `v`.
pub open spec fn compact_encoding(v: nat) -> Seq<u8> {
    if v < SINGLE_LIMIT {
        seq![(4 * v) as u8]
    } else if v < DOUBLE_LIMIT {
        le_bytes(4 * v + 1, 2)
    } else if v < QUAD_LIMIT {
        le_bytes(4 * v + 2, 4)
    } else {
        seq![(4 * (byte_width(v) - 4) + 3) as u8] + le_bytes(v, byte_width(v))
    }
}

/// What the decoder makes of the front of `b`: the value and the number of
/// bytes it took, or the reason the bytes are no compact integer.
#[verifier::opaque]
pub open spec fn compact_parse(b: Seq<u8>) -> Result<(nat, nat), DecodeError> {
    if b.len() == 0 {
        Err(DecodeError::UnexpectedEnd)
    } else if b[0] % 4 == 0 {
        Ok(((b[0] / 4) as nat, 1))
    } else if b[0] % 4 == 1 {
        if b.len() < 2 {
            Err(DecodeError::UnexpectedEnd)
        } else if le_value(b.subrange(0, 2)) / 4 < SINGLE_LIMIT {
            Err(DecodeError::NonCanonical)
        } else {
            Ok((le_value(b.subrange(0, 2)) / 4, 2))
        }
    } else if b[0] % 4 == 2 {
        if b.len() < 4 {
            Err(DecodeError::UnexpectedEnd)
        } else if le_value(b.subrange(0, 4)) / 4 < DOUBLE_LIMIT {
            Err(DecodeError::NonCanonical)
        } else {
            Ok((le_value(b.subrange(0, 4)) / 4, 4))
        }
    } else {
        let n = (b[0] / 4 + 4) as nat;
        if n > 16 {
            Err(DecodeError::OutOfRange)
        } else if b.len() < 1 + n {
            Err(DecodeError::UnexpectedEnd)
        } else if le_value(b.subrange(1, 1 + n as int)) < QUAD_LIMIT || b[n as int] == 0 {
            Err(DecodeError::NonCanonical)
        } else {
            Ok((le_value(b.subrange(1, 1 + n as int)), 1 + n))
        }
    }
}

/// `le_bytes` yields as many bytes as it is asked for.
pub proof fn lemma_le_bytes_len(v: nat, n: nat)
    ensures
        le_bytes(v, n).len() == n,
    decreases n,
{
    if n > 0 {
        lemma_le_bytes_len(v / 256, (n - 1) as nat);
    }
}

/// A byte string spells a number below 256 to the power of its length.
pub proof fn lemma_le_value_bound(b: Seq<u8>)
    ensures
        le_value(b) < pow256(b.len()),
    decreases b.len(),
{
    if b.len() > 0 {
        lemma_le_value_bound(b.skip(1));
    }
}

/// Reading back the bytes of a number that fits gives the number.
pub proof fn lemma_le_value_of_bytes(v: nat, n: nat)
    requires
        v < pow256(n),
    ensures
        le_value(le_bytes(v, n)) == v,
    decreases n,
{
    if n > 0 {
        let rest = le_bytes(v / 256, (n - 1) as nat);
        let all = le_bytes(v, n);
        lemma_le_bytes_len(v / 256, (n - 1) as nat);
        lemma_le_value_of_bytes(v / 256, (n - 1) as nat);
        assert(all.skip(1) =~= rest);
        assert(all[0] == (v % 256) as u8);
    }
}

/// Writing out the number that a byte string spells gives the byte string.
pub proof fn lemma_le_bytes_of_value(b: Seq<u8>)
    ensures
        le_bytes(le_value(b), b.len()) == b,
    decreases b.len(),
{
    if b.len() > 0 {
        let v = le_value(b);
        let tail = b.skip(1);
        lemma_le_bytes_of_value(tail);
        assert(v % 256 == b[0] as nat);
        assert(v / 256 == le_value(tail));
        assert(le_bytes(v, b.len()) =~= b);
    } else {
        assert(le_bytes(le_value(b), b.len()) =~= b);
    }
}

/// The bytes of a number followed by more bytes spell it again when the
/// first `n` are taken.
pub proof fn lemma_le_value_prefix(v: nat, n: nat, rest: Seq<u8>)
    requires
        v < pow256(n),
    ensures
        (le_bytes(v, n) + rest).len() >= n,
        le_value((le_bytes(v, n) + rest).subrange(0, n as int)) == v,
{
    lemma_le_bytes_len(v, n);
    lemma_le_value_of_bytes(v, n);
    assert((le_bytes(v, n) + rest).subrange(0, n as int) =~= le_bytes(v, n));
}

/// A number needs at most `n` bytes exactly when it is below 256 to the `n`.
pub proof fn lemma_byte_width_bound(v: nat, n: nat)
    requires
        n >= 1,
    ensures
        byte_width(v) <= n <==> v < pow256(n),
    decreases n,
{
    reveal_with_fuel(pow256, 2);
    if n == 1 {
        if v >= 256 {
            assert(byte_width(v) == 1 + byte_width(v / 256));
        }
    } else {
        lemma_byte_width_bound(v / 256, (n - 1) as nat);
        if v < 256 {
            lemma_pow256_positive((n - 1) as nat);
        }
    }
}

/// Every power of 256 is at least one.
pub proof fn lemma_pow256_positive(n: nat)
    ensures
        pow256(n) >= 1,
    decreases n,
{
    if n > 0 {
        lemma_pow256_positive((n - 1) as nat);
    }
}

/// The powers of 256 that the format's limits are made of.
pub proof fn lemma_pow256_values()
    ensures
        pow256(1) == 256,
        pow256(2) == 65536,
        pow256(3) == 16777216,
        pow256(4) == 4294967296,
        pow256(15) == 0x1_0000_0000_0000_0000_0000_0000_0000_00,
        pow256(16) == 0x1_0000_0000_0000_0000_0000_0000_0000_0000,
{
    reveal_with_fuel(pow256, 17);
}

/// The last byte of a string is zero exactly when the number it spells fits
/// in one byte less.
pub proof fn lemma_top_byte(b: Seq<u8>)
    requires
        b.len() >= 1,
    ensures
        b[b.len() - 1] == 0 <==> le_value(b) < pow256((b.len() - 1) as nat),
    decreases b.len(),
{
    if b.len() == 1 {
        assert(le_value(b.skip(1)) == 0);
    } else {
        let tail = b.skip(1);
        lemma_top_byte(tail);
        assert(tail[tail.len() - 1] == b[b.len() - 1]);
    }
}

/// A larger exponent gives no smaller power.
pub proof fn lemma_pow256_monotone(a: nat, b: nat)
    requires
        a <= b,
    ensures
        pow256(a) <= pow256(b),
    decreases b,
{
    if a < b {
        lemma_pow256_monotone(a, (b - 1) as nat);
    }
}

/// Decoding what was encoded, whatever follows it, gives the value back and
/// stops where the encoding ends.
pub proof fn lemma_compact_parse_encoding(v: nat, rest: Seq<u8>)
    requires
        v <= u128::MAX,
    ensures
        compact_parse(compact_encoding(v) + rest) == Ok::<(nat, nat), DecodeError>(
            (v, compact_encoding(v).len()),
        ),
{
    reveal(compact_parse);
    let enc = compact_encoding(v);
    let b = enc + rest;
    lemma_pow256_values();
    if v < SINGLE_LIMIT {
        assert(b[0] == enc[0]);
    } else if v < DOUBLE_LIMIT {
        let x = 4 * v + 1;
        lemma_le_bytes_len(x, 2);
        lemma_le_value_prefix(x, 2, rest);
        reveal_with_fuel(le_bytes, 3);
        assert(b[0] == enc[0]);
        assert(enc[0] == (x % 256) as u8);
    } else if v < QUAD_LIMIT {
        let x = 4 * v + 2;
        lemma_le_bytes_len(x, 4);
        lemma_le_value_prefix(x, 4, rest);
        reveal_with_fuel(le_bytes, 5);
        assert(b[0] == enc[0]);
        assert(enc[0] == (x % 256) as u8);
    } else {
        let n = byte_width(v);
        lemma_byte_width_bound(v, 3);
        lemma_byte_width_bound(v, 16);
        lemma_byte_width_bound(v, (n - 1) as nat);
        lemma_byte_width_bound(v, n);
        let body = le_bytes(v, n);
        lemma_le_bytes_len(v, n);
        lemma_le_value_of_bytes(v, n);
        lemma_top_byte(body);
        assert(b[0] == enc[0]);
        assert(b.subrange(1, 1 + n as int) =~= body);
        assert(b[n as int] == body[n - 1]);
        assert(enc.len() == 1 + n);
    }
}

/// Whatever the decoder accepts is the encoding of the value it reports: no
/// second byte string decodes to the same value.
pub proof fn lemma_compact_parse_sound(b: Seq<u8>)
    ensures
        match compact_parse(b) {
            Ok((v, n)) => n <= b.len() && v <= u128::MAX && b.subrange(0, n as int)
                == compact_encoding(v),
            Err(_) => true,
        },
{
    reveal(compact_parse);
    lemma_pow256_values();
    if b.len() == 0 {
    } else if b[0] % 4 == 0 {
        assert(b.subrange(0, 1) =~= seq![b[0]]);
    } else if b[0] % 4 == 1 {
        if b.len() >= 2 {
            let head = b.subrange(0, 2);
            let x = le_value(head);
            lemma_le_value_bound(head);
            lemma_le_bytes_of_value(head);
            assert(x % 4 == 1) by {
                reveal_with_fuel(le_value, 3);
                assert(head[0] == b[0]);
            }
        }
    } else if b[0] % 4 == 2 {
        if b.len() >= 4 {
            let head = b.subrange(0, 4);
            let x = le_value(head);
            lemma_le_value_bound(head);
            lemma_le_bytes_of_value(head);
            assert(x % 4 == 2) by {
                reveal_with_fuel(le_value, 2);
                assert(head[0] == b[0]);
            }
        }
    } else {
        let n = (b[0] / 4 + 4) as nat;
        if n <= 16 && b.len() >= 1 + n {
            let body = b.subrange(1, 1 + n as int);
            let x = le_value(body);
            if !(x < QUAD_LIMIT || b[n as int] == 0) {
                lemma_le_value_bound(body);
                lemma_le_bytes_of_value(body);
                lemma_top_byte(body);
                assert(body[n - 1] == b[n as int]);
                lemma_byte_width_bound(x, (n - 1) as nat);
                lemma_byte_width_bound(x, n);
                lemma_pow256_monotone(n, 16);
                assert(byte_width(x) == n);
                assert(b.subrange(0, 1 + n as int) =~= seq![b[0]] + body);
            }
        }
    }
}

/// Appends the `width` low bytes of `value`, least significant first.
pub(crate) fn write_le(value: u128, width: usize, out: &mut Vec<u8>)
    requires
        width <= 16,
    ensures
        final(out)@ == old(out)@ + le_bytes(value as nat, width as nat),
{
    let mut rest: u128 = value;
    let mut i: usize = 0;
    while i < width
        invariant
            i <= width,
            old(out)@ + le_bytes(value as nat, width as nat) == out@ + le_bytes(
                rest as nat,
                (width - i) as nat,
            ),
        decreases width - i,
    {
        let ghost before = out@;
        out.push((rest % 256) as u8);
        proof {
            let tail = le_bytes((rest / 256) as nat, (width - i - 1) as nat);
            assert(before + (seq![(rest % 256) as u8] + tail) =~= before.push((rest % 256) as u8)
                + tail);
        }
        rest = rest / 256;
        i = i + 1;
    }
    proof {
        assert(out@ + le_bytes(rest as nat, 0) =~= out@);
    }
}

/// Reads `width` bytes from `start` on as one number, least significant
/// byte first.
fn read_le(bytes: &[u8], start: usize, width: usize) -> (v: u128)
    requires
        width <= 16,
        start + width <= bytes.len(),
    ensures
        v == le_value(bytes@.subrange(start as int, start + width)),
{
    let mut v: u128 = 0;
    let mut i: usize = width;
    proof {
        assert(bytes@.subrange(start + width, start + width).len() == 0);
    }
    while i > 0
        invariant
            i <= width,
            width <= 16,
            start + width <= bytes.len(),
            v == le_value(bytes@.subrange(start + i, start + width)),
        decreases i,
    {
        let ghost above = bytes@.subrange(start + i, start + width);
        i = i - 1;
        proof {
            let here = bytes@.subrange(start + i, start + width);
            lemma_le_value_bound(above);
            lemma_pow256_monotone(above.len(), 15);
            lemma_pow256_values();
            assert(here.skip(1) =~= above);
            assert(here[0] == bytes@[start + i]);
        }
        v = v * 256 + bytes[start + i] as u128;
    }
    v
}

/// Appends the compact encoding of `value` to `out`.
pub fn encode_compact(value: u128, out: &mut Vec<u8>)
    ensures
        final(out)@ == old(out)@ + compact_encoding(value as nat),
{
    if value < SINGLE_LIMIT {
        out.push((4 * value) as u8);
        proof {
            assert(out@ =~= old(out)@ + seq![(4 * value) as u8]);
        }
    } else if value < DOUBLE_LIMIT {
        write_le(4 * value + 1, 2, out);
    } else if value < QUAD_LIMIT {
        write_le(4 * value + 2, 4, out);
    } else {
        let width = width_of(value);
        let ghost before = out@;
        out.push((4 * (width - 4) + 3) as u8);
        write_le(value, width, out);
        proof {
            let prefix = seq![(4 * (width - 4) + 3) as u8];
            let body = le_bytes(value as nat, width as nat);
            assert(before.push((4 * (width - 4) + 3) as u8) + body =~= before + (prefix + body));
        }
    }
}

/// The number of bytes that the long form of `value` takes after its prefix.
fn width_of(value: u128) -> (width: usize)
    requires
        value >= QUAD_LIMIT,
    ensures
        width == byte_width(value as nat),
        4 <= width <= 16,
{
    let mut rest: u128 = value;
    let mut width: usize = 1;
    proof {
        lemma_byte_width_bound(value as nat, 3);
        lemma_byte_width_bound(value as nat, 16);
        lemma_pow256_values();
    }
    while rest >= 256
        invariant
            width >= 1,
            byte_width(value as nat) == (width - 1) + byte_width(rest as nat),
            byte_width(value as nat) <= 16,
        decreases rest,
    {
        rest = rest / 256;
        width = width + 1;
    }
    width
}

/// Reads one compact integer that starts at `start`; gives the value and the
/// position just after it.
pub(crate) fn read_compact(bytes: &[u8], start: usize) -> (r: Result<(u128, usize), DecodeError>)
    requires
        start <= bytes.len(),
    ensures
        match compact_parse(bytes@.skip(start as int)) {
            Ok((v, n)) => r == Ok::<(u128, usize), DecodeError>((v as u128, (start + n) as usize))
                && v <= u128::MAX && start + n <= bytes.len(),
            Err(e) => r == Err::<(u128, usize), DecodeError>(e),
        },
{
    reveal(compact_parse);
    let ghost b = bytes@.skip(start as int);
    proof {
        lemma_compact_parse_sound(b);
    }
    if start >= bytes.len() {
        return Err(DecodeError::UnexpectedEnd);
    }
    let first: u8 = bytes[start];
    let left: usize = bytes.len() - start;
    assert(b[0] == first);
    let mode: u8 = first % 4;
    if mode == 0 {
        Ok(((first / 4) as u128, start + 1))
    } else if mode == 1 {
        if left < 2 {
            return Err(DecodeError::UnexpectedEnd);
        }
        let x = read_le(bytes, start, 2);
        assert(b.subrange(0, 2) =~= bytes@.subrange(start as int, start + 2));
        if x / 4 < SINGLE_LIMIT {
            Err(DecodeError::NonCanonical)
        } else {
            Ok((x / 4, start + 2))
        }
    } else if mode == 2 {
        if left < 4 {
            return Err(DecodeError::UnexpectedEnd);
        }
        let x = read_le(bytes, start, 4);
        assert(b.subrange(0, 4) =~= bytes@.subrange(start as int, start + 4));
        if x / 4 < DOUBLE_LIMIT {
            Err(DecodeError::NonCanonical)
        } else {
            Ok((x / 4, start + 4))
        }
    } else {
        let width: usize = (first / 4) as usize + 4;
        if width > 16 {
            return Err(DecodeError::OutOfRange);
        }
        if left < 1 + width {
            return Err(DecodeError::UnexpectedEnd);
        }
        let x = read_le(bytes, start + 1, width);
        assert(b.subrange(1, 1 + width) =~= bytes@.subrange(start + 1, start + 1 + width));
        assert(b[width as int] == bytes@[start + width]);
        if x < QUAD_LIMIT || bytes[start + width] == 0 {
            Err(DecodeError::NonCanonical)
        } else {
            Ok((x, start + 1 + width))
        }
    }
}

/// Decodes the compact integer at the front of `bytes`; gives the value and
/// the number of bytes it took.
pub fn decode_compact(bytes: &[u8]) -> (r: Result<(u128, usize), DecodeError>)
    ensures
        match compact_parse(bytes@) {
            Ok((v, n)) => r == Ok::<(u128, usize), DecodeError>((v as u128, n as usize))
                && v <= u128::MAX && n <= bytes.len() && bytes@.subrange(0, n as int)
                == compact_encoding(v),
            Err(e) => r == Err::<(u128, usize), DecodeError>(e),
        },
{
    proof {
        assert(bytes@.skip(0) =~= bytes@);
        lemma_compact_parse_sound(bytes@);
    }
    read_compact(bytes, 0)
}

} // verus!
