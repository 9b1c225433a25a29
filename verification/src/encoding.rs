//! The byte layout of a fixed-width integer, as mathematical functions.

use vstd::prelude::*;
use crate::binary_stream::ByteOrder;

verus! {

/// The widths, in bytes, of the integers that the buffer carries.
pub open spec fn is_width(width: nat) -> bool {
    width == 1 || width == 2 || width == 4 || width == 8
}

/// Whether `value` fits into `width` bytes.
pub open spec fn fits(value: u64, width: nat) -> bool {
    if width == 1 {
        value <= 0xff
    } else if width == 2 {
        value <= 0xffff
    } else if width == 4 {
        value <= 0xffff_ffff
    } else {
        true
    }
}

/// The significance of the byte that stands at place `k` in a value of
/// `width` bytes: 0 is the least significant byte, `width - 1` the most
/// significant one. Little endian counts upwards from 0, big endian counts
/// downwards from `width - 1`.
pub open spec fn shift_multiplier(order: ByteOrder, width: nat, k: nat) -> nat {
    match order {
        ByteOrder::LittleEndian => k,
        ByteOrder::BigEndian => (width - 1 - k) as nat,
    }
}

/// The byte of `value` that starts at bit `shift`.
pub open spec fn byte_at(value: u64, shift: u64) -> u8 {
    ((value >> shift) & 0xff) as u8
}

/// The byte `byte` moved up to bit `shift` of a 64-bit value.
pub open spec fn byte_placed(byte: u8, shift: u64) -> u64 {
    (byte as u64) << shift
}

/// The number of bits below the byte of significance `multiplier`.
pub open spec fn shift_of(multiplier: nat) -> u64 {
    (8 * multiplier) as u64
}

/// The `width` bytes that stand for `value`, in the order in which they are
/// appended to a buffer.
pub open spec fn encode(order: ByteOrder, width: nat, value: u64) -> Seq<u8> {
    Seq::new(width, |k: int| byte_at(value, shift_of(shift_multiplier(order, width, k as nat))))
}

/// The value that the first `n` of `bytes` contribute, each byte put at the
/// significance that its place has in a value of `width` bytes.
pub open spec fn decode_prefix(order: ByteOrder, width: nat, bytes: Seq<u8>, n: nat) -> u64
    decreases n,
{
    if n == 0 {
        0
    } else {
        decode_prefix(order, width, bytes, (n - 1) as nat) | byte_placed(
            bytes[n - 1],
            shift_of(shift_multiplier(order, width, (n - 1) as nat)),
        )
    }
}

/// The value that `width` bytes stand for, the bytes given in the order in
/// which they were appended.
pub open spec fn decode(order: ByteOrder, width: nat, bytes: Seq<u8>) -> u64 {
    decode_prefix(order, width, bytes, width)
}

/// The number of values that `width` bytes can tell apart.
pub open spec fn modulus(width: nat) -> int {
    if width == 1 {
        0x100
    } else if width == 2 {
        0x1_0000
    } else if width == 4 {
        0x1_0000_0000
    } else {
        0x1_0000_0000_0000_0000
    }
}

/// The unsigned value with the bit pattern that the signed `value` has in
/// two's complement on `width` bytes.
pub open spec fn unsigned_of(value: int, width: nat) -> int {
    if value < 0 {
        value + modulus(width)
    } else {
        value
    }
}

/// The signed value with the bit pattern that the unsigned `bits` have on
/// `width` bytes, in two's complement.
pub open spec fn signed_of(bits: int, width: nat) -> int {
    if 2 * bits >= modulus(width) {
        bits - modulus(width)
    } else {
        bits
    }
}

/// The `width` bytes that a read takes from the end of `buf`, the last byte
/// of `buf` first.
pub open spec fn taken(buf: Seq<u8>, width: nat) -> Seq<u8> {
    Seq::new(width, |k: int| buf[buf.len() - 1 - k])
}

/// What a read of `width` bytes leaves of `buf`.
pub open spec fn left(buf: Seq<u8>, width: nat) -> Seq<u8> {
    buf.take(buf.len() - width)
}

/// A value that is put together from `width` bytes fits into `width` bytes.
pub proof fn lemma_decode_fits(order: ByteOrder, width: nat, bytes: Seq<u8>)
    requires
        is_width(width),
    ensures
        fits(decode(order, width, bytes), width),
{
    reveal_with_fuel(decode_prefix, 9);
    let b0 = bytes[0];
    let b1 = bytes[1];
    let b2 = bytes[2];
    let b3 = bytes[3];
    if width == 1 {
        assert((0u64 | ((b0 as u64) << 0u64)) <= 0xff) by (bit_vector);
    } else if width == 2 {
        assert(((0u64 | ((b0 as u64) << 0u64)) | ((b1 as u64) << 8u64)) <= 0xffff)
            by (bit_vector);
        assert(((0u64 | ((b0 as u64) << 8u64)) | ((b1 as u64) << 0u64)) <= 0xffff)
            by (bit_vector);
    } else if width == 4 {
        assert(((((0u64 | ((b0 as u64) << 0u64)) | ((b1 as u64) << 8u64)) | ((b2 as u64)
            << 16u64)) | ((b3 as u64) << 24u64)) <= 0xffff_ffff) by (bit_vector);
        assert(((((0u64 | ((b0 as u64) << 24u64)) | ((b1 as u64) << 16u64)) | ((b2 as u64)
            << 8u64)) | ((b3 as u64) << 0u64)) <= 0xffff_ffff) by (bit_vector);
    }
}

/// The encoding has one byte for each byte of the width.
pub proof fn lemma_encode_len(order: ByteOrder, width: nat, value: u64)
    ensures
        encode(order, width, value).len() == width,
{
}

/// Big endian lays out the same bytes as little endian, in the opposite
/// order.
pub proof fn lemma_big_endian_reverses(width: nat, value: u64)
    ensures
        encode(ByteOrder::BigEndian, width, value) == encode(
            ByteOrder::LittleEndian,
            width,
            value,
        ).reverse(),
{
    assert(encode(ByteOrder::BigEndian, width, value) =~= encode(
        ByteOrder::LittleEndian,
        width,
        value,
    ).reverse());
}

/// Decoding gives back the value that was encoded, in either byte order,
/// when the value fits into the width.
pub proof fn lemma_decode_encode(order: ByteOrder, width: nat, value: u64)
    requires
        is_width(width),
        fits(value, width),
    ensures
        decode(order, width, encode(order, width, value)) == value,
{
    reveal_with_fuel(decode_prefix, 9);
    let v = value;
    match order {
        ByteOrder::LittleEndian => {
            if width == 1 {
                assert(
                    0u64
                    | byte_placed(byte_at(v, 0u64), 0u64)
                    == v
                ) by (bit_vector)
                    requires
                        v <= 0xff,
                ;
            } else if width == 2 {
                assert(
                    0u64
                    | byte_placed(byte_at(v, 0u64), 0u64)
                    | byte_placed(byte_at(v, 8u64), 8u64)
                    == v
                ) by (bit_vector)
                    requires
                        v <= 0xffff,
                ;
            } else if width == 4 {
                assert(
                    0u64
                    | byte_placed(byte_at(v, 0u64), 0u64)
                    | byte_placed(byte_at(v, 8u64), 8u64)
                    | byte_placed(byte_at(v, 16u64), 16u64)
                    | byte_placed(byte_at(v, 24u64), 24u64)
                    == v
                ) by (bit_vector)
                    requires
                        v <= 0xffff_ffff,
                ;
            } else if width == 8 {
                assert(
                    0u64
                    | byte_placed(byte_at(v, 0u64), 0u64)
                    | byte_placed(byte_at(v, 8u64), 8u64)
                    | byte_placed(byte_at(v, 16u64), 16u64)
                    | byte_placed(byte_at(v, 24u64), 24u64)
                    | byte_placed(byte_at(v, 32u64), 32u64)
                    | byte_placed(byte_at(v, 40u64), 40u64)
                    | byte_placed(byte_at(v, 48u64), 48u64)
                    | byte_placed(byte_at(v, 56u64), 56u64)
                    == v
                ) by (bit_vector);
            }
        },
        ByteOrder::BigEndian => {
            if width == 1 {
                assert(
                    0u64
                    | byte_placed(byte_at(v, 0u64), 0u64)
                    == v
                ) by (bit_vector)
                    requires
                        v <= 0xff,
                ;
            } else if width == 2 {
                assert(
                    0u64
                    | byte_placed(byte_at(v, 8u64), 8u64)
                    | byte_placed(byte_at(v, 0u64), 0u64)
                    == v
                ) by (bit_vector)
                    requires
                        v <= 0xffff,
                ;
            } else if width == 4 {
                assert(
                    0u64
                    | byte_placed(byte_at(v, 24u64), 24u64)
                    | byte_placed(byte_at(v, 16u64), 16u64)
                    | byte_placed(byte_at(v, 8u64), 8u64)
                    | byte_placed(byte_at(v, 0u64), 0u64)
                    == v
                ) by (bit_vector)
                    requires
                        v <= 0xffff_ffff,
                ;
            } else if width == 8 {
                assert(
                    0u64
                    | byte_placed(byte_at(v, 56u64), 56u64)
                    | byte_placed(byte_at(v, 48u64), 48u64)
                    | byte_placed(byte_at(v, 40u64), 40u64)
                    | byte_placed(byte_at(v, 32u64), 32u64)
                    | byte_placed(byte_at(v, 24u64), 24u64)
                    | byte_placed(byte_at(v, 16u64), 16u64)
                    | byte_placed(byte_at(v, 8u64), 8u64)
                    | byte_placed(byte_at(v, 0u64), 0u64)
                    == v
                ) by (bit_vector);
            }
        },
    }
}

/// Encoding gives back the bytes that were decoded, in either byte order: no
/// two byte strings of one width stand for the same value.
pub proof fn lemma_encode_decode(order: ByteOrder, width: nat, bytes: Seq<u8>)
    requires
        is_width(width),
        bytes.len() == width,
    ensures
        encode(order, width, decode(order, width, bytes)) == bytes,
{
    reveal_with_fuel(decode_prefix, 9);
    let d = decode(order, width, bytes);
    match order {
        ByteOrder::LittleEndian => {
            if width == 1 {
                let b0 = bytes[0];
                assert(
                    byte_at(d, 0u64) == b0
                ) by (bit_vector)
                    requires
                        d == (
                            0u64
                            | byte_placed(b0, 0u64)
                        ),
                ;
            } else if width == 2 {
                let b0 = bytes[0];
                let b1 = bytes[1];
                assert(
                    byte_at(d, 0u64) == b0
                    && byte_at(d, 8u64) == b1
                ) by (bit_vector)
                    requires
                        d == (
                            0u64
                            | byte_placed(b0, 0u64)
                            | byte_placed(b1, 8u64)
                        ),
                ;
            } else if width == 4 {
                let b0 = bytes[0];
                let b1 = bytes[1];
                let b2 = bytes[2];
                let b3 = bytes[3];
                assert(
                    byte_at(d, 0u64) == b0
                    && byte_at(d, 8u64) == b1
                    && byte_at(d, 16u64) == b2
                    && byte_at(d, 24u64) == b3
                ) by (bit_vector)
                    requires
                        d == (
                            0u64
                            | byte_placed(b0, 0u64)
                            | byte_placed(b1, 8u64)
                            | byte_placed(b2, 16u64)
                            | byte_placed(b3, 24u64)
                        ),
                ;
            } else if width == 8 {
                let b0 = bytes[0];
                let b1 = bytes[1];
                let b2 = bytes[2];
                let b3 = bytes[3];
                let b4 = bytes[4];
                let b5 = bytes[5];
                let b6 = bytes[6];
                let b7 = bytes[7];
                assert(
                    byte_at(d, 0u64) == b0
                    && byte_at(d, 8u64) == b1
                    && byte_at(d, 16u64) == b2
                    && byte_at(d, 24u64) == b3
                    && byte_at(d, 32u64) == b4
                    && byte_at(d, 40u64) == b5
                    && byte_at(d, 48u64) == b6
                    && byte_at(d, 56u64) == b7
                ) by (bit_vector)
                    requires
                        d == (
                            0u64
                            | byte_placed(b0, 0u64)
                            | byte_placed(b1, 8u64)
                            | byte_placed(b2, 16u64)
                            | byte_placed(b3, 24u64)
                            | byte_placed(b4, 32u64)
                            | byte_placed(b5, 40u64)
                            | byte_placed(b6, 48u64)
                            | byte_placed(b7, 56u64)
                        ),
                ;
            }
        },
        ByteOrder::BigEndian => {
            if width == 1 {
                let b0 = bytes[0];
                assert(
                    byte_at(d, 0u64) == b0
                ) by (bit_vector)
                    requires
                        d == (
                            0u64
                            | byte_placed(b0, 0u64)
                        ),
                ;
            } else if width == 2 {
                let b0 = bytes[0];
                let b1 = bytes[1];
                assert(
                    byte_at(d, 8u64) == b0
                    && byte_at(d, 0u64) == b1
                ) by (bit_vector)
                    requires
                        d == (
                            0u64
                            | byte_placed(b0, 8u64)
                            | byte_placed(b1, 0u64)
                        ),
                ;
            } else if width == 4 {
                let b0 = bytes[0];
                let b1 = bytes[1];
                let b2 = bytes[2];
                let b3 = bytes[3];
                assert(
                    byte_at(d, 24u64) == b0
                    && byte_at(d, 16u64) == b1
                    && byte_at(d, 8u64) == b2
                    && byte_at(d, 0u64) == b3
                ) by (bit_vector)
                    requires
                        d == (
                            0u64
                            | byte_placed(b0, 24u64)
                            | byte_placed(b1, 16u64)
                            | byte_placed(b2, 8u64)
                            | byte_placed(b3, 0u64)
                        ),
                ;
            } else if width == 8 {
                let b0 = bytes[0];
                let b1 = bytes[1];
                let b2 = bytes[2];
                let b3 = bytes[3];
                let b4 = bytes[4];
                let b5 = bytes[5];
                let b6 = bytes[6];
                let b7 = bytes[7];
                assert(
                    byte_at(d, 56u64) == b0
                    && byte_at(d, 48u64) == b1
                    && byte_at(d, 40u64) == b2
                    && byte_at(d, 32u64) == b3
                    && byte_at(d, 24u64) == b4
                    && byte_at(d, 16u64) == b5
                    && byte_at(d, 8u64) == b6
                    && byte_at(d, 0u64) == b7
                ) by (bit_vector)
                    requires
                        d == (
                            0u64
                            | byte_placed(b0, 56u64)
                            | byte_placed(b1, 48u64)
                            | byte_placed(b2, 40u64)
                            | byte_placed(b3, 32u64)
                            | byte_placed(b4, 24u64)
                            | byte_placed(b5, 16u64)
                            | byte_placed(b6, 8u64)
                            | byte_placed(b7, 0u64)
                        ),
                ;
            }
        },
    }
    assert(encode(order, width, d) =~= bytes);
}

/// Reading the two's complement bits of a signed value as signed gives the
/// value back, and the bits fit into the width.
pub proof fn lemma_signed_of_unsigned_of(value: int, width: nat)
    requires
        is_width(width),
        -modulus(width) <= 2 * value < modulus(width),
    ensures
        0 <= unsigned_of(value, width) < modulus(width),
        signed_of(unsigned_of(value, width), width) == value,
{
}

/// Taking the two's complement bits of the signed reading of an unsigned
/// value gives the value back.
pub proof fn lemma_unsigned_of_signed_of(bits: int, width: nat)
    requires
        is_width(width),
        0 <= bits < modulus(width),
    ensures
        -modulus(width) <= 2 * signed_of(bits, width) < modulus(width),
        unsigned_of(signed_of(bits, width), width) == bits,
{
}

} // verus!
