//! Little-endian numbers: what their bytes are, and the calls into
//! `byteorder` that produce and read them.

use byteorder::{ByteOrder, LittleEndian};
use vstd::prelude::*;

verus! {

/// How many numbers fit in `width` bytes: 256 to the power `width`.
pub open spec fn radix(width: nat) -> nat
    decreases width,
{
    if width == 0 {
        1
    } else {
        256 * radix((width - 1) as nat)
    }
}

/// The `width` lowest base-256 digits of `n`, lowest first.
pub open spec fn le_bytes(n: nat, width: nat) -> Seq<u8>
    decreases width,
{
    if width == 0 {
        Seq::empty()
    } else {
        seq![(n % 256) as u8] + le_bytes(n / 256, (width - 1) as nat)
    }
}

/// The number whose base-256 digits, lowest first, are `bytes`.
pub open spec fn le_value(bytes: Seq<u8>) -> nat
    decreases bytes.len(),
{
    if bytes.len() == 0 {
        0
    } else {
        bytes[0] as nat + 256 * le_value(bytes.skip(1))
    }
}

/// The number that stands for `v` in two's complement of `width` bytes.
pub open spec fn twos_complement(v: int, width: nat) -> nat {
    if v < 0 {
        (v + radix(width)) as nat
    } else {
        v as nat
    }
}

/// The number for which `n` stands in two's complement of `width` bytes.
pub open spec fn signed_value(n: nat, width: nat) -> int {
    if 2 * n >= radix(width) {
        n - radix(width)
    } else {
        n as int
    }
}

/// The bytes of `v` in little-endian two's complement of `width` bytes.
pub open spec fn signed_wire(v: int, width: nat) -> Seq<u8> {
    le_bytes(twos_complement(v, width), width)
}

/// The number that `bytes`, all of them, hold in little-endian two's
/// complement.
pub open spec fn wire_signed(bytes: Seq<u8>) -> int {
    signed_value(le_value(bytes), bytes.len())
}

/// The radix of the four widths that the format uses.
pub proof fn lemma_radix_values()
    ensures
        radix(1) == 0x100,
        radix(2) == 0x1_0000,
        radix(4) == 0x1_0000_0000,
        radix(8) == 0x1_0000_0000_0000_0000,
{
    reveal_with_fuel(radix, 9);
}

/// `le_bytes` gives as many bytes as it is asked for.
pub proof fn lemma_le_bytes_len(n: nat, width: nat)
    ensures
        le_bytes(n, width).len() == width,
    decreases width,
{
    if width > 0 {
        lemma_le_bytes_len(n / 256, (width - 1) as nat);
    }
}

/// A number that fits in `width` bytes is the value of its bytes.
pub proof fn lemma_le_value_of_le_bytes(n: nat, width: nat)
    requires
        n < radix(width),
    ensures
        le_value(le_bytes(n, width)) == n,
    decreases width,
{
    if width > 0 {
        lemma_le_bytes_len(n / 256, (width - 1) as nat);
        lemma_le_value_of_le_bytes(n / 256, (width - 1) as nat);
        assert(le_bytes(n, width).skip(1) =~= le_bytes(n / 256, (width - 1) as nat));
    }
}

/// The value of some bytes fits in as many bytes.
pub proof fn lemma_le_value_bound(bytes: Seq<u8>)
    ensures
        le_value(bytes) < radix(bytes.len()),
    decreases bytes.len(),
{
    if bytes.len() > 0 {
        lemma_le_value_bound(bytes.skip(1));
    }
}

/// What some bytes hold in two's complement fits in two's complement of as
/// many bytes.
pub proof fn lemma_wire_signed_bound(bytes: Seq<u8>)
    ensures
        -radix(bytes.len()) <= 2 * wire_signed(bytes) < radix(bytes.len()),
{
    lemma_le_value_bound(bytes);
}

/// A number that fits in two's complement of `width` bytes comes back from
/// its bytes. This is the round trip of every signed scalar of the format.
pub proof fn lemma_signed_wire_round_trip(v: int, width: nat)
    requires
        width > 0,
        -radix(width) <= 2 * v < radix(width),
    ensures
        signed_wire(v, width).len() == width,
        wire_signed(signed_wire(v, width)) == v,
{
    let n = twos_complement(v, width);
    lemma_le_bytes_len(n, width);
    lemma_le_value_of_le_bytes(n, width);
}

/// `byteorder::LittleEndian::write_u16` on a buffer of two bytes: the
/// buffer then holds the two base-256 digits of `n`, lowest first.
#[verifier::external_body]
pub(crate) fn u16_to_le(n: u16) -> (buf: [u8; 2])
    ensures
        buf@ == le_bytes(n as nat, 2),
{
    let mut buf = [0u8; 2];
    LittleEndian::write_u16(&mut buf, n);
    buf
}

/// `byteorder::LittleEndian::write_u32` on a buffer of four bytes: the
/// buffer then holds the four base-256 digits of `n`, lowest first.
#[verifier::external_body]
pub(crate) fn u32_to_le(n: u32) -> (buf: [u8; 4])
    ensures
        buf@ == le_bytes(n as nat, 4),
{
    let mut buf = [0u8; 4];
    LittleEndian::write_u32(&mut buf, n);
    buf
}

/// `byteorder::LittleEndian::write_u64` on a buffer of eight bytes: the
/// buffer then holds the eight base-256 digits of `n`, lowest first.
#[verifier::external_body]
pub(crate) fn u64_to_le(n: u64) -> (buf: [u8; 8])
    ensures
        buf@ == le_bytes(n as nat, 8),
{
    let mut buf = [0u8; 8];
    LittleEndian::write_u64(&mut buf, n);
    buf
}

/// `byteorder::LittleEndian::read_u16` on a buffer of two bytes: the number
/// whose base-256 digits, lowest first, the buffer holds.
#[verifier::external_body]
pub(crate) fn u16_from_le(buf: &[u8; 2]) -> (n: u16)
    ensures
        n == le_value(buf@),
{
    LittleEndian::read_u16(buf)
}

/// `byteorder::LittleEndian::read_u32` on a buffer of four bytes: the number
/// whose base-256 digits, lowest first, the buffer holds.
#[verifier::external_body]
pub(crate) fn u32_from_le(buf: &[u8; 4]) -> (n: u32)
    ensures
        n == le_value(buf@),
{
    LittleEndian::read_u32(buf)
}

/// `byteorder::LittleEndian::read_u64` on a buffer of eight bytes: the
/// number whose base-256 digits, lowest first, the buffer holds.
#[verifier::external_body]
pub(crate) fn u64_from_le(buf: &[u8; 8]) -> (n: u64)
    ensures
        n == le_value(buf@),
{
    LittleEndian::read_u64(buf)
}

/// The byte that stands for `v` in two's complement.
pub(crate) fn i8_bits(v: i8) -> (n: u8)
    ensures
        n == twos_complement(v as int, 1),
{
    proof {
        lemma_radix_values();
    }
    let n: u8 = v as u8;
    assert(n == (if v < 0 {
        v + 0x100
    } else {
        v as int
    })) by (bit_vector)
        requires
            n == v as u8,
    ;
    n
}

/// The 16 bits that stand for `v` in two's complement.
pub(crate) fn i16_bits(v: i16) -> (n: u16)
    ensures
        n == twos_complement(v as int, 2),
{
    proof {
        lemma_radix_values();
    }
    let n: u16 = v as u16;
    assert(n == (if v < 0 {
        v + 0x1_0000
    } else {
        v as int
    })) by (bit_vector)
        requires
            n == v as u16,
    ;
    n
}

/// The 32 bits that stand for `v` in two's complement.
pub(crate) fn i32_bits(v: i32) -> (n: u32)
    ensures
        n == twos_complement(v as int, 4),
{
    proof {
        lemma_radix_values();
    }
    let n: u32 = v as u32;
    assert(n == (if v < 0 {
        v + 0x1_0000_0000
    } else {
        v as int
    })) by (bit_vector)
        requires
            n == v as u32,
    ;
    n
}

/// The 64 bits that stand for `v` in two's complement.
pub(crate) fn i64_bits(v: i64) -> (n: u64)
    ensures
        n == twos_complement(v as int, 8),
{
    proof {
        lemma_radix_values();
    }
    let n: u64 = v as u64;
    assert(n == (if v < 0 {
        v + 0x1_0000_0000_0000_0000
    } else {
        v as int
    })) by (bit_vector)
        requires
            n == v as u64,
    ;
    n
}

/// The number for which the byte `n` stands in two's complement.
pub(crate) fn i8_of_bits(n: u8) -> (v: i8)
    ensures
        v == signed_value(n as nat, 1),
{
    proof {
        lemma_radix_values();
    }
    let v: i8 = n as i8;
    assert(v == (if n >= 0x80 {
        n - 0x100
    } else {
        n as int
    })) by (bit_vector)
        requires
            v == n as i8,
    ;
    v
}

/// The number for which the 16 bits of `n` stand in two's complement.
pub(crate) fn i16_of_bits(n: u16) -> (v: i16)
    ensures
        v == signed_value(n as nat, 2),
{
    proof {
        lemma_radix_values();
    }
    let v: i16 = n as i16;
    assert(v == (if n >= 0x8000 {
        n - 0x1_0000
    } else {
        n as int
    })) by (bit_vector)
        requires
            v == n as i16,
    ;
    v
}

/// The number for which the 32 bits of `n` stand in two's complement.
pub(crate) fn i32_of_bits(n: u32) -> (v: i32)
    ensures
        v == signed_value(n as nat, 4),
{
    proof {
        lemma_radix_values();
    }
    let v: i32 = n as i32;
    assert(v == (if n >= 0x8000_0000 {
        n - 0x1_0000_0000
    } else {
        n as int
    })) by (bit_vector)
        requires
            v == n as i32,
    ;
    v
}

/// The number for which the 64 bits of `n` stand in two's complement.
pub(crate) fn i64_of_bits(n: u64) -> (v: i64)
    ensures
        v == signed_value(n as nat, 8),
{
    proof {
        lemma_radix_values();
    }
    let v: i64 = n as i64;
    assert(v == (if n >= 0x8000_0000_0000_0000 {
        n - 0x1_0000_0000_0000_0000
    } else {
        n as int
    })) by (bit_vector)
        requires
            v == n as i64,
    ;
    v
}

} // verus!
