//! The six fixed-width scalars: integers of 8, 16, 32 and 64 bits in two's
//! complement, and floats of 32 and 64 bits, all little-endian.
//!
//! A float travels as its IEEE-754 bit pattern, so the two float functions
//! take and return the pattern (`f32::to_bits`, `f32::from_bits`): every
//! pattern comes back as it went, a NaN's payload and the sign of a zero
//! included.

use crate::endian::{
    i16_bits, i16_of_bits, i32_bits, i32_of_bits, i64_bits, i64_of_bits, i8_bits, i8_of_bits,
    le_bytes, le_value, lemma_le_bytes_len, lemma_le_value_of_le_bytes, lemma_radix_values,
    lemma_signed_wire_round_trip, signed_wire, u16_from_le, u16_to_le, u32_from_le, u32_to_le,
    u64_from_le, u64_to_le, wire_signed,
};
use crate::error::Error;
use crate::stream::{accepts, delivers, read_exact, send, ByteSink, ByteSource, Decoded};
use vstd::prelude::*;

verus! {

/// The byte of an 8-bit integer on the wire.
pub open spec fn byte_wire(v: i8) -> Seq<u8> {
    signed_wire(v as int, 1)
}

/// What a reader of an 8-bit integer makes of `pending`.
pub open spec fn decode_byte(pending: Seq<u8>) -> Decoded<i8> {
    if pending.len() < 1 {
        Decoded::Incomplete
    } else {
        Decoded::Value { value: wire_signed(pending.take(1)) as i8, taken: 1 }
    }
}

/// The two bytes of a 16-bit integer on the wire.
pub open spec fn short_wire(v: i16) -> Seq<u8> {
    signed_wire(v as int, 2)
}

/// What a reader of a 16-bit integer makes of `pending`.
pub open spec fn decode_short(pending: Seq<u8>) -> Decoded<i16> {
    if pending.len() < 2 {
        Decoded::Incomplete
    } else {
        Decoded::Value { value: wire_signed(pending.take(2)) as i16, taken: 2 }
    }
}

/// The four bytes of a 32-bit integer on the wire.
pub open spec fn int_wire(v: i32) -> Seq<u8> {
    signed_wire(v as int, 4)
}

/// What a reader of a 32-bit integer makes of `pending`.
pub open spec fn decode_int(pending: Seq<u8>) -> Decoded<i32> {
    if pending.len() < 4 {
        Decoded::Incomplete
    } else {
        Decoded::Value { value: wire_signed(pending.take(4)) as i32, taken: 4 }
    }
}

/// The eight bytes of a 64-bit integer on the wire.
pub open spec fn long_wire(v: i64) -> Seq<u8> {
    signed_wire(v as int, 8)
}

/// What a reader of a 64-bit integer makes of `pending`.
pub open spec fn decode_long(pending: Seq<u8>) -> Decoded<i64> {
    if pending.len() < 8 {
        Decoded::Incomplete
    } else {
        Decoded::Value { value: wire_signed(pending.take(8)) as i64, taken: 8 }
    }
}

/// The four bytes on the wire of a 32-bit float with the bit pattern `bits`.
pub open spec fn float_wire(bits: u32) -> Seq<u8> {
    le_bytes(bits as nat, 4)
}

/// What a reader of a 32-bit float makes of `pending`: the bit pattern.
pub open spec fn decode_float(pending: Seq<u8>) -> Decoded<u32> {
    if pending.len() < 4 {
        Decoded::Incomplete
    } else {
        Decoded::Value { value: le_value(pending.take(4)) as u32, taken: 4 }
    }
}

/// The eight bytes on the wire of a 64-bit float with the bit pattern `bits`.
pub open spec fn double_wire(bits: u64) -> Seq<u8> {
    le_bytes(bits as nat, 8)
}

/// What a reader of a 64-bit float makes of `pending`: the bit pattern.
pub open spec fn decode_double(pending: Seq<u8>) -> Decoded<u64> {
    if pending.len() < 8 {
        Decoded::Incomplete
    } else {
        Decoded::Value { value: le_value(pending.take(8)) as u64, taken: 8 }
    }
}

/// Writes an 8-bit integer: one byte.
pub fn write_bare_byte<W: ByteSink>(dst: &mut W, value: i8) -> (r: Result<(), Error>)
    ensures
        accepts(old(dst), final(dst), r, byte_wire(value)),
{
    let buf: [u8; 1] = [i8_bits(value)];
    proof {
        lemma_radix_values();
        reveal_with_fuel(le_bytes, 2);
        assert(buf@ =~= byte_wire(value));
    }
    send(dst, &buf)
}

/// Writes a 16-bit integer: two bytes, lowest first.
pub fn write_bare_short<W: ByteSink>(dst: &mut W, value: i16) -> (r: Result<(), Error>)
    ensures
        accepts(old(dst), final(dst), r, short_wire(value)),
{
    let buf = u16_to_le(i16_bits(value));
    send(dst, &buf)
}

/// Writes a 32-bit integer: four bytes, lowest first.
pub fn write_bare_int<W: ByteSink>(dst: &mut W, value: i32) -> (r: Result<(), Error>)
    ensures
        accepts(old(dst), final(dst), r, int_wire(value)),
{
    let buf = u32_to_le(i32_bits(value));
    send(dst, &buf)
}

/// Writes a 64-bit integer: eight bytes, lowest first.
pub fn write_bare_long<W: ByteSink>(dst: &mut W, value: i64) -> (r: Result<(), Error>)
    ensures
        accepts(old(dst), final(dst), r, long_wire(value)),
{
    let buf = u64_to_le(i64_bits(value));
    send(dst, &buf)
}

/// Writes a 32-bit float, given by its bit pattern: four bytes, lowest first.
pub fn write_bare_float<W: ByteSink>(dst: &mut W, bits: u32) -> (r: Result<(), Error>)
    ensures
        accepts(old(dst), final(dst), r, float_wire(bits)),
{
    let buf = u32_to_le(bits);
    send(dst, &buf)
}

/// Writes a 64-bit float, given by its bit pattern: eight bytes, lowest first.
pub fn write_bare_double<W: ByteSink>(dst: &mut W, bits: u64) -> (r: Result<(), Error>)
    ensures
        accepts(old(dst), final(dst), r, double_wire(bits)),
{
    let buf = u64_to_le(bits);
    send(dst, &buf)
}

/// Reads an 8-bit integer.
pub fn read_bare_byte<R: ByteSource>(src: &mut R) -> (r: Result<i8, Error>)
    ensures
        delivers(old(src), final(src), r, decode_byte(old(src).pending())),
        r matches Err(e) ==> e is IoError || e is IncompleteNbtValue,
{
    let mut buf = [0u8; 1];
    read_exact(src, &mut buf)?;
    proof {
        reveal_with_fuel(le_value, 2);
    }
    Ok(i8_of_bits(buf[0]))
}

/// Reads a 16-bit integer.
pub fn read_bare_short<R: ByteSource>(src: &mut R) -> (r: Result<i16, Error>)
    ensures
        delivers(old(src), final(src), r, decode_short(old(src).pending())),
        r matches Err(e) ==> e is IoError || e is IncompleteNbtValue,
{
    let mut buf = [0u8; 2];
    read_exact(src, &mut buf)?;
    Ok(i16_of_bits(u16_from_le(&buf)))
}

/// Reads a 32-bit integer.
pub fn read_bare_int<R: ByteSource>(src: &mut R) -> (r: Result<i32, Error>)
    ensures
        delivers(old(src), final(src), r, decode_int(old(src).pending())),
        r matches Err(e) ==> e is IoError || e is IncompleteNbtValue,
{
    let mut buf = [0u8; 4];
    read_exact(src, &mut buf)?;
    Ok(i32_of_bits(u32_from_le(&buf)))
}

/// Reads a 64-bit integer.
pub fn read_bare_long<R: ByteSource>(src: &mut R) -> (r: Result<i64, Error>)
    ensures
        delivers(old(src), final(src), r, decode_long(old(src).pending())),
        r matches Err(e) ==> e is IoError || e is IncompleteNbtValue,
{
    let mut buf = [0u8; 8];
    read_exact(src, &mut buf)?;
    Ok(i64_of_bits(u64_from_le(&buf)))
}

/// Reads a 32-bit float and returns its bit pattern.
pub fn read_bare_float<R: ByteSource>(src: &mut R) -> (r: Result<u32, Error>)
    ensures
        delivers(old(src), final(src), r, decode_float(old(src).pending())),
        r matches Err(e) ==> e is IoError || e is IncompleteNbtValue,
{
    let mut buf = [0u8; 4];
    read_exact(src, &mut buf)?;
    Ok(u32_from_le(&buf))
}

/// Reads a 64-bit float and returns its bit pattern.
pub fn read_bare_double<R: ByteSource>(src: &mut R) -> (r: Result<u64, Error>)
    ensures
        delivers(old(src), final(src), r, decode_double(old(src).pending())),
        r matches Err(e) ==> e is IoError || e is IncompleteNbtValue,
{
    let mut buf = [0u8; 8];
    read_exact(src, &mut buf)?;
    Ok(u64_from_le(&buf))
}

/// Every 8-bit integer that is written is read back as it was, whatever follows
/// it in the stream.
pub proof fn lemma_byte_round_trip(v: i8, rest: Seq<u8>)
    ensures
        byte_wire(v).len() == 1,
        decode_byte(byte_wire(v) + rest) == (Decoded::Value { value: v, taken: 1 }),
{
    lemma_radix_values();
    lemma_signed_wire_round_trip(v as int, 1);
    assert((byte_wire(v) + rest).take(1) =~= byte_wire(v));
}

/// Every 16-bit integer that is written is read back as it was, whatever follows
/// it in the stream.
pub proof fn lemma_short_round_trip(v: i16, rest: Seq<u8>)
    ensures
        short_wire(v).len() == 2,
        decode_short(short_wire(v) + rest) == (Decoded::Value { value: v, taken: 2 }),
{
    lemma_radix_values();
    lemma_signed_wire_round_trip(v as int, 2);
    assert((short_wire(v) + rest).take(2) =~= short_wire(v));
}

/// Every 32-bit integer that is written is read back as it was, whatever follows
/// it in the stream.
pub proof fn lemma_int_round_trip(v: i32, rest: Seq<u8>)
    ensures
        int_wire(v).len() == 4,
        decode_int(int_wire(v) + rest) == (Decoded::Value { value: v, taken: 4 }),
{
    lemma_radix_values();
    lemma_signed_wire_round_trip(v as int, 4);
    assert((int_wire(v) + rest).take(4) =~= int_wire(v));
}

/// Every 64-bit integer that is written is read back as it was, whatever follows
/// it in the stream.
pub proof fn lemma_long_round_trip(v: i64, rest: Seq<u8>)
    ensures
        long_wire(v).len() == 8,
        decode_long(long_wire(v) + rest) == (Decoded::Value { value: v, taken: 8 }),
{
    lemma_radix_values();
    lemma_signed_wire_round_trip(v as int, 8);
    assert((long_wire(v) + rest).take(8) =~= long_wire(v));
}

/// Every bit pattern of a 32-bit float that is written is read back as it was,
/// whatever follows it in the stream.
pub proof fn lemma_float_round_trip(bits: u32, rest: Seq<u8>)
    ensures
        float_wire(bits).len() == 4,
        decode_float(float_wire(bits) + rest) == (Decoded::Value { value: bits, taken: 4 }),
{
    lemma_radix_values();
    lemma_le_bytes_len(bits as nat, 4);
    lemma_le_value_of_le_bytes(bits as nat, 4);
    assert((float_wire(bits) + rest).take(4) =~= float_wire(bits));
}

/// Every bit pattern of a 64-bit float that is written is read back as it was,
/// whatever follows it in the stream.
pub proof fn lemma_double_round_trip(bits: u64, rest: Seq<u8>)
    ensures
        double_wire(bits).len() == 8,
        decode_double(double_wire(bits) + rest) == (Decoded::Value { value: bits, taken: 8 }),
{
    lemma_radix_values();
    lemma_le_bytes_len(bits as nat, 8);
    lemma_le_value_of_le_bytes(bits as nat, 8);
    assert((double_wire(bits) + rest).take(8) =~= double_wire(bits));
}

} // verus!
