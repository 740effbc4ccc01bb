//! Arrays of 8-bit, 32-bit and 64-bit integers: a count of 32 bits, then the
//! elements, each as the scalar of its kind.
//!
//! The count is signed on the wire. A reader takes a negative count as one
//! that no stream can satisfy and reports the array as incomplete; it never
//! sizes memory by a count that it has not checked against a limit.

use crate::endian::{
    lemma_le_bytes_len, lemma_radix_values, lemma_signed_wire_round_trip,
    lemma_wire_signed_bound, radix, signed_wire, twos_complement, wire_signed,
};
use crate::error::Error;
use crate::scalar::{
    read_bare_byte, read_bare_int, read_bare_long, write_bare_byte, write_bare_int,
    write_bare_long,
};
use crate::stream::{accepts, delivers, ByteSink, ByteSource, Decoded};
use vstd::prelude::*;

verus! {

/// The most elements that a reader makes room for before it has read any.
pub const PREALLOCATION_LIMIT: usize = 4096;

/// The longest array that the count can announce.
pub const MAX_ARRAY_LEN: usize = 0x7FFF_FFFF;

/// The bytes of `items` one after the other, each in `width` bytes.
pub open spec fn elements_wire(items: Seq<int>, width: nat) -> Seq<u8>
    decreases items.len(),
{
    if items.len() == 0 {
        Seq::empty()
    } else {
        elements_wire(items.drop_last(), width) + signed_wire(items.last(), width)
    }
}

/// The bytes of an array on the wire: how many elements it has, in four
/// bytes, then the elements, each in `width` bytes.
pub open spec fn array_wire(items: Seq<int>, width: nat) -> Seq<u8> {
    signed_wire(items.len() as int, 4) + elements_wire(items, width)
}

/// How many elements the array in front of `pending` has, where `pending`
/// holds all of them; `None` where the count is cut short or negative, or
/// announces more elements than follow.
pub open spec fn array_count(pending: Seq<u8>, width: nat) -> Option<nat> {
    if pending.len() < 4 {
        None
    } else {
        let count = wire_signed(pending.take(4));
        if count < 0 || pending.len() < 4 + width * count {
            None
        } else {
            Some(count as nat)
        }
    }
}

/// The bytes of element `i` of the array in front of `pending`.
pub open spec fn element_bytes(pending: Seq<u8>, width: nat, i: int) -> Seq<u8> {
    pending.subrange(4 + width * i, 4 + width * i + width)
}

/// The bytes of an array of 8-bit integers on the wire.
pub open spec fn byte_array_wire(a: Seq<i8>) -> Seq<u8> {
    array_wire(a.map_values(|v: i8| v as int), 1)
}

/// What a reader of an array of 8-bit integers makes of `pending`.
pub open spec fn decode_byte_array(pending: Seq<u8>) -> Decoded<Seq<i8>> {
    match array_count(pending, 1) {
        Some(count) => Decoded::Value {
            value: Seq::new(count, |i: int| wire_signed(element_bytes(pending, 1, i)) as i8),
            taken: 4 + 1 * count,
        },
        None => Decoded::Incomplete,
    }
}

/// The bytes of an array of 32-bit integers on the wire.
pub open spec fn int_array_wire(a: Seq<i32>) -> Seq<u8> {
    array_wire(a.map_values(|v: i32| v as int), 4)
}

/// What a reader of an array of 32-bit integers makes of `pending`.
pub open spec fn decode_int_array(pending: Seq<u8>) -> Decoded<Seq<i32>> {
    match array_count(pending, 4) {
        Some(count) => Decoded::Value {
            value: Seq::new(count, |i: int| wire_signed(element_bytes(pending, 4, i)) as i32),
            taken: 4 + 4 * count,
        },
        None => Decoded::Incomplete,
    }
}

/// The bytes of an array of 64-bit integers on the wire.
pub open spec fn long_array_wire(a: Seq<i64>) -> Seq<u8> {
    array_wire(a.map_values(|v: i64| v as int), 8)
}

/// What a reader of an array of 64-bit integers makes of `pending`.
pub open spec fn decode_long_array(pending: Seq<u8>) -> Decoded<Seq<i64>> {
    match array_count(pending, 8) {
        Some(count) => Decoded::Value {
            value: Seq::new(count, |i: int| wire_signed(element_bytes(pending, 8, i)) as i64),
            taken: 4 + 8 * count,
        },
        None => Decoded::Incomplete,
    }
}

/// Adding an element to a sequence adds its bytes at the end.
proof fn lemma_elements_wire_push(items: Seq<int>, width: nat, n: int)
    requires
        0 <= n < items.len(),
    ensures
        elements_wire(items.take(n + 1), width) == elements_wire(items.take(n), width)
            + signed_wire(items[n], width),
{
    assert(items.take(n + 1).drop_last() =~= items.take(n));
}

/// The elements take `width` bytes each, and the bytes of element `i` are
/// those of its scalar.
proof fn lemma_elements_wire_layout(items: Seq<int>, width: nat)
    ensures
        elements_wire(items, width).len() == width * items.len(),
        forall|i: int|
            0 <= i < items.len() ==> #[trigger] elements_wire(items, width).subrange(
                width * i,
                width * i + width,
            ) == signed_wire(items[i], width),
    decreases items.len(),
{
    if items.len() > 0 {
        let front = items.drop_last();
        let n = front.len() as int;
        lemma_elements_wire_layout(front, width);
        lemma_le_bytes_len(twos_complement(items.last(), width), width);
        assert(width * (n + 1) == width * n + width) by (nonlinear_arith);
        assert forall|i: int| 0 <= i < items.len() implies #[trigger] elements_wire(
            items,
            width,
        ).subrange(width * i, width * i + width) == signed_wire(items[i], width) by {
            if i < n {
                assert(width * i + width <= width * n) by (nonlinear_arith)
                    requires
                        0 <= i < n,
                ;
                assert(0 <= width * i) by (nonlinear_arith)
                    requires
                        0 <= i,
                ;
                assert(elements_wire(items, width).subrange(width * i, width * i + width)
                    =~= elements_wire(front, width).subrange(width * i, width * i + width));
            } else {
                assert(elements_wire(items, width).subrange(width * i, width * i + width)
                    =~= signed_wire(items.last(), width));
            }
        }
    } else {
        assert(width * 0 == 0) by (nonlinear_arith);
    }
}

/// An array of at most `MAX_ARRAY_LEN` elements, each of which fits in
/// `width` bytes, is laid out as its reader expects: the count comes back,
/// and so does each element, whatever follows the array in the stream.
pub proof fn lemma_array_round_trip(items: Seq<int>, width: nat, rest: Seq<u8>)
    requires
        width > 0,
        items.len() <= MAX_ARRAY_LEN,
        forall|i: int| 0 <= i < items.len() ==> -radix(width) <= 2 * #[trigger] items[i] < radix(width),
    ensures
        array_wire(items, width).len() == 4 + width * items.len(),
        array_count(array_wire(items, width) + rest, width) == Some(items.len()),
        forall|i: int|
            0 <= i < items.len() ==> wire_signed(
                #[trigger] element_bytes(array_wire(items, width) + rest, width, i),
            ) == items[i],
{
    let head = signed_wire(items.len() as int, 4);
    let body = elements_wire(items, width);
    let pending = array_wire(items, width) + rest;
    lemma_radix_values();
    lemma_signed_wire_round_trip(items.len() as int, 4);
    lemma_elements_wire_layout(items, width);
    assert(pending.take(4) =~= head);
    assert(width * items.len() >= 0) by (nonlinear_arith);
    assert forall|i: int| 0 <= i < items.len() implies wire_signed(
        #[trigger] element_bytes(pending, width, i),
    ) == items[i] by {
        assert(0 <= width * i && width * i + width <= width * items.len()) by (nonlinear_arith)
            requires
                0 <= i < items.len(),
        ;
        assert(element_bytes(pending, width, i) =~= body.subrange(width * i, width * i + width));
        lemma_signed_wire_round_trip(items[i], width);
    }
}

/// Writes an array of 8-bit integers: the count, then each element as
/// `write_bare_byte` writes it.
///
/// The count has 31 bits, so the array must not be longer than
/// `MAX_ARRAY_LEN`.
pub fn write_bare_byte_array<W: ByteSink>(dst: &mut W, value: &[i8]) -> (r: Result<(), Error>)
    requires
        value@.len() <= MAX_ARRAY_LEN,
    ensures
        accepts(old(dst), final(dst), r, byte_array_wire(value@)),
{
    let ghost items = value@.map_values(|v: i8| v as int);
    write_bare_int(dst, value.len() as i32)?;
    let mut i: usize = 0;
    while i < value.len()
        invariant
            i <= value@.len(),
            items == value@.map_values(|v: i8| v as int),
            dst.modelled() == old(dst).modelled(),
            old(dst).modelled() ==> dst.written() == old(dst).written() + signed_wire(
                value@.len() as int,
                4,
            ) + elements_wire(items.take(i as int), 1),
        decreases value@.len() - i,
    {
        proof {
            lemma_elements_wire_push(items, 1, i as int);
        }
        write_bare_byte(dst, value[i])?;
        i += 1;
    }
    proof {
        assert(items.take(i as int) =~= items);
        assert(old(dst).written() + signed_wire(value@.len() as int, 4) + elements_wire(items, 1)
            =~= old(dst).written() + byte_array_wire(value@));
    }
    Ok(())
}

/// Writes an array of 32-bit integers: the count, then each element as
/// `write_bare_int` writes it.
///
/// The count has 31 bits, so the array must not be longer than
/// `MAX_ARRAY_LEN`.
pub fn write_bare_int_array<W: ByteSink>(dst: &mut W, value: &[i32]) -> (r: Result<(), Error>)
    requires
        value@.len() <= MAX_ARRAY_LEN,
    ensures
        accepts(old(dst), final(dst), r, int_array_wire(value@)),
{
    let ghost items = value@.map_values(|v: i32| v as int);
    write_bare_int(dst, value.len() as i32)?;
    let mut i: usize = 0;
    while i < value.len()
        invariant
            i <= value@.len(),
            items == value@.map_values(|v: i32| v as int),
            dst.modelled() == old(dst).modelled(),
            old(dst).modelled() ==> dst.written() == old(dst).written() + signed_wire(
                value@.len() as int,
                4,
            ) + elements_wire(items.take(i as int), 4),
        decreases value@.len() - i,
    {
        proof {
            lemma_elements_wire_push(items, 4, i as int);
        }
        write_bare_int(dst, value[i])?;
        i += 1;
    }
    proof {
        assert(items.take(i as int) =~= items);
        assert(old(dst).written() + signed_wire(value@.len() as int, 4) + elements_wire(items, 4)
            =~= old(dst).written() + int_array_wire(value@));
    }
    Ok(())
}

/// Writes an array of 64-bit integers: the count, then each element as
/// `write_bare_long` writes it.
///
/// The count has 31 bits, so the array must not be longer than
/// `MAX_ARRAY_LEN`.
pub fn write_bare_long_array<W: ByteSink>(dst: &mut W, value: &[i64]) -> (r: Result<(), Error>)
    requires
        value@.len() <= MAX_ARRAY_LEN,
    ensures
        accepts(old(dst), final(dst), r, long_array_wire(value@)),
{
    let ghost items = value@.map_values(|v: i64| v as int);
    write_bare_int(dst, value.len() as i32)?;
    let mut i: usize = 0;
    while i < value.len()
        invariant
            i <= value@.len(),
            items == value@.map_values(|v: i64| v as int),
            dst.modelled() == old(dst).modelled(),
            old(dst).modelled() ==> dst.written() == old(dst).written() + signed_wire(
                value@.len() as int,
                4,
            ) + elements_wire(items.take(i as int), 8),
        decreases value@.len() - i,
    {
        proof {
            lemma_elements_wire_push(items, 8, i as int);
        }
        write_bare_long(dst, value[i])?;
        i += 1;
    }
    proof {
        assert(items.take(i as int) =~= items);
        assert(old(dst).written() + signed_wire(value@.len() as int, 4) + elements_wire(items, 8)
            =~= old(dst).written() + long_array_wire(value@));
    }
    Ok(())
}

/// Reads an array of 8-bit integers: the count, then each element as
/// `read_bare_byte` reads it.
pub fn read_bare_byte_array<R: ByteSource>(src: &mut R) -> (r: Result<Vec<i8>, Error>)
    ensures
        delivers(old(src), final(src), r, decode_byte_array(old(src).pending())),
        r matches Err(e) ==> e is IoError || e is IncompleteNbtValue,
{
    let ghost pending = old(src).pending();
    let count: i32 = read_bare_int(src)?;
    proof {
        lemma_radix_values();
        lemma_wire_signed_bound(pending.take(4));
    }
    if count < 0 {
        return Err(Error::IncompleteNbtValue);
    }
    let len: usize = count as usize;
    let mut buf: Vec<i8> = Vec::with_capacity(
        if len < PREALLOCATION_LIMIT {
            len
        } else {
            PREALLOCATION_LIMIT
        },
    );
    let mut i: usize = 0;
    while i < len
        invariant
            i <= len <= MAX_ARRAY_LEN,
            buf@.len() == i,
            pending == old(src).pending(),
            src.modelled() == old(src).modelled(),
            old(src).modelled() ==> {
                &&& 4 <= pending.len()
                &&& len == wire_signed(pending.take(4))
                &&& 4 + 1 * i <= pending.len()
                &&& src.pending() == pending.skip(4 + 1 * i)
                &&& forall|j: int|
                    0 <= j < i ==> #[trigger] buf@[j] == wire_signed(
                        element_bytes(pending, 1, j),
                    ) as i8
            },
        decreases len - i,
    {
        let ghost before = src.pending();
        let v: i8 = read_bare_byte(src)?;
        buf.push(v);
        proof {
            if old(src).modelled() {
                assert(before.take(1) =~= element_bytes(pending, 1, i as int));
                assert(before.skip(1) =~= pending.skip(4 + 1 * (i + 1)));
            }
        }
        i += 1;
    }
    proof {
        if old(src).modelled() {
            assert(buf@ =~= Seq::new(
                len as nat,
                |j: int| wire_signed(element_bytes(pending, 1, j)) as i8,
            ));
        }
    }
    Ok(buf)
}

/// Reads an array of 32-bit integers: the count, then each element as
/// `read_bare_int` reads it.
pub fn read_bare_int_array<R: ByteSource>(src: &mut R) -> (r: Result<Vec<i32>, Error>)
    ensures
        delivers(old(src), final(src), r, decode_int_array(old(src).pending())),
        r matches Err(e) ==> e is IoError || e is IncompleteNbtValue,
{
    let ghost pending = old(src).pending();
    let count: i32 = read_bare_int(src)?;
    proof {
        lemma_radix_values();
        lemma_wire_signed_bound(pending.take(4));
    }
    if count < 0 {
        return Err(Error::IncompleteNbtValue);
    }
    let len: usize = count as usize;
    let mut buf: Vec<i32> = Vec::with_capacity(
        if len < PREALLOCATION_LIMIT {
            len
        } else {
            PREALLOCATION_LIMIT
        },
    );
    let mut i: usize = 0;
    while i < len
        invariant
            i <= len <= MAX_ARRAY_LEN,
            buf@.len() == i,
            pending == old(src).pending(),
            src.modelled() == old(src).modelled(),
            old(src).modelled() ==> {
                &&& 4 <= pending.len()
                &&& len == wire_signed(pending.take(4))
                &&& 4 + 4 * i <= pending.len()
                &&& src.pending() == pending.skip(4 + 4 * i)
                &&& forall|j: int|
                    0 <= j < i ==> #[trigger] buf@[j] == wire_signed(
                        element_bytes(pending, 4, j),
                    ) as i32
            },
        decreases len - i,
    {
        let ghost before = src.pending();
        let v: i32 = read_bare_int(src)?;
        buf.push(v);
        proof {
            if old(src).modelled() {
                assert(before.take(4) =~= element_bytes(pending, 4, i as int));
                assert(before.skip(4) =~= pending.skip(4 + 4 * (i + 1)));
            }
        }
        i += 1;
    }
    proof {
        if old(src).modelled() {
            assert(buf@ =~= Seq::new(
                len as nat,
                |j: int| wire_signed(element_bytes(pending, 4, j)) as i32,
            ));
        }
    }
    Ok(buf)
}

/// Reads an array of 64-bit integers: the count, then each element as
/// `read_bare_long` reads it.
pub fn read_bare_long_array<R: ByteSource>(src: &mut R) -> (r: Result<Vec<i64>, Error>)
    ensures
        delivers(old(src), final(src), r, decode_long_array(old(src).pending())),
        r matches Err(e) ==> e is IoError || e is IncompleteNbtValue,
{
    let ghost pending = old(src).pending();
    let count: i32 = read_bare_int(src)?;
    proof {
        lemma_radix_values();
        lemma_wire_signed_bound(pending.take(4));
    }
    if count < 0 {
        return Err(Error::IncompleteNbtValue);
    }
    let len: usize = count as usize;
    let mut buf: Vec<i64> = Vec::with_capacity(
        if len < PREALLOCATION_LIMIT {
            len
        } else {
            PREALLOCATION_LIMIT
        },
    );
    let mut i: usize = 0;
    while i < len
        invariant
            i <= len <= MAX_ARRAY_LEN,
            buf@.len() == i,
            pending == old(src).pending(),
            src.modelled() == old(src).modelled(),
            old(src).modelled() ==> {
                &&& 4 <= pending.len()
                &&& len == wire_signed(pending.take(4))
                &&& 4 + 8 * i <= pending.len()
                &&& src.pending() == pending.skip(4 + 8 * i)
                &&& forall|j: int|
                    0 <= j < i ==> #[trigger] buf@[j] == wire_signed(
                        element_bytes(pending, 8, j),
                    ) as i64
            },
        decreases len - i,
    {
        let ghost before = src.pending();
        let v: i64 = read_bare_long(src)?;
        buf.push(v);
        proof {
            if old(src).modelled() {
                assert(before.take(8) =~= element_bytes(pending, 8, i as int));
                assert(before.skip(8) =~= pending.skip(4 + 8 * (i + 1)));
            }
        }
        i += 1;
    }
    proof {
        if old(src).modelled() {
            assert(buf@ =~= Seq::new(
                len as nat,
                |j: int| wire_signed(element_bytes(pending, 8, j)) as i64,
            ));
        }
    }
    Ok(buf)
}

/// Every array of 8-bit integers that is no longer than `MAX_ARRAY_LEN` is
/// read back as it was written, whatever follows it in the stream.
pub proof fn lemma_byte_array_round_trip(a: Seq<i8>, rest: Seq<u8>)
    requires
        a.len() <= MAX_ARRAY_LEN,
    ensures
        byte_array_wire(a).len() == 4 + 1 * a.len(),
        decode_byte_array(byte_array_wire(a) + rest) == (Decoded::Value {
            value: a,
            taken: 4 + 1 * a.len(),
        }),
{
    let items = a.map_values(|v: i8| v as int);
    let pending = byte_array_wire(a) + rest;
    lemma_radix_values();
    lemma_array_round_trip(items, 1, rest);
    assert(Seq::new(a.len(), |i: int| wire_signed(element_bytes(pending, 1, i)) as i8) =~= a);
}

/// Every array of 32-bit integers that is no longer than `MAX_ARRAY_LEN` is
/// read back as it was written, whatever follows it in the stream.
pub proof fn lemma_int_array_round_trip(a: Seq<i32>, rest: Seq<u8>)
    requires
        a.len() <= MAX_ARRAY_LEN,
    ensures
        int_array_wire(a).len() == 4 + 4 * a.len(),
        decode_int_array(int_array_wire(a) + rest) == (Decoded::Value {
            value: a,
            taken: 4 + 4 * a.len(),
        }),
{
    let items = a.map_values(|v: i32| v as int);
    let pending = int_array_wire(a) + rest;
    lemma_radix_values();
    lemma_array_round_trip(items, 4, rest);
    assert(Seq::new(a.len(), |i: int| wire_signed(element_bytes(pending, 4, i)) as i32) =~= a);
}

/// Every array of 64-bit integers that is no longer than `MAX_ARRAY_LEN` is
/// read back as it was written, whatever follows it in the stream.
pub proof fn lemma_long_array_round_trip(a: Seq<i64>, rest: Seq<u8>)
    requires
        a.len() <= MAX_ARRAY_LEN,
    ensures
        long_array_wire(a).len() == 4 + 8 * a.len(),
        decode_long_array(long_array_wire(a) + rest) == (Decoded::Value {
            value: a,
            taken: 4 + 8 * a.len(),
        }),
{
    let items = a.map_values(|v: i64| v as int);
    let pending = long_array_wire(a) + rest;
    lemma_radix_values();
    lemma_array_round_trip(items, 8, rest);
    assert(Seq::new(a.len(), |i: int| wire_signed(element_bytes(pending, 8, i)) as i64) =~= a);
}

} // verus!
