//! Strings: a length of 16 bits, then that many bytes of UTF-8.

use crate::endian::{
    le_bytes, le_value, lemma_le_bytes_len, lemma_le_value_of_le_bytes, lemma_radix_values,
    u16_from_le, u16_to_le,
};
use crate::error::Error;
use crate::stream::{accepts, delivers, read_exact, send, ByteSink, ByteSource, Decoded};
use vstd::prelude::*;
use vstd::utf8::{
    decode_utf8, encode_utf8, encode_utf8_decode_utf8, encode_utf8_valid_utf8, valid_utf8,
};

verus! {

/// The longest payload that the length field can announce.
pub const MAX_STRING_BYTES: usize = 0xFFFF;

/// The bytes of a string on the wire: the length of its UTF-8 form in two
/// bytes, then the UTF-8 form.
pub open spec fn string_wire(s: Seq<char>) -> Seq<u8> {
    le_bytes(encode_utf8(s).len(), 2) + encode_utf8(s)
}

/// The payload length that the first two bytes of `pending` announce.
pub open spec fn announced_len(pending: Seq<u8>) -> nat {
    le_value(pending.take(2))
}

/// The bytes of `pending` that follow the length field, as many as it
/// announces.
pub open spec fn string_payload(pending: Seq<u8>) -> Seq<u8> {
    pending.subrange(2, 2 + announced_len(pending) as int)
}

/// What a reader of a string makes of `pending`.
pub open spec fn decode_string(pending: Seq<u8>) -> Decoded<Seq<char>> {
    if pending.len() < 2 || pending.len() < 2 + announced_len(pending) {
        Decoded::Incomplete
    } else if valid_utf8(string_payload(pending)) {
        Decoded::Value {
            value: decode_utf8(string_payload(pending)),
            taken: 2 + announced_len(pending),
        }
    } else {
        Decoded::InvalidText { payload: string_payload(pending) }
    }
}

/// `String::from_utf8`, with the bytes taken back out of its error by
/// `FromUtf8Error::into_bytes`. The call succeeds on UTF-8 and on nothing
/// else; the string is made of the bytes it was given, and the error gives
/// them back unchanged.
#[verifier::external_body]
fn string_from_utf8(bytes: Vec<u8>) -> (r: Result<String, Vec<u8>>)
    ensures
        match r {
            Ok(s) => valid_utf8(bytes@) && encode_utf8(s@) == bytes@,
            Err(kept) => !valid_utf8(bytes@) && kept@ == bytes@,
        },
{
    match String::from_utf8(bytes) {
        Ok(s) => Ok(s),
        Err(e) => Err(e.into_bytes()),
    }
}

/// Writes a string: the length of its UTF-8 form, then the UTF-8 form.
///
/// The length field has 16 bits, so the string's UTF-8 form must not be
/// longer than `MAX_STRING_BYTES`.
pub fn write_bare_string<W: ByteSink>(dst: &mut W, value: &str) -> (r: Result<(), Error>)
    requires
        encode_utf8(value@).len() <= MAX_STRING_BYTES,
    ensures
        accepts(old(dst), final(dst), r, string_wire(value@)),
{
    let len: usize = value.len();
    let head = u16_to_le(len as u16);
    send(dst, &head)?;
    let sent = send(dst, value.as_bytes());
    proof {
        assert(old(dst).written() + head@ + encode_utf8(value@) =~= old(dst).written()
            + string_wire(value@));
    }
    sent
}

/// Reads a string. An empty string takes its two length bytes and no
/// further read.
pub fn read_bare_string<R: ByteSource>(src: &mut R) -> (r: Result<String, Error>)
    ensures
        delivers(old(src), final(src), r, decode_string(old(src).pending())),
        r matches Ok(s) ==> encode_utf8(s@).len() <= MAX_STRING_BYTES,
        r matches Err(Error::InvalidUtf8(kept)) ==> !valid_utf8(kept@) && kept@.len()
            <= MAX_STRING_BYTES,
{
    let mut head = [0u8; 2];
    read_exact(src, &mut head)?;
    let len: usize = u16_from_le(&head) as usize;
    if len == 0 {
        proof {
            if old(src).modelled() {
                assert(string_payload(old(src).pending()) =~= Seq::<u8>::empty());
            }
            encode_utf8_decode_utf8(Seq::<char>::empty());
        }
        return Ok(String::new());
    }
    let mut bytes: Vec<u8> = vec![0u8; len];
    read_exact(src, bytes.as_mut_slice())?;
    proof {
        let pending = old(src).pending();
        if old(src).modelled() {
            assert(bytes@ =~= string_payload(pending));
            assert(pending.skip(2).skip(len as int) =~= pending.skip(2 + len));
        }
    }
    match string_from_utf8(bytes) {
        Ok(s) => {
            proof {
                encode_utf8_decode_utf8(s@);
            }
            Ok(s)
        },
        Err(kept) => Err(Error::InvalidUtf8(kept)),
    }
}

/// Every string whose UTF-8 form fits the length field is read back as it
/// was written, whatever follows it in the stream.
pub proof fn lemma_string_round_trip(s: Seq<char>, rest: Seq<u8>)
    requires
        encode_utf8(s).len() <= MAX_STRING_BYTES,
    ensures
        string_wire(s).len() == 2 + encode_utf8(s).len(),
        decode_string(string_wire(s) + rest) == (Decoded::Value {
            value: s,
            taken: 2 + encode_utf8(s).len(),
        }),
{
    let text = encode_utf8(s);
    let pending = string_wire(s) + rest;
    lemma_radix_values();
    lemma_le_bytes_len(text.len(), 2);
    lemma_le_value_of_le_bytes(text.len(), 2);
    assert(pending.take(2) =~= le_bytes(text.len(), 2));
    assert(string_payload(pending) =~= text);
    encode_utf8_valid_utf8(s);
    encode_utf8_decode_utf8(s);
}

/// A string that announces more bytes than follow it is incomplete: it is
/// never read as a shorter string.
pub proof fn lemma_truncated_string_is_incomplete(pending: Seq<u8>)
    requires
        pending.len() < 2 + announced_len(pending),
    ensures
        decode_string(pending) is Incomplete,
{
}

/// A string whose payload is all there and is not UTF-8 is invalid text,
/// with the whole payload: no part of it is read as a string.
pub proof fn lemma_malformed_string_is_invalid(pending: Seq<u8>)
    requires
        pending.len() >= 2 + announced_len(pending),
        !valid_utf8(string_payload(pending)),
    ensures
        decode_string(pending) == (Decoded::<Seq<char>>::InvalidText {
            payload: string_payload(pending),
        }),
{
}

} // verus!
