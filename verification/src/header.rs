//! What precedes a value inside a compound: a tag byte and, unless the tag
//! is the end tag, the value's name.

use crate::error::Error;
use crate::stream::{accepts, delivers, read_exact, send, ByteSink, ByteSource, Decoded};
use crate::text::{
    announced_len, decode_string, lemma_string_round_trip, read_bare_string, string_wire,
    MAX_STRING_BYTES,
};
use vstd::prelude::*;
use vstd::utf8::{encode_utf8, valid_utf8};

verus! {

/// The tag that closes a compound. No name follows it.
pub const TAG_END: u8 = 0x00;

/// The bytes of a header on the wire: the tag, and after any tag but the
/// end tag the name as a string.
pub open spec fn header_wire(tag: u8, name: Seq<char>) -> Seq<u8> {
    if tag == TAG_END {
        seq![tag]
    } else {
        seq![tag] + string_wire(name)
    }
}

/// What a reader of a header makes of `pending`. After the end tag it
/// looks no further and gives the empty name.
pub open spec fn decode_header(pending: Seq<u8>) -> Decoded<(u8, Seq<char>)> {
    if pending.len() < 1 {
        Decoded::Incomplete
    } else if pending[0] == TAG_END {
        Decoded::Value { value: (TAG_END, Seq::empty()), taken: 1 }
    } else {
        match decode_string(pending.skip(1)) {
            Decoded::Value { value, taken } => Decoded::Value {
                value: (pending[0], value),
                taken: 1 + taken,
            },
            Decoded::Incomplete => Decoded::Incomplete,
            Decoded::InvalidText { payload } => Decoded::InvalidText { payload },
        }
    }
}

/// Closes a compound: writes the end tag, a single zero byte.
pub fn close_nbt<W: ByteSink>(dst: &mut W) -> (r: Result<(), Error>)
    ensures
        accepts(old(dst), final(dst), r, seq![TAG_END]),
{
    let buf: [u8; 1] = [TAG_END];
    proof {
        assert(buf@ =~= seq![TAG_END]);
    }
    send(dst, &buf)
}

/// Reads the next header: the tag and the name. For the end tag the name
/// is empty and nothing after the tag is read.
pub fn emit_next_header<R: ByteSource>(src: &mut R) -> (r: Result<(u8, String), Error>)
    ensures
        delivers(old(src), final(src), r, decode_header(old(src).pending())),
        r matches Ok(header) ==> (header.0 == TAG_END ==> header.1@.len() == 0),
        r matches Err(Error::InvalidUtf8(kept)) ==> !valid_utf8(kept@),
{
    let ghost pending = old(src).pending();
    let mut buf = [0u8; 1];
    read_exact(src, &mut buf)?;
    let tag: u8 = buf[0];
    if tag == TAG_END {
        return Ok((tag, String::new()));
    }
    let name = read_bare_string(src)?;
    proof {
        if old(src).modelled() {
            let taken = 2 + announced_len(pending.skip(1)) as int;
            assert(pending.skip(1).skip(taken) =~= pending.skip(1 + taken));
        }
    }
    Ok((tag, name))
}

/// A header that is written is read back as it was, whatever follows it in
/// the stream: the end tag alone as the end tag and the empty name, with
/// only its one byte taken; any other tag with its name as that tag and that
/// name.
pub proof fn lemma_header_round_trip(tag: u8, name: Seq<char>, rest: Seq<u8>)
    requires
        tag != TAG_END ==> encode_utf8(name).len() <= MAX_STRING_BYTES,
    ensures
        tag == TAG_END ==> decode_header(header_wire(tag, name) + rest) == (Decoded::Value {
            value: (TAG_END, Seq::<char>::empty()),
            taken: 1,
        }),
        tag != TAG_END ==> decode_header(header_wire(tag, name) + rest) == (Decoded::Value {
            value: (tag, name),
            taken: 3 + encode_utf8(name).len(),
        }),
{
    let pending = header_wire(tag, name) + rest;
    if tag != TAG_END {
        lemma_string_round_trip(name, rest);
        assert(pending.skip(1) =~= string_wire(name) + rest);
    }
}

} // verus!
