//! Bare values of the little-endian NBT wire format: fixed-width scalars,
//! length-prefixed strings and arrays, the header that precedes a value
//! inside a compound, and the byte that closes a compound.
//!
//! Every function reads from a [`ByteSource`] or writes to a [`ByteSink`].
//! What a function writes is given by a spec function on the value
//! (`int_wire`, `string_wire`, ...); what it reads is given by a spec
//! function on the bytes that the source has pending (`decode_int`,
//! `decode_string`, ...). For each kind of value a proof function shows that
//! decoding what was encoded gives the value back.

pub mod array;
pub mod endian;
pub mod error;
pub mod header;
pub mod scalar;
pub mod stream;
pub mod text;

pub use array::{
    read_bare_byte_array, read_bare_int_array, read_bare_long_array, write_bare_byte_array,
    write_bare_int_array, write_bare_long_array,
};
pub use error::Error;
pub use header::{close_nbt, emit_next_header};
pub use scalar::{
    read_bare_byte, read_bare_double, read_bare_float, read_bare_int, read_bare_long,
    read_bare_short, write_bare_byte, write_bare_double, write_bare_float, write_bare_int,
    write_bare_long, write_bare_short,
};
pub use stream::{read_exact, ByteSink, ByteSource, SliceSource};
pub use text::{read_bare_string, write_bare_string};
