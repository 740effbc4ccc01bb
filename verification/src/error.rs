//! The ways in which reading or writing a bare value can fail.

use vstd::prelude::*;

verus! {

/// `std::io::Error`, the failure that a transport reports. Nothing is known
/// of what is inside one: the library only hands it on.
#[verifier::external_type_specification]
#[verifier::external_body]
pub struct ExIoError(std::io::Error);

/// Why a bare value could not be read or written.
#[derive(Debug)]
pub enum Error {
    /// The transport under the stream failed. The failure is handed on as
    /// it came; nothing is retried.
    IoError(std::io::Error),
    /// The source ran dry before the value was complete.
    IncompleteNbtValue,
    /// The payload of a string is not UTF-8. The payload is kept, byte for
    /// byte, for whoever has to report it.
    InvalidUtf8(Vec<u8>),
}

} // verus!
