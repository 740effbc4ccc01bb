//! The two ends of a byte stream, and what it means to read a value from
//! one and to write a value to the other.
//!
//! A stream is *modelled* when a sequence of bytes says what it holds:
//! [`ByteSource::pending`] for a source, [`ByteSink::written`] for a sink.
//! The streams of this module are modelled, and of a modelled stream every
//! contract of the library says exactly what is read or written. A stream
//! that stands for a file or a socket implements `read` or `write_all` and
//! leaves the rest as it is. Nobody can say ahead what such a stream holds,
//! so the contracts promise of it what does not depend on that: which errors
//! can come, that nothing panics and that every loop ends.

use crate::error::Error;
use vstd::prelude::*;

verus! {

/// Something that delivers bytes in order, a few at a time.
pub trait ByteSource {
    /// The bytes that this source has yet to deliver, first byte first.
    open spec fn pending(&self) -> Seq<u8> {
        Seq::empty()
    }

    /// Whether `pending` says what this source delivers: each `read` hands
    /// out a prefix of it, hands out nothing only where the buffer or the
    /// source is empty, and never fails.
    open spec fn modelled(&self) -> bool {
        false
    }

    /// Moves up to `buf.len()` bytes from the front of the source to the
    /// front of `buf` and returns how many it moved. `Ok(0)` for a buffer
    /// that is not empty says that the source has run dry.
    fn read(&mut self, buf: &mut [u8]) -> (r: Result<usize, std::io::Error>)
        ensures
            final(buf)@.len() == old(buf)@.len(),
            final(self).modelled() == old(self).modelled(),
            r matches Ok(n) ==> n <= old(buf)@.len(),
            old(self).modelled() ==> {
                &&& r matches Ok(n)
                &&& n <= old(self).pending().len()
                &&& n == 0 ==> old(buf)@.len() == 0 || old(self).pending().len() == 0
                &&& final(buf)@.take(n as int) == old(self).pending().take(n as int)
                &&& final(self).pending() == old(self).pending().skip(n as int)
            },
    ;
}

/// Something that accepts bytes in order.
pub trait ByteSink {
    /// The bytes that this sink has accepted, first byte first.
    open spec fn written(&self) -> Seq<u8> {
        Seq::empty()
    }

    /// Whether `written` says what this sink holds: each `write_all` adds
    /// its bytes at the end and never fails.
    open spec fn modelled(&self) -> bool {
        false
    }

    /// Hands all of `bytes` to the sink. After a failure nobody knows how
    /// many of them went through.
    fn write_all(&mut self, bytes: &[u8]) -> (r: Result<(), std::io::Error>)
        ensures
            final(self).modelled() == old(self).modelled(),
            old(self).modelled() ==> r is Ok && final(self).written() == old(self).written()
                + bytes@,
    ;
}

/// What the bytes in front of a reader amount to.
pub enum Decoded<T> {
    /// A whole value, which takes up the first `taken` bytes.
    Value { value: T, taken: nat },
    /// The bytes end before the value does.
    Incomplete,
    /// A string whose `payload` is not UTF-8.
    InvalidText { payload: Seq<u8> },
}

/// Whether a read that found `before` and left `after` did what `found`, the
/// reading of the bytes that were pending, asks for: the value and a source
/// moved past it, or the error that says why there is no value. Of a source
/// that is not modelled it only asks that it stays so.
pub open spec fn delivers<S: ByteSource, T: View>(
    before: &S,
    after: &S,
    r: Result<T, Error>,
    found: Decoded<T::V>,
) -> bool {
    &&& after.modelled() == before.modelled()
    &&& before.modelled() ==> match found {
        Decoded::Value { value, taken } => {
            &&& r matches Ok(v)
            &&& v@ == value
            &&& after.pending() == before.pending().skip(taken as int)
        },
        Decoded::Incomplete => r matches Err(Error::IncompleteNbtValue),
        Decoded::InvalidText { payload } => r matches Err(Error::InvalidUtf8(bytes)) && bytes@
            == payload,
    }
}

/// Whether a write that found `before` and left `after` put `bytes` at the
/// end of the sink. A sink that is not modelled may fail, with the failure of
/// its transport and nothing else.
pub open spec fn accepts<W: ByteSink>(before: &W, after: &W, r: Result<(), Error>, bytes: Seq<u8>) -> bool {
    &&& after.modelled() == before.modelled()
    &&& r matches Err(e) ==> e is IoError
    &&& before.modelled() ==> r is Ok && after.written() == before.written() + bytes
}

/// Hands `bytes` to the sink and gives a failure of its transport the
/// library's type.
pub(crate) fn send<W: ByteSink>(dst: &mut W, bytes: &[u8]) -> (r: Result<(), Error>)
    ensures
        accepts(old(dst), final(dst), r, bytes@),
{
    match dst.write_all(bytes) {
        Ok(()) => Ok(()),
        Err(e) => Err(Error::IoError(e)),
    }
}

/// Fills `buf` from `src`, asking again after every short read. A source
/// that runs dry before `buf` is full gives `IncompleteNbtValue`.
pub fn read_exact<R: ByteSource>(src: &mut R, buf: &mut [u8]) -> (r: Result<(), Error>)
    ensures
        final(buf)@.len() == old(buf)@.len(),
        final(src).modelled() == old(src).modelled(),
        r matches Err(e) ==> e is IoError || e is IncompleteNbtValue,
        old(src).modelled() ==> if old(buf)@.len() <= old(src).pending().len() {
            &&& r is Ok
            &&& final(buf)@ == old(src).pending().take(old(buf)@.len() as int)
            &&& final(src).pending() == old(src).pending().skip(old(buf)@.len() as int)
        } else {
            r matches Err(Error::IncompleteNbtValue)
        },
{
    let len: usize = buf.len();
    let mut filled: usize = 0;
    while filled < len
        invariant
            filled <= len,
            len == buf@.len(),
            len == old(buf)@.len(),
            src.modelled() == old(src).modelled(),
            old(src).modelled() ==> {
                &&& filled <= old(src).pending().len()
                &&& buf@.take(filled as int) == old(src).pending().take(filled as int)
                &&& src.pending() == old(src).pending().skip(filled as int)
            },
        decreases len - filled,
    {
        let ghost had = buf@;
        let ghost left = src.pending();
        let (_, rest) = buf.split_at_mut(filled);
        let n: usize = match src.read(rest) {
            Ok(n) => n,
            Err(e) => {
                return Err(Error::IoError(e));
            },
        };
        if n == 0 {
            return Err(Error::IncompleteNbtValue);
        }
        proof {
            if old(src).modelled() {
                let all = old(src).pending();
                assert(buf@.take(filled + n) =~= had.take(filled as int) + left.take(n as int));
                assert(all.take(filled + n) =~= all.take(filled as int) + left.take(n as int));
            }
        }
        filled += n;
    }
    proof {
        assert(buf@.take(len as int) =~= buf@);
    }
    Ok(())
}

/// A source that delivers the bytes of a slice.
pub struct SliceSource<'a> {
    bytes: &'a [u8],
    pos: usize,
}

impl<'a> SliceSource<'a> {
    #[verifier::type_invariant]
    spec fn in_bounds(&self) -> bool {
        self.pos <= self.bytes@.len()
    }

    /// A source that has all of `bytes` pending.
    pub fn new(bytes: &'a [u8]) -> (s: Self)
        ensures
            s.modelled(),
            s.pending() == bytes@,
    {
        SliceSource { bytes, pos: 0 }
    }

    /// How many bytes are still pending.
    pub fn remaining(&self) -> (n: usize)
        ensures
            n == self.pending().len(),
    {
        proof {
            use_type_invariant(self);
        }
        self.bytes.len() - self.pos
    }
}

impl<'a> ByteSource for SliceSource<'a> {
    closed spec fn pending(&self) -> Seq<u8> {
        self.bytes@.skip(self.pos as int)
    }

    open spec fn modelled(&self) -> bool {
        true
    }

    /// Moves as many bytes as `buf` takes and the slice still has.
    fn read(&mut self, buf: &mut [u8]) -> (r: Result<usize, std::io::Error>)
        ensures
            r matches Ok(n) && n == vstd::math::min(
                old(buf)@.len() as int,
                old(self).pending().len() as int,
            ),
    {
        proof {
            use_type_invariant(&*self);
        }
        let left: usize = self.bytes.len() - self.pos;
        let n: usize = if buf.len() < left {
            buf.len()
        } else {
            left
        };
        let mut i: usize = 0;
        while i < n
            invariant
                i <= n <= buf@.len(),
                self.pos + n <= self.bytes@.len() <= usize::MAX,
                buf@.len() == old(buf)@.len(),
                *self == *old(self),
                buf@.take(i as int) == old(self).pending().take(i as int),
            decreases n - i,
        {
            let ghost had = buf@;
            buf[i] = self.bytes[self.pos + i];
            proof {
                assert(buf@.take(i + 1) =~= had.take(i as int).push(self.bytes@[self.pos + i]));
                assert(old(self).pending().take(i + 1) =~= old(self).pending().take(
                    i as int,
                ).push(self.bytes@[self.pos + i]));
            }
            i += 1;
        }
        self.pos += n;
        proof {
            assert(self.pending() =~= old(self).pending().skip(n as int));
        }
        Ok(n)
    }
}

impl ByteSink for Vec<u8> {
    open spec fn written(&self) -> Seq<u8> {
        self@
    }

    open spec fn modelled(&self) -> bool {
        true
    }

    /// Appends `bytes` to the vector.
    fn write_all(&mut self, bytes: &[u8]) -> (r: Result<(), std::io::Error>) {
        self.extend_from_slice(bytes);
        Ok(())
    }
}

} // verus!
