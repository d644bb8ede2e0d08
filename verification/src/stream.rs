//! Stream traits: the underlying byte-stream capability.
//!
//! The buffering wrappers are generic over these traits, which describe the
//! minimal "read some bytes" / "write some bytes" interface of the wrapped
//! stream together with a ghost model of the bytes it carries. Implementors
//! promise the contracts below; everything the wrappers guarantee is proved
//! from them alone.

use vstd::prelude::*;
use vstd::slice::slice_subrange;

verus! {

/// A readable byte stream.
///
/// The ghost model `remaining()` is the sequence of bytes the stream will
/// deliver, in order, from now until end-of-stream. A partial read (fewer
/// bytes than requested) is not an error. A read of `0` bytes into a
/// non-empty destination promises that the stream is at end-of-stream. A
/// failed read consumes nothing and leaves the destination untouched.
pub trait Read {
    /// Opaque error type of the stream, passed through unmodified.
    type Error;

    /// The bytes this stream will still deliver, in order. An implementor
    /// that does not say what they are leaves the model unspecified.
    open spec fn remaining(&self) -> Seq<u8> {
        vstd::pervasive::arbitrary()
    }

    /// Read some bytes into the front of `dst`, returning how many were read.
    ///
    /// The length of `dst` is the requested amount; it is never changed, and
    /// bytes past the returned count keep their previous values.
    fn read(&mut self, dst: &mut Vec<u8>) -> (r: Result<usize, Self::Error>)
        ensures
            final(dst)@.len() == old(dst)@.len(),
            match r {
                Ok(n) => {
                    &&& n <= old(dst)@.len()
                    &&& n <= old(self).remaining().len()
                    &&& final(dst)@ == old(self).remaining().take(n as int)
                        + old(dst)@.skip(n as int)
                    &&& final(self).remaining() == old(self).remaining().skip(n as int)
                    &&& n == 0 ==> old(self).remaining().len() == 0 || old(dst)@.len() == 0
                },
                Err(_) => {
                    &&& final(self).remaining() == old(self).remaining()
                    &&& final(dst)@ == old(dst)@
                },
            },
    ;
}

/// A writable byte stream.
///
/// The ghost model `received()` is the sequence of bytes the stream has
/// accepted so far, in order. A partial write (fewer bytes than offered) is
/// not an error; a write never accepts `0` bytes of a non-empty source (a
/// stream that can accept nothing must fail instead). A failed write
/// consumes nothing.
pub trait Write {
    /// Opaque error type of the stream, passed through unmodified.
    type Error;

    /// The bytes this stream has accepted, in order. An implementor that
    /// does not say what they are leaves the model unspecified.
    open spec fn received(&self) -> Seq<u8> {
        vstd::pervasive::arbitrary()
    }

    /// Write some bytes from the front of `src`, returning how many were
    /// accepted.
    fn write(&mut self, src: &[u8]) -> (r: Result<usize, Self::Error>)
        ensures
            match r {
                Ok(n) => {
                    &&& n <= src@.len()
                    &&& final(self).received() == old(self).received() + src@.take(n as int)
                    &&& n == 0 ==> src@.len() == 0
                },
                Err(_) => final(self).received() == old(self).received(),
            },
    ;

    /// Write all of `src`, retrying until everything is accepted or the
    /// stream fails. On failure some prefix of `src` may already have been
    /// accepted.
    fn write_all(&mut self, src: &[u8]) -> (r: Result<(), Self::Error>)
        ensures
            match r {
                Ok(_) => final(self).received() == old(self).received() + src@,
                Err(_) => exists|k: int|
                    0 <= k <= src@.len() && final(self).received() == old(self).received()
                        + src@.take(k),
            },
    {
        let mut sent: usize = 0;
        while sent < src.len()
            invariant
                sent <= src@.len(),
                self.received() == old(self).received() + src@.take(sent as int),
            decreases src@.len() - sent,
        {
            let rest = slice_subrange(src, sent, src.len());
            match self.write(rest) {
                Ok(n) => {
                    proof {
                        assert(src@.take(sent as int) + rest@.take(n as int)
                            =~= src@.take(sent + n as int));
                    }
                    sent = sent + n;
                },
                Err(e) => {
                    proof {
                        assert(self.received() == old(self).received()
                            + src@.take(sent as int));
                    }
                    return Err(e);
                },
            }
        }
        proof {
            assert(src@.take(sent as int) =~= src@);
        }
        Ok(())
    }

    /// Commit whatever buffering the stream itself performs. This is below
    /// the level of the `received()` model, which never changes here.
    fn flush(&mut self) -> (r: Result<(), Self::Error>)
        ensures
            final(self).received() == old(self).received(),
    ;
}

} // verus!
