//! A buffered reader over any [`Read`] stream.

use vstd::prelude::*;
use vstd::slice::slice_index_get;
use vstd::slice::slice_subrange;

use crate::stream::Read;
use crate::stream::Write;
use crate::BypassError;

verus! {

/// The internal buffer with its window of unread bytes: `available` unread
/// bytes starting at `offset`. When `available` is zero, `offset` is stale
/// and ignored.
struct Window {
    buf: Vec<u8>,
    offset: usize,
    available: usize,
}

impl Window {
    /// The unread window always lies inside the buffer.
    #[verifier::type_invariant]
    spec fn wf(&self) -> bool {
        self.offset + self.available <= self.buf@.len()
    }
}

/// A buffered [`Read`].
///
/// `BufferedRead` fills an internal fixed-capacity buffer with one larger
/// read against the wrapped stream and then serves smaller reads from it,
/// avoiding many small reads against the stream. The buffer is given to the
/// wrapper at construction and is exclusively its own for the wrapper's
/// lifetime; its length never changes.
///
/// The wrapper is itself a [`Read`] stream (and, over a stream that also
/// writes, a [`Write`] stream with every write passed through untouched),
/// so wrappers compose transparently.
pub struct BufferedRead<T: Read> {
    inner: T,
    win: Window,
}

impl<T: Read> BufferedRead<T> {
    /// The wrapped stream.
    pub closed spec fn stream(&self) -> T {
        self.inner
    }

    /// The fixed capacity of the internal buffer.
    pub closed spec fn capacity(&self) -> nat {
        self.win.buf@.len()
    }

    /// The raw contents of the internal buffer, read or not.
    pub closed spec fn stored(&self) -> Seq<u8> {
        self.win.buf@
    }

    /// Index of the first unread buffered byte. Stale whenever
    /// `spec_available()` is zero.
    pub closed spec fn spec_offset(&self) -> nat {
        self.win.offset as nat
    }

    /// Count of unread buffered bytes.
    pub closed spec fn spec_available(&self) -> nat {
        self.win.available as nat
    }

    /// The buffered bytes not yet handed to the caller.
    pub closed spec fn buffered(&self) -> Seq<u8> {
        self.win.buf@.subrange(self.win.offset as int, self.win.offset + self.win.available)
    }

    /// Create a new buffered reader. The whole of `buf` is buffer space; its
    /// initial contents are irrelevant.
    pub fn new(inner: T, buf: Vec<u8>) -> (r: Self)
        ensures
            r.stream() == inner,
            r.stored() == buf@,
            r.capacity() == buf@.len(),
            r.spec_offset() == 0,
            r.spec_available() == 0,
            r.buffered().len() == r.spec_available(),
            r.remaining() == inner.remaining(),
    {
        let r = BufferedRead { inner, win: Window { buf, offset: 0, available: 0 } };
        proof {
            assert(r.remaining() =~= r.stream().remaining());
        }
        r
    }

    /// Create a new buffered reader with the first `available` unread bytes
    /// already present at `offset`.
    ///
    /// This is useful when another, greedier reader previously consumed from
    /// the same stream and this wrapper must inherit the excess bytes.
    pub fn new_with_data(inner: T, buf: Vec<u8>, offset: usize, available: usize) -> (r: Self)
        requires
            offset + available <= buf@.len(),
        ensures
            r.stream() == inner,
            r.stored() == buf@,
            r.capacity() == buf@.len(),
            r.spec_offset() == offset,
            r.spec_available() == available,
            r.buffered().len() == r.spec_available(),
            r.buffered() == buf@.subrange(offset as int, offset + available),
    {
        BufferedRead { inner, win: Window { buf, offset, available } }
    }

    /// Whether no buffered bytes are readily available.
    pub fn is_empty(&self) -> (r: bool)
        ensures
            r <==> self.spec_available() == 0,
    {
        self.win.available == 0
    }

    /// The number of bytes that are readily available: always exactly the
    /// length of the buffered window.
    pub fn available(&self) -> (r: usize)
        ensures
            r == self.spec_available(),
            self.buffered().len() == self.spec_available(),
    {
        proof {
            use_type_invariant(&self.win);
        }
        self.win.available
    }

    /// Index of the first unread buffered byte. Stale (and to be ignored)
    /// whenever `available()` is zero.
    pub fn offset(&self) -> (r: usize)
        ensures
            r == self.spec_offset(),
    {
        self.win.offset
    }

    /// Drop `amt` buffered bytes, so that later reads no longer deliver
    /// them. Asking to consume more than is available is a programmer error,
    /// never a silent clamp: callers must stay within `available()`.
    pub fn consume(&mut self, amt: usize)
        requires
            amt <= old(self).spec_available(),
        ensures
            final(self).stream() == old(self).stream(),
            final(self).stored() == old(self).stored(),
            final(self).capacity() == old(self).capacity(),
            final(self).spec_offset() == old(self).spec_offset() + amt,
            final(self).spec_available() == old(self).spec_available() - amt,
            final(self).buffered().len() == final(self).spec_available(),
            final(self).buffered() == old(self).buffered().skip(amt as int),
            final(self).remaining() == old(self).remaining().skip(amt as int),
    {
        proof {
            use_type_invariant(&self.win);
        }
        let cap = self.win.buf.len();
        proof {
            assert(self.win.offset + amt <= cap);
        }
        self.win.available = self.win.available - amt;
        self.win.offset = self.win.offset + amt;
        proof {
            assert(self.buffered() =~= old(self).buffered().skip(amt as int));
            assert(self.remaining() =~= old(self).remaining().skip(amt as int));
        }
    }

    /// Copy as many buffered bytes as fit into the front of `dst`, without
    /// touching the wrapped stream.
    fn take_buffered(&mut self, dst: &mut Vec<u8>) -> (n: usize)
        ensures
            final(self).stream() == old(self).stream(),
            final(self).stored() == old(self).stored(),
            final(self).capacity() == old(self).capacity(),
            final(dst)@.len() == old(dst)@.len(),
            n as int == (if old(dst)@.len() < old(self).spec_available() {
                old(dst)@.len() as int
            } else {
                old(self).spec_available() as int
            }),
            final(dst)@ == old(self).buffered().take(n as int) + old(dst)@.skip(n as int),
            final(self).buffered() == old(self).buffered().skip(n as int),
            final(self).spec_available() == (if (n as int) < old(self).spec_available() {
                old(self).spec_available() - n
            } else {
                0int
            }),
            final(self).spec_offset() == (if (n as int) < old(self).spec_available() {
                old(self).spec_offset() + n
            } else {
                old(self).spec_offset() as int
            }),
    {
        proof {
            use_type_invariant(&self.win);
        }
        let cap = self.win.buf.len();
        proof {
            assert(self.win.offset + self.win.available <= cap);
        }
        let len = if self.win.available < dst.len() {
            self.win.available
        } else {
            dst.len()
        };
        let mut i: usize = 0;
        while i < len
            invariant
                i <= len,
                *self == *old(self),
                self.win.wf(),
                len <= self.win.available,
                len <= dst@.len(),
                self.win.buf@.len() <= usize::MAX,
                dst@.len() == old(dst)@.len(),
                forall|j: int| 0 <= j < i ==> dst@[j] == self.win.buf@[self.win.offset + j],
                forall|j: int| i <= j < dst@.len() ==> dst@[j] == old(dst)@[j],
            decreases len - i,
        {
            let b = *slice_index_get(self.win.buf.as_slice(), self.win.offset + i);
            dst.set(i, b);
            i = i + 1;
        }
        proof {
            assert(dst@ =~= old(self).buffered().take(len as int) + old(dst)@.skip(len as int));
        }
        if len < self.win.available {
            self.win.available = self.win.available - len;
            self.win.offset = self.win.offset + len;
        } else {
            self.win.available = 0;
        }
        proof {
            assert(self.buffered() =~= old(self).buffered().skip(len as int));
        }
        len
    }

    /// One read against the wrapped stream, straight into the internal
    /// buffer; on success the whole buffered window is the bytes just read.
    fn refill(&mut self) -> (r: Result<usize, T::Error>)
        requires
            old(self).spec_available() == 0,
        ensures
            final(self).capacity() == old(self).capacity(),
            final(self).spec_offset() == 0,
            match r {
                Ok(k) => {
                    &&& k <= old(self).capacity()
                    &&& k <= old(self).stream().remaining().len()
                    &&& final(self).spec_available() == k
                    &&& final(self).buffered()
                        == old(self).stream().remaining().take(k as int)
                    &&& final(self).stream().remaining()
                        == old(self).stream().remaining().skip(k as int)
                    &&& k == 0 ==> old(self).stream().remaining().len() == 0
                        || old(self).capacity() == 0
                },
                Err(_) => {
                    &&& final(self).spec_available() == 0
                    &&& final(self).stream().remaining() == old(self).stream().remaining()
                    &&& final(self).stored() == old(self).stored()
                },
            },
    {
        proof {
            use_type_invariant(&self.win);
        }
        self.win.offset = 0;
        // the buffer leaves the window while the stream fills it, so the
        // window stays well-formed even if the stream call unwinds
        let mut scratch: Vec<u8> = Vec::new();
        core::mem::swap(&mut self.win.buf, &mut scratch);
        let res = self.inner.read(&mut scratch);
        core::mem::swap(&mut self.win.buf, &mut scratch);
        match res {
            Ok(k) => {
                self.win.available = k;
                Ok(k)
            },
            Err(e) => Err(e),
        }
    }

    /// Read bytes into the front of `dst`, returning how many were copied.
    ///
    /// Buffered bytes are served first, without touching the wrapped stream.
    /// With nothing buffered and a destination at least as large as the
    /// internal buffer, a single read goes directly to the stream and the
    /// internal buffer is bypassed entirely (it could not have reduced the
    /// number of stream operations). With a smaller destination, exactly one
    /// read against the stream refills the buffer first; a partial refill is
    /// served as-is. A return of `0` with a non-empty destination means the
    /// stream is at end-of-stream and nothing is buffered.
    pub fn read(&mut self, dst: &mut Vec<u8>) -> (r: Result<usize, T::Error>)
        ensures
            final(self).capacity() == old(self).capacity(),
            final(self).buffered().len() == final(self).spec_available(),
            final(dst)@.len() == old(dst)@.len(),
            match r {
                Ok(n) => {
                    &&& n <= old(dst)@.len()
                    &&& n <= old(self).remaining().len()
                    &&& final(dst)@ == old(self).remaining().take(n as int)
                        + old(dst)@.skip(n as int)
                    &&& final(self).remaining() == old(self).remaining().skip(n as int)
                    &&& n == 0 ==> old(self).remaining().len() == 0 || old(dst)@.len() == 0
                    &&& old(self).spec_available() > 0 ==> {
                        &&& final(self).stream() == old(self).stream()
                        &&& final(self).stored() == old(self).stored()
                        &&& n as int == (if old(dst)@.len() < old(self).spec_available() {
                            old(dst)@.len() as int
                        } else {
                            old(self).spec_available() as int
                        })
                        &&& final(self).spec_available() == (if (n as int)
                            < old(self).spec_available() {
                            old(self).spec_available() - n
                        } else {
                            0int
                        })
                        &&& final(self).spec_offset() == (if (n as int)
                            < old(self).spec_available() {
                            old(self).spec_offset() + n
                        } else {
                            old(self).spec_offset() as int
                        })
                    }
                    &&& (old(self).spec_available() == 0 && old(dst)@.len()
                        >= old(self).capacity()) ==> {
                        &&& final(self).stored() == old(self).stored()
                        &&& final(self).spec_offset() == old(self).spec_offset()
                        &&& final(self).spec_available() == 0
                        &&& final(self).stream().remaining()
                            == old(self).stream().remaining().skip(n as int)
                    }
                    &&& (old(self).spec_available() == 0 && old(dst)@.len()
                        < old(self).capacity()) ==> {
                        &&& final(self).buffered().len() > 0 ==> n == old(dst)@.len()
                        &&& final(self).spec_available() > 0 ==> final(self).spec_offset() == n
                        &&& final(self).stream().remaining() == old(self).stream().remaining()
                            .skip(n + final(self).spec_available())
                    }
                },
                Err(_) => {
                    &&& old(self).spec_available() == 0
                    &&& final(self).spec_available() == 0
                    &&& final(self).remaining() == old(self).remaining()
                    &&& final(self).stream().remaining() == old(self).stream().remaining()
                    &&& final(self).stored() == old(self).stored()
                    &&& final(dst)@ == old(dst)@
                },
            },
    {
        proof {
            use_type_invariant(&self.win);
        }
        if self.win.available == 0 {
            proof {
                assert(old(self).buffered() =~= Seq::<u8>::empty());
                assert(old(self).remaining() =~= old(self).stream().remaining());
            }
            if dst.len() >= self.win.buf.len() {
                // fast path: bypass the local buffer
                let r = self.inner.read(dst);
                proof {
                    assert(self.buffered() =~= Seq::<u8>::empty());
                    match r {
                        Ok(n) => {
                            assert(self.remaining() =~= old(self).remaining().skip(n as int));
                        },
                        Err(_) => {
                            assert(self.remaining() =~= old(self).remaining());
                        },
                    }
                }
                return r;
            }
            let k = match self.refill() {
                Ok(k) => k,
                Err(e) => {
                    proof {
                        assert(self.buffered() =~= Seq::<u8>::empty());
                        assert(self.remaining() =~= old(self).remaining());
                    }
                    return Err(e);
                },
            };
            let ghost mid = *self;
            proof {
                assert(mid.remaining() =~= old(self).remaining());
            }
            let n = self.take_buffered(dst);
            proof {
                let orem = old(self).stream().remaining();
                assert(mid.buffered().take(n as int) =~= orem.take(n as int));
                assert(dst@ =~= old(self).remaining().take(n as int)
                    + old(dst)@.skip(n as int));
                assert(self.buffered() =~= orem.take(k as int).skip(n as int));
                assert(self.remaining() =~= old(self).remaining().skip(n as int));
                assert(n + self.spec_available() == k as int);
            }
            Ok(n)
        } else {
            let ghost pre = *self;
            let n = self.take_buffered(dst);
            proof {
                assert(pre.buffered().take(n as int) =~= pre.remaining().take(n as int));
                assert(dst@ =~= old(self).remaining().take(n as int)
                    + old(dst)@.skip(n as int));
                assert(self.remaining() =~= old(self).remaining().skip(n as int));
            }
            Ok(n)
        }
    }

    /// A read-only view of the currently buffered unread bytes, refilling
    /// from the stream first when nothing is buffered. It never discards
    /// unread bytes: calling it again without an intervening `consume`
    /// returns the identical view. An empty view from a wrapper with
    /// non-zero capacity means the stream is at end-of-stream.
    pub fn fill_buf(&mut self) -> (r: Result<&[u8], T::Error>)
        ensures
            final(self).capacity() == old(self).capacity(),
            final(self).buffered().len() == final(self).spec_available(),
            final(self).remaining() == old(self).remaining(),
            match r {
                Ok(v) => {
                    &&& v@ == final(self).buffered()
                    &&& v@.len() == final(self).spec_available()
                    &&& old(self).spec_available() > 0 ==> *final(self) == *old(self)
                    &&& old(self).spec_available() == 0 ==> {
                        &&& final(self).spec_offset() == 0
                        &&& v@.len() <= old(self).stream().remaining().len()
                        &&& v@.len() <= old(self).capacity()
                        &&& v@ == old(self).stream().remaining().take(v@.len() as int)
                        &&& final(self).stream().remaining()
                            == old(self).stream().remaining().skip(v@.len() as int)
                        &&& (old(self).stream().remaining().len() > 0
                            && old(self).capacity() > 0) ==> v@.len() > 0
                    }
                },
                Err(_) => {
                    &&& old(self).spec_available() == 0
                    &&& final(self).spec_available() == 0
                    &&& final(self).stream().remaining() == old(self).stream().remaining()
                    &&& final(self).stored() == old(self).stored()
                },
            },
    {
        proof {
            use_type_invariant(&self.win);
        }
        if self.win.available == 0 {
            proof {
                assert(old(self).buffered() =~= Seq::<u8>::empty());
            }
            match self.refill() {
                Ok(_) => {
                    proof {
                        assert(self.remaining() =~= old(self).remaining());
                    }
                },
                Err(e) => {
                    proof {
                        assert(self.buffered() =~= Seq::<u8>::empty());
                        assert(self.remaining() =~= old(self).remaining());
                    }
                    return Err(e);
                },
            }
        }
        proof {
            use_type_invariant(&self.win);
        }
        let cap = self.win.buf.len();
        proof {
            assert(self.win.offset + self.win.available <= cap);
        }
        let v = slice_subrange(
            self.win.buf.as_slice(),
            self.win.offset,
            self.win.offset + self.win.available,
        );
        Ok(v)
    }

    /// Exclusive access to the wrapped stream, granted only while no
    /// buffered unread bytes would be silently lost; otherwise the request
    /// is refused with [`BypassError`].
    ///
    /// This is the sole escape hatch for talking to the stream directly.
    pub fn bypass(&mut self) -> (r: Result<&mut T, BypassError>)
        ensures
            r is Ok <==> old(self).spec_available() == 0,
            final(self).buffered().len() == final(self).spec_available(),
            match r {
                Ok(inner) => {
                    &&& *inner == old(self).stream()
                    &&& final(self).stream() == *final(inner)
                    &&& final(self).stored() == old(self).stored()
                    &&& final(self).capacity() == old(self).capacity()
                    &&& final(self).spec_offset() == old(self).spec_offset()
                    &&& final(self).spec_available() == 0
                },
                Err(_) => *final(self) == *old(self),
            },
    {
        proof {
            use_type_invariant(&self.win);
        }
        if self.win.available == 0 {
            Ok(&mut self.inner)
        } else {
            Err(BypassError)
        }
    }

    /// Consume the wrapper and hand the wrapped stream back, whatever the
    /// buffered state.
    ///
    /// Beware: any buffered unread bytes are discarded, not replayed into
    /// the stream. Callers that must not lose bytes should check
    /// `is_empty()` first (or use `bypass()`).
    pub fn release(self) -> (r: T)
        ensures
            r == self.stream(),
    {
        self.inner
    }
}

impl<T: Read> Read for BufferedRead<T> {
    type Error = <T as Read>::Error;

    /// Everything this wrapper will still deliver: the buffered bytes, then
    /// whatever the wrapped stream will deliver.
    open spec fn remaining(&self) -> Seq<u8> {
        self.buffered() + self.stream().remaining()
    }

    fn read(&mut self, dst: &mut Vec<u8>) -> (r: Result<usize, <T as Read>::Error>) {
        BufferedRead::read(self, dst)
    }
}

impl<T: Read + Write> BufferedRead<T> {
    /// Pass a write straight through to the wrapped stream: this wrapper
    /// only buffers the read direction.
    pub fn write(&mut self, src: &[u8]) -> (r: Result<usize, <T as Write>::Error>)
        ensures
            final(self).stored() == old(self).stored(),
            final(self).capacity() == old(self).capacity(),
            final(self).spec_offset() == old(self).spec_offset(),
            final(self).spec_available() == old(self).spec_available(),
            final(self).buffered() == old(self).buffered(),
            match r {
                Ok(n) => {
                    &&& n <= src@.len()
                    &&& final(self).stream().received() == old(self).stream().received()
                        + src@.take(n as int)
                    &&& n == 0 ==> src@.len() == 0
                },
                Err(_) => final(self).stream().received() == old(self).stream().received(),
            },
    {
        self.inner.write(src)
    }

    /// Pass a whole-buffer write straight through to the wrapped stream,
    /// unbuffered.
    pub fn write_all(&mut self, src: &[u8]) -> (r: Result<(), <T as Write>::Error>)
        ensures
            final(self).stored() == old(self).stored(),
            final(self).capacity() == old(self).capacity(),
            final(self).spec_offset() == old(self).spec_offset(),
            final(self).spec_available() == old(self).spec_available(),
            final(self).buffered() == old(self).buffered(),
            match r {
                Ok(_) => final(self).stream().received() == old(self).stream().received()
                    + src@,
                Err(_) => exists|k: int|
                    0 <= k <= src@.len() && final(self).stream().received()
                        == old(self).stream().received() + src@.take(k),
            },
    {
        self.inner.write_all(src)
    }

    /// Pass a flush straight through to the wrapped stream.
    pub fn flush(&mut self) -> (r: Result<(), <T as Write>::Error>)
        ensures
            final(self).stored() == old(self).stored(),
            final(self).capacity() == old(self).capacity(),
            final(self).spec_offset() == old(self).spec_offset(),
            final(self).spec_available() == old(self).spec_available(),
            final(self).buffered() == old(self).buffered(),
            final(self).stream().received() == old(self).stream().received(),
    {
        self.inner.flush()
    }
}

impl<T: Read + Write> Write for BufferedRead<T> {
    type Error = <T as Write>::Error;

    /// The wrapper buffers nothing in the write direction: what it has
    /// accepted is what the wrapped stream has accepted.
    open spec fn received(&self) -> Seq<u8> {
        self.stream().received()
    }

    fn write(&mut self, src: &[u8]) -> (r: Result<usize, <T as Write>::Error>) {
        BufferedRead::write(self, src)
    }

    fn write_all(&mut self, src: &[u8]) -> (r: Result<(), <T as Write>::Error>) {
        BufferedRead::write_all(self, src)
    }

    fn flush(&mut self) -> (r: Result<(), <T as Write>::Error>) {
        BufferedRead::flush(self)
    }
}

} // verus!
