//! A buffered writer over any [`Write`] stream.

use vstd::prelude::*;
use vstd::slice::slice_index_get;
use vstd::slice::slice_subrange;

use crate::stream::Read;
use crate::stream::Write;
use crate::BypassError;

verus! {

/// A buffered [`Write`].
///
/// `BufferedWrite` accumulates written bytes in an internal fixed-capacity
/// buffer and commits them to the wrapped stream only when the buffer fills
/// or on an explicit `flush`, avoiding many small writes against the stream.
/// The buffer is given to the wrapper at construction and is exclusively its
/// own for the wrapper's lifetime.
///
/// There is no flush on drop: a wrapper that is released or dropped with
/// unflushed bytes loses them. This is deliberate (the wrapper never talks
/// to the stream behind the caller's back); call `flush` first.
///
/// Over a stream that also reads, the wrapper is a [`Read`] stream with
/// every read passed through untouched.
pub struct BufferedWrite<T: Write> {
    inner: T,
    buf: Vec<u8>,
    pos: usize,
}

impl<T: Write> BufferedWrite<T> {
    /// The wrapped stream.
    pub closed spec fn stream(&self) -> T {
        self.inner
    }

    /// The fixed capacity of the internal buffer.
    pub closed spec fn capacity(&self) -> nat {
        self.buf@.len()
    }

    /// The raw contents of the internal buffer, owned or disowned.
    pub closed spec fn stored(&self) -> Seq<u8> {
        self.buf@
    }

    /// Count of bytes accumulated in the buffer and not yet committed.
    pub closed spec fn spec_written(&self) -> nat {
        self.pos as nat
    }

    /// The accumulated bytes not yet committed to the wrapped stream.
    pub closed spec fn pending(&self) -> Seq<u8> {
        self.buf@.take(self.pos as int)
    }

    /// Well-formed: the accumulated count lies within the buffer, so the
    /// pending bytes are exactly the first `spec_written()` buffer bytes.
    pub open spec fn wf(&self) -> bool {
        self.spec_written() <= self.capacity() && self.pending().len() == self.spec_written()
    }

    /// Every byte this wrapper owes the stream, in order: what the stream
    /// has already accepted, then the pending bytes.
    pub open spec fn committed(&self) -> Seq<u8> {
        self.stream().received() + self.pending()
    }

    /// Create a new buffered writer. The whole of `buf` is buffer space; its
    /// initial contents are irrelevant.
    pub fn new(inner: T, buf: Vec<u8>) -> (r: Self)
        ensures
            r.wf(),
            r.stream() == inner,
            r.stored() == buf@,
            r.capacity() == buf@.len(),
            r.spec_written() == 0,
            r.pending() == Seq::<u8>::empty(),
            r.committed() == inner.received(),
    {
        let r = BufferedWrite { inner, buf, pos: 0 };
        proof {
            assert(r.pending() =~= Seq::<u8>::empty());
            assert(r.committed() =~= r.stream().received());
        }
        r
    }

    /// Create a new buffered writer whose first `written` buffer bytes are
    /// already accumulated and unflushed, for handoff from another writer.
    pub fn new_with_data(inner: T, buf: Vec<u8>, written: usize) -> (r: Self)
        requires
            written <= buf@.len(),
        ensures
            r.wf(),
            r.stream() == inner,
            r.stored() == buf@,
            r.capacity() == buf@.len(),
            r.spec_written() == written,
            r.pending() == buf@.take(written as int),
    {
        BufferedWrite { inner, buf, pos: written }
    }

    /// Whether no bytes are currently accumulated.
    pub fn is_empty(&self) -> (r: bool)
        ensures
            r <==> self.spec_written() == 0,
    {
        self.pos == 0
    }

    /// The number of bytes currently accumulated in the buffer and not yet
    /// committed to the wrapped stream.
    pub fn written(&self) -> (r: usize)
        ensures
            r == self.spec_written(),
    {
        self.pos
    }

    /// The wrapped stream, read-only.
    pub fn inner_ref(&self) -> (r: &T)
        ensures
            *r == self.stream(),
    {
        &self.inner
    }

    /// Discard the accumulated bytes without committing them. Only for
    /// callers that know the bytes must be dropped (say, after an
    /// unrecoverable protocol reset).
    pub fn clear(&mut self)
        ensures
            final(self).wf(),
            final(self).stream() == old(self).stream(),
            final(self).stored() == old(self).stored(),
            final(self).capacity() == old(self).capacity(),
            final(self).spec_written() == 0,
            final(self).committed() == old(self).stream().received(),
    {
        self.pos = 0;
        proof {
            assert(self.committed() =~= self.stream().received());
        }
    }

    /// Copy `src[..cnt]` into the buffer just past the accumulated bytes,
    /// leaving every other buffer byte as it was. Does not advance the
    /// accumulated count.
    fn stash(&mut self, src: &[u8], cnt: usize)
        requires
            old(self).wf(),
            cnt <= src@.len(),
            old(self).spec_written() + cnt <= old(self).capacity(),
        ensures
            final(self).wf(),
            final(self).stream() == old(self).stream(),
            final(self).capacity() == old(self).capacity(),
            final(self).spec_written() == old(self).spec_written(),
            final(self).stored() == old(self).stored().take(old(self).spec_written() as int)
                + src@.take(cnt as int) + old(self).stored().skip(
                old(self).spec_written() + cnt,
            ),
            final(self).pending() == old(self).pending(),
    {
        let cap = self.buf.len();
        let mut i: usize = 0;
        while i < cnt
            invariant
                i <= cnt,
                cnt <= src@.len(),
                self.inner == old(self).inner,
                self.pos == old(self).pos,
                self.pos + cnt <= self.buf@.len(),
                self.buf@.len() == old(self).buf@.len(),
                self.buf@.len() == cap,
                forall|j: int| 0 <= j < i ==> self.buf@[self.pos + j] == src@[j],
                forall|j: int|
                    0 <= j < self.buf@.len() && !(self.pos <= j < self.pos + i)
                        ==> self.buf@[j] == old(self).buf@[j],
            decreases cnt - i,
        {
            let b = *slice_index_get(src, i);
            self.buf.set(self.pos + i, b);
            i = i + 1;
        }
        proof {
            assert(self.stored() =~= old(self).stored().take(old(self).spec_written() as int)
                + src@.take(cnt as int) + old(self).stored().skip(
                old(self).spec_written() + cnt,
            ));
            assert(self.pending() =~= old(self).pending());
        }
    }

    /// Move the buffer bytes `from..to` to the front of the buffer, leaving
    /// the bytes past `to - from` as they were. Does not change the
    /// accumulated count.
    fn shift_front(&mut self, from: usize, to: usize)
        requires
            old(self).wf(),
            from <= to <= old(self).capacity(),
        ensures
            final(self).wf(),
            final(self).stream() == old(self).stream(),
            final(self).capacity() == old(self).capacity(),
            final(self).spec_written() == old(self).spec_written(),
            final(self).stored().take(to - from) == old(self).stored().subrange(
                from as int,
                to as int,
            ),
            final(self).stored().skip(to - from) == old(self).stored().skip(to - from),
    {
        let cap = self.buf.len();
        let cnt = to - from;
        let mut i: usize = 0;
        while i < cnt
            invariant
                i <= cnt,
                cnt == to - from,
                to <= cap,
                self.inner == old(self).inner,
                self.pos == old(self).pos,
                self.buf@.len() == old(self).buf@.len(),
                self.buf@.len() == cap,
                forall|j: int| 0 <= j < i ==> self.buf@[j] == old(self).buf@[from + j],
                forall|j: int| i <= j < self.buf@.len() ==> self.buf@[j] == old(self).buf@[j],
            decreases cnt - i,
        {
            let b = *slice_index_get(self.buf.as_slice(), from + i);
            self.buf.set(i, b);
            i = i + 1;
        }
        proof {
            assert(self.stored().take(to - from) =~= old(self).stored().subrange(
                from as int,
                to as int,
            ));
            assert(self.stored().skip(to - from) =~= old(self).stored().skip(to - from));
        }
    }

    /// Write bytes from the front of `src`, returning how many were
    /// accepted. Callers loop until everything is accepted (the standard
    /// partial-write contract).
    ///
    /// An empty `src` is a no-op. With nothing accumulated and a source at
    /// least as large as the internal buffer, `src` goes directly to the
    /// stream and the internal buffer is bypassed entirely. Otherwise bytes
    /// are copied into the buffer; exactly filling it triggers one commit of
    /// the whole buffer to the stream, and a partially accepted commit keeps
    /// the unaccepted tail (the just-copied bytes included) at the front of
    /// the buffer.
    ///
    /// If the commit fails, the error propagates and the accumulated count
    /// stays at its pre-call value: the bytes just copied into the buffer
    /// are disowned again, and the next `write` will overwrite that region.
    /// After an error, retry with the same bytes that were just passed (or
    /// an equivalent prefix), never with different data; otherwise the
    /// pending region is silently corrupted.
    ///
    /// A write that triggers no commit — an empty source, or one that fits
    /// without filling the buffer — always succeeds: only the stream can
    /// fail a write.
    ///
    /// A writer whose buffer was pre-filled to capacity with
    /// `new_with_data` must `flush` before writing.
    pub fn write(&mut self, src: &[u8]) -> (r: Result<usize, T::Error>)
        requires
            old(self).wf(),
            src@.len() > 0 ==> old(self).spec_written() == 0 || old(self).spec_written()
                < old(self).capacity(),
        ensures
            final(self).wf(),
            final(self).capacity() == old(self).capacity(),
            src@.len() == 0 || old(self).spec_written() + src@.len() < old(self).capacity()
                ==> r is Ok,
            match r {
                Ok(n) => {
                    &&& n <= src@.len()
                    &&& final(self).committed() == old(self).committed() + src@.take(n as int)
                    &&& n == 0 ==> src@.len() == 0
                    &&& src@.len() == 0 ==> *final(self) == *old(self)
                    &&& (old(self).spec_written() == 0 && src@.len() >= old(self).capacity()
                        && src@.len() > 0) ==> {
                        &&& final(self).stored() == old(self).stored()
                        &&& final(self).spec_written() == 0
                        &&& final(self).stream().received() == old(self).stream().received()
                            + src@.take(n as int)
                    }
                    &&& (src@.len() > 0 && !(old(self).spec_written() == 0 && src@.len()
                        >= old(self).capacity())) ==> {
                        &&& n as int == (if src@.len() < old(self).capacity()
                            - old(self).spec_written() {
                            src@.len() as int
                        } else {
                            old(self).capacity() - old(self).spec_written()
                        })
                        &&& old(self).spec_written() + n < old(self).capacity() ==> {
                            &&& final(self).stream() == old(self).stream()
                            &&& final(self).spec_written() == old(self).spec_written() + n
                        }
                        &&& old(self).spec_written() + n == old(self).capacity()
                            ==> final(self).spec_written() < old(self).capacity()
                    }
                },
                Err(_) => {
                    &&& final(self).committed() == old(self).committed()
                    &&& final(self).spec_written() == old(self).spec_written()
                    &&& final(self).pending() == old(self).pending()
                    &&& final(self).stream().received() == old(self).stream().received()
                    &&& old(self).spec_written() == 0 ==> final(self).stored()
                        == old(self).stored()
                },
            },
    {
        if src.len() == 0 {
            return Ok(0);
        }
        let cap = self.buf.len();
        if self.pos == 0 && src.len() >= cap {
            // fast path: nothing accumulated and the source is large
            proof {
                assert(old(self).pending() =~= Seq::<u8>::empty());
            }
            let r = self.inner.write(src);
            proof {
                assert(self.pending() =~= Seq::<u8>::empty());
                match r {
                    Ok(n) => {
                        assert(self.committed() =~= old(self).committed()
                            + src@.take(n as int));
                    },
                    Err(_) => {
                        assert(self.committed() =~= old(self).committed());
                    },
                }
            }
            return r;
        }
        let space = cap - self.pos;
        let buffered = if src.len() < space {
            src.len()
        } else {
            space
        };
        self.stash(src, buffered);
        let ghost mid = *self;
        let new_pos = self.pos + buffered;
        if new_pos < cap {
            // the source fit without filling the buffer: no commit attempted
            self.pos = new_pos;
            proof {
                assert(self.pending() =~= old(self).pending() + src@.take(buffered as int));
                assert(self.committed() =~= old(self).committed() + src@.take(buffered as int));
            }
        } else {
            // the buffer is exactly full: commit it whole
            let m = match self.inner.write(self.buf.as_slice()) {
                Ok(m) => m,
                Err(e) => {
                    // the accumulated count keeps its pre-call value: the
                    // just-copied bytes are disowned, a retry overwrites them
                    proof {
                        assert(self.pending() =~= old(self).pending());
                        assert(self.committed() =~= old(self).committed());
                    }
                    return Err(e);
                },
            };
            proof {
                assert(mid.stored() =~= mid.pending() + src@.take(buffered as int));
                assert(mid.pending() =~= old(self).pending());
            }
            if m < new_pos {
                // partial commit: keep the unaccepted tail, front-shifted
                self.shift_front(m, new_pos);
                self.pos = new_pos - m;
                proof {
                    assert(self.pending() =~= mid.stored().subrange(m as int, new_pos as int));
                    assert(self.committed() =~= old(self).committed()
                        + src@.take(buffered as int));
                }
            } else {
                self.pos = 0;
                proof {
                    assert(mid.stored().take(m as int) =~= mid.stored());
                    assert(self.pending() =~= Seq::<u8>::empty());
                    assert(self.committed() =~= old(self).committed()
                        + src@.take(buffered as int));
                }
            }
        }
        Ok(buffered)
    }

    /// Write the whole of `src`, looping over `write` until every byte is
    /// accepted or the stream fails. On failure the error propagates with
    /// some prefix of `src` already taken on (committed or accumulated); the
    /// retry contract of `write` applies to the rest. A source that fits
    /// without filling the buffer is accepted whole, with no stream call and
    /// no possibility of failure.
    pub fn write_all(&mut self, src: &[u8]) -> (r: Result<(), T::Error>)
        requires
            src@.len() > 0 ==> old(self).spec_written() == 0 || old(self).spec_written()
                < old(self).capacity(),
        ensures
            final(self).capacity() == old(self).capacity(),
            src@.len() > 0 ==> final(self).wf() && (final(self).spec_written() == 0
                || final(self).spec_written() < final(self).capacity()),
            src@.len() == 0 ==> *final(self) == *old(self),
            src@.len() == 0 || old(self).spec_written() + src@.len() < old(self).capacity()
                ==> r is Ok,
            match r {
                Ok(_) => final(self).committed() == old(self).committed() + src@,
                Err(_) => exists|k: int|
                    0 <= k <= src@.len() && final(self).committed() == old(self).committed()
                        + src@.take(k),
            },
    {
        if src.len() == 0 {
            return Ok(());
        }
        let mut sent: usize = 0;
        while sent < src.len()
            invariant
                sent <= src@.len(),
                self.capacity() == old(self).capacity(),
                self.committed() == old(self).committed() + src@.take(sent as int),
                src@.len() > 0 ==> self.wf() && (self.spec_written() == 0
                    || self.spec_written() < self.capacity()),
                old(self).spec_written() + src@.len() < old(self).capacity()
                    ==> self.spec_written() == old(self).spec_written() + sent,
            decreases src@.len() - sent,
        {
            let rest = slice_subrange(src, sent, src.len());
            match self.write(rest) {
                Ok(n) => {
                    proof {
                        assert(src@.take(sent as int) + rest@.take(n as int)
                            =~= src@.take(sent + n as int));
                    }
                    sent = sent + n;
                },
                Err(e) => {
                    proof {
                        assert(self.committed() == old(self).committed()
                            + src@.take(sent as int));
                    }
                    return Err(e);
                },
            }
        }
        proof {
            assert(src@.take(sent as int) =~= src@);
        }
        Ok(())
    }

    /// Commit all accumulated bytes to the wrapped stream, then flush the
    /// stream itself.
    ///
    /// Only when every accumulated byte is accepted is the count reset; on
    /// failure the error propagates, the count keeps its pre-call value and
    /// the stream's own flush is not called (the same retry contract as
    /// `write`). On success, or with nothing accumulated, the stream's own
    /// flush is called and its result returned.
    pub fn flush(&mut self) -> (r: Result<(), T::Error>)
        requires
            old(self).wf(),
        ensures
            final(self).wf(),
            final(self).capacity() == old(self).capacity(),
            final(self).stored() == old(self).stored(),
            match r {
                Ok(_) => {
                    &&& final(self).spec_written() == 0
                    &&& final(self).stream().received() == old(self).committed()
                    &&& final(self).committed() == old(self).committed()
                },
                Err(_) => (final(self).spec_written() == old(self).spec_written()
                    && exists|k: int|
                    0 <= k <= old(self).pending().len() && final(self).stream().received()
                        == old(self).stream().received() + old(self).pending().take(k)) || (
                final(self).spec_written() == 0 && final(self).stream().received()
                    == old(self).committed()),
            },
    {
        if self.pos > 0 {
            let pend = slice_subrange(self.buf.as_slice(), 0, self.pos);
            proof {
                assert(pend@ =~= old(self).pending());
            }
            match self.inner.write_all(pend) {
                Ok(_) => {
                    self.pos = 0;
                },
                Err(e) => {
                    proof {
                        let k = choose|k: int|
                            0 <= k <= pend@.len() && self.stream().received()
                                == old(self).stream().received() + pend@.take(k);
                        assert(pend@.take(k) == old(self).pending().take(k));
                    }
                    return Err(e);
                },
            }
        } else {
            proof {
                assert(old(self).pending() =~= Seq::<u8>::empty());
                assert(old(self).committed() =~= old(self).stream().received());
            }
        }
        let r = self.inner.flush();
        proof {
            assert(self.pending() =~= Seq::<u8>::empty());
            assert(self.stream().received() =~= old(self).committed());
            assert(self.committed() =~= old(self).committed());
        }
        r
    }

    /// Exclusive access to the wrapped stream, granted only while no
    /// accumulated bytes would be silently lost; otherwise the request is
    /// refused with [`BypassError`].
    pub fn bypass(&mut self) -> (r: Result<&mut T, BypassError>)
        ensures
            r is Ok <==> old(self).spec_written() == 0,
            match r {
                Ok(inner) => {
                    &&& *inner == old(self).stream()
                    &&& final(self).stream() == *final(inner)
                    &&& final(self).stored() == old(self).stored()
                    &&& final(self).capacity() == old(self).capacity()
                    &&& final(self).spec_written() == 0
                    &&& final(self).wf()
                },
                Err(_) => *final(self) == *old(self),
            },
    {
        if self.pos == 0 {
            Ok(&mut self.inner)
        } else {
            Err(BypassError)
        }
    }

    /// Exclusive access to the wrapped stream together with the raw buffer,
    /// granted under the same guard as `bypass`.
    pub fn bypass_with_buf(&mut self) -> (r: Result<(&mut T, &mut Vec<u8>), BypassError>)
        ensures
            r is Ok <==> old(self).spec_written() == 0,
            match r {
                Ok(parts) => {
                    &&& *parts.0 == old(self).stream()
                    &&& parts.1@ == old(self).stored()
                    &&& final(self).stream() == *final(parts.0)
                    &&& final(self).stored() == final(parts.1)@
                    &&& final(self).capacity() == final(parts.1)@.len()
                    &&& final(self).spec_written() == 0
                    &&& final(self).wf()
                },
                Err(_) => *final(self) == *old(self),
            },
    {
        if self.pos == 0 {
            Ok((&mut self.inner, &mut self.buf))
        } else {
            Err(BypassError)
        }
    }

    /// Split the writer into the wrapped stream, the raw buffer and the
    /// accumulated count, under the same guard as `bypass`: with bytes still
    /// accumulated the split is refused, so the count handed out is always
    /// zero.
    pub fn split(&mut self) -> (r: Result<(&mut T, &mut Vec<u8>, usize), BypassError>)
        ensures
            r is Ok <==> old(self).spec_written() == 0,
            match r {
                Ok(parts) => {
                    &&& *parts.0 == old(self).stream()
                    &&& parts.1@ == old(self).stored()
                    &&& parts.2 == old(self).spec_written()
                    &&& final(self).stream() == *final(parts.0)
                    &&& final(self).stored() == final(parts.1)@
                    &&& final(self).capacity() == final(parts.1)@.len()
                    &&& final(self).spec_written() == 0
                    &&& final(self).wf()
                },
                Err(_) => *final(self) == *old(self),
            },
    {
        if self.pos == 0 {
            Ok((&mut self.inner, &mut self.buf, self.pos))
        } else {
            Err(BypassError)
        }
    }

    /// Consume the wrapper and hand the wrapped stream back, whatever the
    /// accumulated state.
    ///
    /// Beware: release does not flush, so any unflushed bytes are discarded.
    /// Callers that must not lose bytes call `flush` first.
    pub fn release(self) -> (r: T)
        ensures
            r == self.stream(),
    {
        self.inner
    }
}

impl<T: Read + Write> BufferedWrite<T> {
    /// Pass a read straight through to the wrapped stream: this wrapper
    /// only buffers the write direction.
    pub fn read(&mut self, dst: &mut Vec<u8>) -> (r: Result<usize, <T as Read>::Error>)
        ensures
            final(self).stored() == old(self).stored(),
            final(self).capacity() == old(self).capacity(),
            final(self).spec_written() == old(self).spec_written(),
            final(self).pending() == old(self).pending(),
            final(dst)@.len() == old(dst)@.len(),
            match r {
                Ok(n) => {
                    &&& n <= old(dst)@.len()
                    &&& n <= old(self).stream().remaining().len()
                    &&& final(dst)@ == old(self).stream().remaining().take(n as int)
                        + old(dst)@.skip(n as int)
                    &&& final(self).stream().remaining()
                        == old(self).stream().remaining().skip(n as int)
                    &&& n == 0 ==> old(self).stream().remaining().len() == 0
                        || old(dst)@.len() == 0
                },
                Err(_) => {
                    &&& final(self).stream().remaining() == old(self).stream().remaining()
                    &&& final(dst)@ == old(dst)@
                },
            },
    {
        self.inner.read(dst)
    }
}

impl<T: Read + Write> Read for BufferedWrite<T> {
    type Error = <T as Read>::Error;

    /// The wrapper buffers nothing in the read direction: what it will
    /// deliver is what the wrapped stream will deliver.
    open spec fn remaining(&self) -> Seq<u8> {
        self.stream().remaining()
    }

    fn read(&mut self, dst: &mut Vec<u8>) -> (r: Result<usize, <T as Read>::Error>) {
        BufferedWrite::read(self, dst)
    }
}

} // verus!
