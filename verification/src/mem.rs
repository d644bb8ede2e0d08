//! In-memory streams: verified implementations of the stream traits.
//!
//! They serve two purposes: they show that the stream contracts are satisfiable
//! (including a sink that fails and accepts bytes only partially, as a real
//! peripheral might), and they let tests drive the buffering wrappers
//! end-to-end without any outside device.

use vstd::prelude::*;
use vstd::slice::slice_index_get;

use crate::stream::Read;
use crate::stream::Write;

verus! {

/// Error value of the in-memory streams. Opaque, like any stream error.
#[derive(Debug, PartialEq, Eq, Structural)]
pub struct MemError;

/// A readable stream that delivers the bytes of a vector, front to back.
///
/// Every read returns as many bytes as are asked for and still held, so a
/// read returns `0` exactly at end-of-stream. It never fails.
pub struct VecSource {
    data: Vec<u8>,
    pos: usize,
}

impl VecSource {
    #[verifier::type_invariant]
    spec fn inv(&self) -> bool {
        self.pos <= self.data@.len()
    }

    /// Wrap a vector of bytes as a stream that will deliver exactly them.
    pub fn new(data: Vec<u8>) -> (r: VecSource)
        ensures
            r.remaining() == data@,
    {
        let r = VecSource { data, pos: 0 };
        proof {
            assert(r.remaining() =~= r.data@);
        }
        r
    }
}

impl Read for VecSource {
    type Error = MemError;

    closed spec fn remaining(&self) -> Seq<u8> {
        self.data@.skip(self.pos as int)
    }

    fn read(&mut self, dst: &mut Vec<u8>) -> (r: Result<usize, MemError>)
        ensures
            match r {
                Ok(n) => n as int == (if old(dst)@.len() < old(self).remaining().len() {
                    old(dst)@.len() as int
                } else {
                    old(self).remaining().len() as int
                }),
                Err(_) => false,
            },
    {
        proof {
            use_type_invariant(&*self);
        }
        let avail = self.data.len() - self.pos;
        let n = if dst.len() < avail {
            dst.len()
        } else {
            avail
        };
        let mut i: usize = 0;
        while i < n
            invariant
                i <= n,
                *self == *old(self),
                self.pos + n <= self.data@.len(),
                self.data@.len() <= usize::MAX,
                n <= dst@.len(),
                dst@.len() == old(dst)@.len(),
                forall|j: int| 0 <= j < i ==> dst@[j] == self.data@[self.pos + j],
                forall|j: int| i <= j < dst@.len() ==> dst@[j] == old(dst)@[j],
            decreases n - i,
        {
            let b = *slice_index_get(self.data.as_slice(), self.pos + i);
            dst.set(i, b);
            i = i + 1;
        }
        proof {
            assert(dst@ =~= old(self).remaining().take(n as int) + old(dst)@.skip(n as int));
        }
        self.pos = self.pos + n;
        proof {
            assert(self.remaining() =~= old(self).remaining().skip(n as int));
        }
        Ok(n)
    }
}

/// A writable stream that accepts every byte offered and keeps them all.
pub struct VecSink {
    data: Vec<u8>,
}

impl VecSink {
    /// An empty sink.
    pub fn new() -> (r: VecSink)
        ensures
            r.received() == Seq::<u8>::empty(),
    {
        VecSink { data: Vec::new() }
    }

    /// How many bytes the sink has accepted so far.
    pub fn received_len(&self) -> (r: usize)
        ensures
            r == self.received().len(),
    {
        self.data.len()
    }

    /// The bytes the sink has accepted so far, in order.
    pub fn received_bytes(&self) -> (r: &Vec<u8>)
        ensures
            r@ == self.received(),
    {
        &self.data
    }
}

impl Write for VecSink {
    type Error = MemError;

    closed spec fn received(&self) -> Seq<u8> {
        self.data@
    }

    fn write(&mut self, src: &[u8]) -> (r: Result<usize, MemError>)
        ensures
            match r {
                Ok(n) => n == src@.len(),
                Err(_) => false,
            },
    {
        push_all(&mut self.data, src);
        Ok(src.len())
    }

    fn write_all(&mut self, src: &[u8]) -> (r: Result<(), MemError>)
        ensures
            r is Ok,
    {
        push_all(&mut self.data, src);
        Ok(())
    }

    fn flush(&mut self) -> (r: Result<(), MemError>)
        ensures
            r is Ok,
    {
        Ok(())
    }
}

/// A writable stream whose script decides the outcome of each call.
///
/// The script is consulted one entry per call of `write` or `write_all`: an
/// entry `0` makes that call fail without consuming anything, an entry
/// `k > 0` makes `write` accept up to `k` bytes (`write_all` accepts the
/// whole batch). An exhausted script fails every further call. This models a
/// stream that completes operations only partially or intermittently.
pub struct ScriptedSink {
    data: Vec<u8>,
    script: Vec<usize>,
    cursor: usize,
}

impl ScriptedSink {
    /// The script entries not yet consumed, in order.
    pub closed spec fn upcoming(&self) -> Seq<usize> {
        if self.cursor <= self.script@.len() {
            self.script@.skip(self.cursor as int)
        } else {
            Seq::empty()
        }
    }

    /// A sink that will answer its calls as `script` dictates.
    pub fn new(script: Vec<usize>) -> (r: ScriptedSink)
        ensures
            r.received() == Seq::<u8>::empty(),
            r.upcoming() == script@,
    {
        let r = ScriptedSink { data: Vec::new(), script, cursor: 0 };
        proof {
            assert(r.upcoming() =~= r.script@);
        }
        r
    }

    /// How many bytes the sink has accepted so far.
    pub fn received_len(&self) -> (r: usize)
        ensures
            r == self.received().len(),
    {
        self.data.len()
    }

    /// The bytes the sink has accepted so far, in order.
    pub fn received_bytes(&self) -> (r: &Vec<u8>)
        ensures
            r@ == self.received(),
    {
        &self.data
    }

    /// Take the next script entry, if any; `None` means the call must fail.
    fn next_entry(&mut self) -> (r: Option<usize>)
        ensures
            final(self).data == old(self).data,
            match r {
                Some(k) => {
                    &&& old(self).upcoming().len() > 0
                    &&& old(self).upcoming()[0] == k
                    &&& k > 0
                    &&& final(self).upcoming() == old(self).upcoming().skip(1)
                },
                None => {
                    &&& old(self).upcoming().len() == 0 || old(self).upcoming()[0] == 0
                    &&& final(self).upcoming() == (if old(self).upcoming().len() > 0 {
                        old(self).upcoming().skip(1)
                    } else {
                        old(self).upcoming()
                    })
                },
            },
    {
        if self.cursor >= self.script.len() {
            return None;
        }
        let k = self.script[self.cursor];
        self.cursor = self.cursor + 1;
        proof {
            assert(old(self).upcoming()[0] == k);
            assert(self.upcoming() =~= old(self).upcoming().skip(1));
        }
        if k == 0 {
            None
        } else {
            Some(k)
        }
    }
}

impl Write for ScriptedSink {
    type Error = MemError;

    closed spec fn received(&self) -> Seq<u8> {
        self.data@
    }

    fn write(&mut self, src: &[u8]) -> (r: Result<usize, MemError>)
        ensures
            r is Ok <==> (old(self).upcoming().len() > 0 && old(self).upcoming()[0] > 0),
            final(self).upcoming() == (if old(self).upcoming().len() > 0 {
                old(self).upcoming().skip(1)
            } else {
                old(self).upcoming()
            }),
            match r {
                Ok(n) => n as int == (if src@.len() < old(self).upcoming()[0] {
                    src@.len() as int
                } else {
                    old(self).upcoming()[0] as int
                }),
                Err(_) => true,
            },
    {
        match self.next_entry() {
            None => Err(MemError),
            Some(k) => {
                let n = if src.len() < k {
                    src.len()
                } else {
                    k
                };
                let taken = slice_subrange_copy(src, 0, n);
                push_all(&mut self.data, taken.as_slice());
                proof {
                    assert(self.data@ =~= old(self).received() + src@.take(n as int));
                }
                Ok(n)
            },
        }
    }

    fn write_all(&mut self, src: &[u8]) -> (r: Result<(), MemError>)
        ensures
            r is Ok <==> (old(self).upcoming().len() > 0 && old(self).upcoming()[0] > 0),
            final(self).upcoming() == (if old(self).upcoming().len() > 0 {
                old(self).upcoming().skip(1)
            } else {
                old(self).upcoming()
            }),
    {
        match self.next_entry() {
            None => {
                proof {
                    assert(self.received() =~= old(self).received() + src@.take(0));
                }
                Err(MemError)
            },
            Some(_) => {
                push_all(&mut self.data, src);
                proof {
                    assert(self.data@ =~= old(self).received() + src@);
                }
                Ok(())
            },
        }
    }

    fn flush(&mut self) -> (r: Result<(), MemError>)
        ensures
            r is Ok,
            final(self).upcoming() == old(self).upcoming(),
    {
        Ok(())
    }
}

/// A stream that reads and writes: it delivers the bytes of a vector and
/// keeps every byte written to it, the two directions independent of each
/// other as in a socket or a serial line.
pub struct Duplex {
    rx: VecSource,
    tx: VecSink,
}

impl Duplex {
    /// A duplex stream that will deliver exactly `input` and has accepted
    /// nothing yet.
    pub fn new(input: Vec<u8>) -> (r: Duplex)
        ensures
            r.remaining() == input@,
            r.received() == Seq::<u8>::empty(),
    {
        Duplex { rx: VecSource::new(input), tx: VecSink::new() }
    }

    /// How many bytes the stream has accepted so far.
    pub fn received_len(&self) -> (r: usize)
        ensures
            r == self.received().len(),
    {
        self.tx.received_len()
    }

    /// The bytes the stream has accepted so far, in order.
    pub fn received_bytes(&self) -> (r: &Vec<u8>)
        ensures
            r@ == self.received(),
    {
        self.tx.received_bytes()
    }
}

impl Read for Duplex {
    type Error = MemError;

    closed spec fn remaining(&self) -> Seq<u8> {
        self.rx.remaining()
    }

    fn read(&mut self, dst: &mut Vec<u8>) -> (r: Result<usize, MemError>)
        ensures
            match r {
                Ok(n) => n as int == (if old(dst)@.len() < old(self).remaining().len() {
                    old(dst)@.len() as int
                } else {
                    old(self).remaining().len() as int
                }),
                Err(_) => false,
            },
    {
        self.rx.read(dst)
    }
}

impl Write for Duplex {
    type Error = MemError;

    closed spec fn received(&self) -> Seq<u8> {
        self.tx.received()
    }

    fn write(&mut self, src: &[u8]) -> (r: Result<usize, MemError>)
        ensures
            match r {
                Ok(n) => n == src@.len(),
                Err(_) => false,
            },
    {
        self.tx.write(src)
    }

    fn write_all(&mut self, src: &[u8]) -> (r: Result<(), MemError>)
        ensures
            r is Ok,
    {
        self.tx.write_all(src)
    }

    fn flush(&mut self) -> (r: Result<(), MemError>)
        ensures
            r is Ok,
    {
        self.tx.flush()
    }
}

/// Append every byte of `src` to `dst`.
fn push_all(dst: &mut Vec<u8>, src: &[u8])
    ensures
        final(dst)@ == old(dst)@ + src@,
{
    let mut i: usize = 0;
    while i < src.len()
        invariant
            i <= src@.len(),
            dst@ == old(dst)@ + src@.take(i as int),
        decreases src@.len() - i,
    {
        let b = *slice_index_get(src, i);
        dst.push(b);
        proof {
            assert(old(dst)@ + src@.take(i as int) + seq![b]
                =~= old(dst)@ + src@.take(i + 1));
        }
        i = i + 1;
    }
    proof {
        assert(old(dst)@ + src@.take(src@.len() as int) =~= old(dst)@ + src@);
    }
}

/// Copy the bytes `src[from..to]` into a fresh vector.
fn slice_subrange_copy(src: &[u8], from: usize, to: usize) -> (r: Vec<u8>)
    requires
        from <= to <= src@.len(),
    ensures
        r@ == src@.subrange(from as int, to as int),
{
    let mut r: Vec<u8> = Vec::new();
    let mut i: usize = from;
    while i < to
        invariant
            from <= i <= to <= src@.len(),
            r@ == src@.subrange(from as int, i as int),
        decreases to - i,
    {
        let b = *slice_index_get(src, i);
        r.push(b);
        proof {
            assert(src@.subrange(from as int, i as int) + seq![b]
                =~= src@.subrange(from as int, i + 1));
        }
        i = i + 1;
    }
    r
}

} // verus!
