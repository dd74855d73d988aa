//! Byte sinks and body sources.
//!
//! A [`Sink`] stands for the client connection: an ordered byte stream that
//! every write appends to, and that may fail.  A [`BodySource`] produces a
//! finite byte sequence and is read to exhaustion.  The serializer is
//! generic over both, so the verified core never performs I/O itself; a
//! caller supplies a connection-backed sink and, if it likes, a
//! file-backed source.

use vstd::prelude::*;

verus! {

broadcast use vstd::seq_lib::group_seq_properties;

/// A writable byte stream.  `out()` is everything written so far;
/// `infallible()` marks sinks whose writes never fail (an in-memory
/// buffer), so that success can be promised through them.
pub trait Sink: Sized {
    spec fn out(&self) -> Seq<u8>;

    spec fn infallible(&self) -> bool;

    /// Appends `data` whole, or reports a write failure.
    fn write_all(&mut self, data: &[u8]) -> (r: Result<(), ()>)
        ensures
            r is Ok ==> final(self).out() == old(self).out() + data@,
            r is Err ==> !old(self).infallible(),
            final(self).infallible() == old(self).infallible(),
    ;
}

/// A finite byte source consumed from the front.  `remaining()` is what a
/// read to exhaustion would still yield.
pub trait BodySource: Sized {
    spec fn remaining(&self) -> Seq<u8>;

    /// Reads at most `max` bytes off the front; an empty result with
    /// `max > 0` signals end-of-stream.
    fn read_some(&mut self, max: usize) -> (r: Vec<u8>)
        ensures
            r@.len() <= max,
            old(self).remaining() == r@ + final(self).remaining(),
            max > 0 && old(self).remaining().len() > 0 ==> r@.len() > 0,
    ;
}

/// An in-memory sink: a growing byte vector.  Its writes always succeed.
pub struct VecSink {
    pub data: Vec<u8>,
}

impl VecSink {
    pub fn new() -> (r: VecSink)
        ensures
            r.out() == Seq::<u8>::empty(),
            r.infallible(),
    {
        let r = VecSink { data: Vec::new() };
        proof {
            assert(r.data@ =~= Seq::<u8>::empty());
        }
        r
    }

    /// Hands the written bytes back.
    pub fn into_bytes(self) -> (r: Vec<u8>)
        ensures
            r@ == self.out(),
    {
        self.data
    }
}

impl Sink for VecSink {
    open spec fn out(&self) -> Seq<u8> {
        self.data@
    }

    open spec fn infallible(&self) -> bool {
        true
    }

    fn write_all(&mut self, data: &[u8]) -> (r: Result<(), ()>) {
        let mut i: usize = 0;
        while i < data.len()
            invariant
                i <= data.len(),
                self.data@ == old(self).data@ + data@.take(i as int),
            decreases data.len() - i,
        {
            self.data.push(data[i]);
            proof {
                assert(old(self).data@ + data@.take(i + 1) =~= (old(self).data@ + data@.take(
                    i as int,
                )).push(data@[i as int]));
            }
            i += 1;
        }
        proof {
            assert(data@.take(data@.len() as int) =~= data@);
        }
        Ok(())
    }
}

/// An in-memory body source over a byte buffer.
pub struct MemSource {
    pub data: Vec<u8>,
    pub pos: usize,
}

impl MemSource {
    pub fn new(data: Vec<u8>) -> (r: MemSource)
        ensures
            r.remaining() == data@,
    {
        let r = MemSource { data, pos: 0 };
        proof {
            assert(r.data@.skip(0) =~= r.data@);
        }
        r
    }
}

impl BodySource for MemSource {
    open spec fn remaining(&self) -> Seq<u8> {
        if self.pos <= self.data@.len() {
            self.data@.skip(self.pos as int)
        } else {
            Seq::<u8>::empty()
        }
    }

    fn read_some(&mut self, max: usize) -> (r: Vec<u8>) {
        if self.pos >= self.data.len() {
            let r: Vec<u8> = Vec::new();
            proof {
                assert(old(self).remaining() =~= r@ + self.remaining());
            }
            return r;
        }
        let avail = self.data.len() - self.pos;
        let n = if max < avail {
            max
        } else {
            avail
        };
        let ghost pos0 = self.pos as int;
        let mut r: Vec<u8> = Vec::new();
        let mut i: usize = 0;
        while i < n
            invariant
                i <= n,
                self.data@ == old(self).data@ && self.pos == old(self).pos,
                self.pos + n <= self.data@.len(),
                self.pos + n <= usize::MAX,
                pos0 == self.pos as int,
                r@ == self.data@.subrange(pos0, pos0 + i),
            decreases n - i,
        {
            assert(self.pos + i < self.data@.len());
            let idx: usize = self.pos + i;
            r.push(self.data[idx]);
            proof {
                assert(r@ =~= self.data@.subrange(pos0, pos0 + i + 1));
            }
            i += 1;
        }
        self.pos = self.pos + n;
        proof {
            assert(old(self).remaining() =~= r@ + self.remaining());
        }
        r
    }
}

/// The empty body source.
pub struct NullSource;

impl BodySource for NullSource {
    open spec fn remaining(&self) -> Seq<u8> {
        Seq::<u8>::empty()
    }

    fn read_some(&mut self, max: usize) -> (r: Vec<u8>) {
        let r: Vec<u8> = Vec::new();
        proof {
            assert(old(self).remaining() =~= r@ + self.remaining());
        }
        r
    }
}

/// The first `limit` bytes of `s`, or all of `s` if it is shorter.
pub open spec fn take_at_most(s: Seq<u8>, limit: nat) -> Seq<u8> {
    if limit <= s.len() {
        s.take(limit as int)
    } else {
        s
    }
}

/// Streams at most `limit` bytes from `src` to `dst`, unframed.  This is
/// the identity-coding body copy: the bound keeps a body source that is
/// longer than the declared `Content-Length` from overrunning the framing,
/// and a shorter source simply ends early.
pub fn copy_bounded<R: BodySource, W: Sink>(src: &mut R, dst: &mut W, limit: usize) -> (r: Result<
    (),
    (),
>)
    ensures
        r is Ok ==> final(dst).out() == old(dst).out() + take_at_most(
            old(src).remaining(),
            limit as nat,
        ),
        r is Err ==> !old(dst).infallible(),
        final(dst).infallible() == old(dst).infallible(),
{
    let mut done: usize = 0;
    loop
        invariant
            done <= limit,
            done <= old(src).remaining().len(),
            dst.out() == old(dst).out() + old(src).remaining().take(done as int),
            src.remaining() == old(src).remaining().skip(done as int),
            dst.infallible() == old(dst).infallible(),
        decreases limit - done,
    {
        let want: usize = if limit - done < 4096 {
            limit - done
        } else {
            4096
        };
        if want == 0 {
            proof {
                assert(done == limit);
                assert(old(src).remaining().take(done as int) =~= take_at_most(
                    old(src).remaining(),
                    limit as nat,
                ));
            }
            return Ok(());
        }
        let buf = src.read_some(want);
        if buf.len() == 0 {
            proof {
                assert(src.remaining() =~= Seq::<u8>::empty() + src.remaining());
                assert(old(src).remaining().skip(done as int).len() == 0);
                assert(old(src).remaining().len() == done);
                assert(old(src).remaining().take(done as int) =~= take_at_most(
                    old(src).remaining(),
                    limit as nat,
                ));
            }
            return Ok(());
        }
        match dst.write_all(buf.as_slice()) {
            Ok(()) => {},
            Err(()) => {
                return Err(());
            },
        }
        proof {
            let rem = old(src).remaining();
            let l = buf@.len() as int;
            assert(rem.skip(done as int) == buf@ + src.remaining());
            assert(rem.skip(done as int).len() == rem.len() - done);
            assert(done + l <= rem.len());
            assert forall|i: int| 0 <= i < done + l implies rem.take(done + l)[i] == (rem.take(
                done as int,
            ) + buf@)[i] by {
                if i >= done {
                    assert(rem.skip(done as int)[i - done] == (buf@ + src.remaining())[i - done]);
                }
            }
            assert(rem.take(done + l) =~= rem.take(done as int) + buf@);
            assert forall|i: int| 0 <= i < src.remaining().len() implies src.remaining()[i]
                == rem.skip(done + l)[i] by {
                assert(rem.skip(done + l)[i] == rem[done + l + i]);
                assert(rem.skip(done as int)[i + l] == rem[done + i + l]);
                assert((buf@ + src.remaining())[i + l] == src.remaining()[i]);
            }
            assert(src.remaining().len() == rem.skip(done + l).len());
            assert(src.remaining() =~= rem.skip(done + l));
        }
        done = done + buf.len();
    }
}

} // verus!
