//! The relay buffer: a fixed-capacity buffer that forwards accumulated
//! bytes to a downstream sink once full.

use crate::bufwrite::BufWrite;
use crate::error::Error;
use crate::raw::append_bytes;
use vstd::prelude::*;

verus! {

/// The default relay capacity: slightly larger than a typical wrapped
/// buffered writer, to avoid a second internal copy when forwarding.
pub const DEFAULT_BUFFER_SIZE: usize = 8448;

/// The smallest accepted relay capacity; every batched scalar write of
/// the engine fits in this many bytes.
pub const MIN_BUFFER_SIZE: usize = 48;

/// A downstream consumer of bytes: the caller's writer, modeled by the
/// bytes it has accepted so far.
pub trait Sink: Sized {
    /// The bytes this sink has accepted so far. A sink defined outside
    /// the library may leave this at the default; nothing is then known
    /// of what it holds, and nothing proved through `send_all`'s first
    /// promise can be relied on for such a sink.
    open spec fn sunk(&self) -> Seq<u8> {
        Seq::<u8>::empty()
    }

    /// Whether this sink is known never to refuse bytes. A sink defined
    /// outside the library keeps the default and promises no success.
    open spec fn infallible(&self) -> bool {
        false
    }

    /// Deliver all of `data` to the sink, or fail. A sink that never
    /// refuses bytes must accept them all.
    fn send_all(&mut self, data: &[u8]) -> (r: Result<(), Error>)
        ensures
            final(self).infallible() == old(self).infallible(),
            r is Ok ==> final(self).sunk() == old(self).sunk() + data@,
            old(self).infallible() ==> r is Ok,
            r matches Err(e) ==> e is Io,
    ;
}

/// A sink that accumulates everything in memory and never fails.
pub struct VecSink {
    pub data: Vec<u8>,
}

impl VecSink {
    pub fn new() -> (r: VecSink)
        ensures
            r.sunk() == Seq::<u8>::empty(),
    {
        VecSink { data: Vec::new() }
    }
}

impl Sink for VecSink {
    open spec fn sunk(&self) -> Seq<u8> {
        self.data@
    }

    open spec fn infallible(&self) -> bool {
        true
    }

    fn send_all(&mut self, data: &[u8]) -> (r: Result<(), Error>) {
        append_bytes(&mut self.data, data);
        Ok(())
    }
}

/// A fixed-capacity buffer in front of a downstream sink. Bytes build
/// up in the buffer and are forwarded once the buffer would overflow;
/// writes larger than the whole buffer bypass it. Buffered bytes are
/// forwarded only by `flush`, `flush_buf` or `into_sink`: a relay that
/// is dropped without one of these forwards nothing more.
pub struct BufWriter<S: Sink> {
    sink: S,
    buf: Vec<u8>,
    cap: usize,
}

impl<S: Sink> BufWriter<S> {
    /// The bytes currently buffered and not yet forwarded.
    pub closed spec fn buffered_bytes(&self) -> Seq<u8> {
        self.buf@
    }

    /// The bytes already forwarded to the sink.
    pub closed spec fn spec_sunk(&self) -> Seq<u8> {
        self.sink.sunk()
    }

    /// The logical stream is exactly the bytes already forwarded to
    /// the sink followed by the bytes still buffered.
    pub proof fn lemma_stream_accounting(&self)
        ensures
            self.stream() == self.spec_sunk() + self.buffered_bytes(),
            self.buffered() == self.buffered_bytes().len(),
    {
    }

    /// Wrap a sink with the default relay capacity.
    pub fn new(sink: S) -> (r: BufWriter<S>)
        ensures
            r.inv(),
            r.stream() == sink.sunk(),
            r.buffered() == 0,
            r.small_limit() == DEFAULT_BUFFER_SIZE,
            r.fallible() == !sink.infallible(),
    {
        Self::with_capacity(DEFAULT_BUFFER_SIZE, sink)
    }

    /// Wrap a sink with a chosen relay capacity; capacities below the
    /// minimum are raised to it.
    pub fn with_capacity(capacity: usize, sink: S) -> (r: BufWriter<S>)
        ensures
            r.inv(),
            r.stream() == sink.sunk(),
            r.buffered() == 0,
            r.small_limit() == if capacity >= MIN_BUFFER_SIZE {
                capacity as nat
            } else {
                MIN_BUFFER_SIZE as nat
            },
            r.fallible() == !sink.infallible(),
    {
        let cap = if capacity < MIN_BUFFER_SIZE {
            MIN_BUFFER_SIZE
        } else {
            capacity
        };
        BufWriter { sink, buf: Vec::with_capacity(cap), cap }
    }

    /// The relay capacity.
    pub fn capacity(&self) -> (r: usize)
        ensures
            r as nat == self.small_limit(),
    {
        self.cap
    }

    /// Read access to the bytes currently buffered.
    pub fn buffer(&self) -> (r: &[u8])
        ensures
            r@ == self.buffered_bytes(),
    {
        self.buf.as_slice()
    }

    /// Forward everything buffered to the sink and empty the buffer.
    /// On success the sink has received exactly the previously buffered
    /// bytes, appended in order.
    pub fn flush_buf(&mut self) -> (r: Result<(), Error>)
        requires
            old(self).inv(),
        ensures
            final(self).inv(),
            final(self).small_limit() == old(self).small_limit(),
            final(self).fallible() == old(self).fallible(),
            r is Ok ==> final(self).stream() == old(self).stream() && final(self).buffered()
                == 0 && final(self).spec_sunk() == old(self).spec_sunk() + old(self).buffered_bytes(),
            !old(self).fallible() ==> r is Ok,
            r matches Err(e) ==> e is Io,
    {
        let r = self.sink.send_all(self.buf.as_slice());
        match r {
            Ok(()) => {
                self.buf.clear();
                Ok(())
            },
            Err(e) => Err(e),
        }
    }

    /// Forward everything buffered to the sink.
    pub fn flush(&mut self) -> (r: Result<(), Error>)
        requires
            old(self).inv(),
        ensures
            final(self).inv(),
            final(self).small_limit() == old(self).small_limit(),
            final(self).fallible() == old(self).fallible(),
            r is Ok ==> final(self).stream() == old(self).stream() && final(self).buffered()
                == 0 && final(self).spec_sunk() == old(self).spec_sunk() + old(self).buffered_bytes(),
            !old(self).fallible() ==> r is Ok,
            r matches Err(e) ==> e is Io,
    {
        self.flush_buf()
    }

    /// Guarantee room for `additional` more buffered bytes, forwarding
    /// buffered bytes first if needed; a request beyond the whole
    /// capacity fails rather than corrupt state. A request that fits
    /// beside the buffered bytes succeeds without touching the sink.
    pub fn reserve(&mut self, additional: usize) -> (r: Result<(), Error>)
        requires
            old(self).inv(),
        ensures
            final(self).inv(),
            final(self).small_limit() == old(self).small_limit(),
            final(self).fallible() == old(self).fallible(),
            r is Ok ==> final(self).stream() == old(self).stream()
                && final(self).buffered() + additional <= final(self).small_limit(),
            additional + old(self).buffered() <= old(self).small_limit() ==> r is Ok && *final(self)
                == *old(self),
            !old(self).fallible() && additional <= old(self).small_limit() ==> r is Ok,
            additional > old(self).small_limit() ==> r is Err,
            r matches Err(e) ==> e is Io,
    {
        if additional <= self.cap - self.buf.len() {
            Ok(())
        } else if additional <= self.cap {
            self.flush_buf()
        } else {
            Err(Error::Io("capacity overflow".to_owned()))
        }
    }

    /// Hand back the sink, forwarding everything still buffered first:
    /// buffered bytes are forwarded on every exit path.
    pub fn into_sink(self) -> (r: (S, Result<(), Error>))
        requires
            self.inv(),
        ensures
            r.1 is Ok ==> r.0.sunk() == self.stream(),
            !self.fallible() ==> r.1 is Ok,
            r.1 matches Err(e) ==> e is Io,
    {
        let BufWriter { mut sink, buf, .. } = self;
        let fr = sink.send_all(buf.as_slice());
        (sink, fr)
    }
}

impl<S: Sink> BufWrite for BufWriter<S> {
    closed spec fn stream(&self) -> Seq<u8> {
        self.sink.sunk() + self.buf@
    }

    closed spec fn buffered(&self) -> nat {
        self.buf@.len()
    }

    closed spec fn fallible(&self) -> bool {
        !self.sink.infallible()
    }

    closed spec fn small_limit(&self) -> nat {
        self.cap as nat
    }

    closed spec fn inv(&self) -> bool {
        self.buf@.len() <= self.cap && self.cap >= MIN_BUFFER_SIZE
    }

    proof fn inv_facts(&self) {
    }

    fn write_all(&mut self, data: &[u8]) -> (r: Result<(), Error>) {
        if data.len() <= self.cap - self.buf.len() {
            append_bytes(&mut self.buf, data);
            assert(self.stream() =~= old(self).stream() + data@);
            Ok(())
        } else {
            match self.flush_buf() {
                Ok(()) => {
                    if data.len() <= self.cap {
                        append_bytes(&mut self.buf, data);
                        assert(self.stream() =~= old(self).stream() + data@);
                        Ok(())
                    } else {
                        // the request exceeds the whole buffer: bypass it
                        let r = self.sink.send_all(data);
                        if r.is_ok() {
                            assert(self.stream() =~= old(self).stream() + data@);
                        }
                        r
                    }
                },
                Err(e) => Err(e),
            }
        }
    }

    fn write_small(&mut self, data: &[u8]) -> (r: Result<(), Error>) {
        match self.reserve(data.len()) {
            Ok(()) => {
                append_bytes(&mut self.buf, data);
                assert(self.stream() =~= old(self).stream() + data@);
                Ok(())
            },
            Err(e) => Err(e),
        }
    }

    fn shrink(&mut self, n: usize) {
        let len = self.buf.len();
        self.buf.truncate(len - n);
        assert(self.buf@ =~= old(self).buf@.take(old(self).buf@.len() - n));
        assert(self.stream() =~= old(self).stream().take(
            old(self).stream().len() - n,
        ));
    }
}

} // verus!
