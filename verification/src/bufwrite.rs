//! The output-buffer capability: a logical byte stream that supports
//! appending, a bounded rollback window, and batched small writes.

use crate::error::Error;
use crate::raw::{append_bytes, SerializeRaw};
use vstd::prelude::*;

verus! {

/// A writer with an internal buffer.
///
/// `stream()` is every byte written to the logical output so far, in
/// order. `buffered()` counts the trailing stream bytes that are still
/// held in the internal buffer: only those may be rolled back with
/// `shrink`. A writer backed by a downstream sink is `fallible()`; one
/// that owns all of its bytes never fails. `small_limit()` bounds a
/// single batched write accepted by `write_small`.
pub trait BufWrite: Sized {
    /// All bytes written to the logical output stream so far.
    spec fn stream(&self) -> Seq<u8>;

    /// How many trailing stream bytes can still be rolled back.
    spec fn buffered(&self) -> nat;

    /// Whether a write can fail (a downstream sink may refuse bytes).
    spec fn fallible(&self) -> bool;

    /// The size up to which a single batched small write must succeed.
    spec fn small_limit(&self) -> nat;

    /// Internal well-formedness.
    spec fn inv(&self) -> bool;

    /// The rollback window never exceeds the stream, and small batched
    /// writes of the engine's scalar texts always fit.
    proof fn inv_facts(&self)
        requires
            self.inv(),
        ensures
            self.buffered() <= self.stream().len(),
            self.small_limit() >= 48,
    ;

    /// Append arbitrarily many bytes, growing or forwarding as needed.
    /// Data that fits beside the buffered bytes is buffered without a
    /// write that could fail; data larger than the whole buffer leaves
    /// nothing buffered behind it.
    fn write_all(&mut self, data: &[u8]) -> (r: Result<(), Error>)
        requires
            old(self).inv(),
        ensures
            final(self).inv(),
            final(self).fallible() == old(self).fallible(),
            final(self).small_limit() == old(self).small_limit(),
            r is Ok ==> final(self).stream() == old(self).stream() + data@,
            old(self).buffered() + data@.len() <= old(self).small_limit() ==> r is Ok && final(self).buffered() == old(self).buffered() + data@.len(),
            r is Ok && data@.len() > old(self).small_limit() ==> final(self).buffered() == 0,
            !old(self).fallible() ==> r is Ok,
            r matches Err(e) ==> e is Io,
    ;

    /// Append a small batch of bytes, keeping all of them in the
    /// rollback window. Data that fits beside the buffered bytes is
    /// buffered without a write that could fail.
    fn write_small(&mut self, data: &[u8]) -> (r: Result<(), Error>)
        requires
            old(self).inv(),
        ensures
            final(self).inv(),
            final(self).fallible() == old(self).fallible(),
            final(self).small_limit() == old(self).small_limit(),
            r is Ok ==> final(self).stream() == old(self).stream() + data@
                && final(self).buffered() >= data@.len(),
            old(self).buffered() + data@.len() <= old(self).small_limit() ==> r is Ok && final(self).buffered() == old(self).buffered() + data@.len(),
            !old(self).fallible() && data@.len() <= old(self).small_limit() ==> r is Ok,
            r matches Err(e) ==> e is Io,
    ;

    /// Roll back the last `n` committed bytes.
    fn shrink(&mut self, n: usize)
        requires
            old(self).inv(),
            n <= old(self).buffered(),
        ensures
            final(self).inv(),
            final(self).fallible() == old(self).fallible(),
            final(self).small_limit() == old(self).small_limit(),
            final(self).stream() == old(self).stream().take(
                old(self).stream().len() - n,
            ),
            final(self).buffered() == old(self).buffered() - n,
    ;
}

/// A growable buffer that owns all bytes until the call ends: every
/// byte stays in the rollback window and no write can fail.
impl BufWrite for Vec<u8> {
    open spec fn stream(&self) -> Seq<u8> {
        self@
    }

    open spec fn buffered(&self) -> nat {
        self@.len()
    }

    open spec fn fallible(&self) -> bool {
        false
    }

    open spec fn small_limit(&self) -> nat {
        0xffff_ffff_ffff_ffff as nat
    }

    open spec fn inv(&self) -> bool {
        true
    }

    proof fn inv_facts(&self) {
    }

    fn write_all(&mut self, data: &[u8]) -> (r: Result<(), Error>) {
        let n = data.len();
        append_bytes(self, data);
        proof {
            assert(data@.len() == n <= 0xffff_ffff_ffff_ffff);
        }
        Ok(())
    }

    fn write_small(&mut self, data: &[u8]) -> (r: Result<(), Error>) {
        append_bytes(self, data);
        Ok(())
    }

    fn shrink(&mut self, n: usize) {
        let len = self.len();
        self.truncate(len - n);
        assert(self@ =~= old(self)@.take(old(self)@.len() - n));
    }
}


/// Write one raw value as a single batched reservation.
pub fn write1<B: BufWrite, T1: SerializeRaw>(buf: &mut B, v1: &T1) -> (r: Result<(), Error>)
    requires
        old(buf).inv(),
    ensures
        final(buf).inv(),
        final(buf).fallible() == old(buf).fallible(),
        final(buf).small_limit() == old(buf).small_limit(),
        r is Ok ==> final(buf).stream() == old(buf).stream() + v1.raw_bytes() && final(buf).buffered() >= v1.raw_bytes().len(),
        !old(buf).fallible() && v1.raw_bytes().len() <= old(buf).small_limit() ==> r is Ok,
        r matches Err(e) ==> e is Io,
{
    let mut tmp: Vec<u8> = Vec::new();
    v1.write_to(&mut tmp);
    buf.write_small(tmp.as_slice())
}

/// Write two raw values with one batched reservation, so that the
/// trailing value (a suffix) always lands in the rollback window.
pub fn write2<B: BufWrite, T1: SerializeRaw, T2: SerializeRaw>(
    buf: &mut B,
    v1: &T1,
    v2: &T2,
) -> (r: Result<(), Error>)
    requires
        old(buf).inv(),
    ensures
        final(buf).inv(),
        final(buf).fallible() == old(buf).fallible(),
        final(buf).small_limit() == old(buf).small_limit(),
        r is Ok ==> final(buf).stream() == old(buf).stream() + v1.raw_bytes()
            + v2.raw_bytes() && final(buf).buffered() >= v1.raw_bytes().len()
            + v2.raw_bytes().len(),
        !old(buf).fallible() && v1.raw_bytes().len() + v2.raw_bytes().len()
            <= old(buf).small_limit() ==> r is Ok,
        r matches Err(e) ==> e is Io,
{
    let mut tmp: Vec<u8> = Vec::new();
    v1.write_to(&mut tmp);
    v2.write_to(&mut tmp);
    assert(tmp@ =~= v1.raw_bytes() + v2.raw_bytes());
    let r = buf.write_small(tmp.as_slice());
    proof {
        if r is Ok {
            assert(buf.stream() =~= old(buf).stream() + v1.raw_bytes() + v2.raw_bytes());
        }
    }
    r
}

/// Write three raw values with one batched reservation.
pub fn write3<B: BufWrite, T1: SerializeRaw, T2: SerializeRaw, T3: SerializeRaw>(
    buf: &mut B,
    v1: &T1,
    v2: &T2,
    v3: &T3,
) -> (r: Result<(), Error>)
    requires
        old(buf).inv(),
    ensures
        final(buf).inv(),
        final(buf).fallible() == old(buf).fallible(),
        final(buf).small_limit() == old(buf).small_limit(),
        r is Ok ==> final(buf).stream() == old(buf).stream() + v1.raw_bytes()
            + v2.raw_bytes() + v3.raw_bytes() && final(buf).buffered() >= v1.raw_bytes().len()
            + v2.raw_bytes().len() + v3.raw_bytes().len(),
        !old(buf).fallible() && v1.raw_bytes().len() + v2.raw_bytes().len()
            + v3.raw_bytes().len() <= old(buf).small_limit() ==> r is Ok,
        r matches Err(e) ==> e is Io,
{
    let mut tmp: Vec<u8> = Vec::new();
    v1.write_to(&mut tmp);
    v2.write_to(&mut tmp);
    v3.write_to(&mut tmp);
    assert(tmp@ =~= v1.raw_bytes() + v2.raw_bytes() + v3.raw_bytes());
    let r = buf.write_small(tmp.as_slice());
    proof {
        if r is Ok {
            assert(buf.stream() =~= old(buf).stream() + v1.raw_bytes() + v2.raw_bytes()
                + v3.raw_bytes());
        }
    }
    r
}


/// Write four raw values with one batched reservation.
pub fn write4<B: BufWrite, T1: SerializeRaw, T2: SerializeRaw, T3: SerializeRaw, T4: SerializeRaw>(
    buf: &mut B,
    v1: &T1,
    v2: &T2,
    v3: &T3,
    v4: &T4,
) -> (r: Result<(), Error>)
    requires
        old(buf).inv(),
    ensures
        final(buf).inv(),
        final(buf).fallible() == old(buf).fallible(),
        final(buf).small_limit() == old(buf).small_limit(),
        r is Ok ==> final(buf).stream() == old(buf).stream() + v1.raw_bytes()
            + v2.raw_bytes() + v3.raw_bytes() + v4.raw_bytes() && final(buf).buffered()
            >= v1.raw_bytes().len() + v2.raw_bytes().len() + v3.raw_bytes().len()
            + v4.raw_bytes().len(),
        !old(buf).fallible() && v1.raw_bytes().len() + v2.raw_bytes().len()
            + v3.raw_bytes().len() + v4.raw_bytes().len() <= old(buf).small_limit() ==> r is Ok,
        r matches Err(e) ==> e is Io,
{
    let mut tmp: Vec<u8> = Vec::new();
    v1.write_to(&mut tmp);
    v2.write_to(&mut tmp);
    v3.write_to(&mut tmp);
    v4.write_to(&mut tmp);
    assert(tmp@ =~= v1.raw_bytes() + v2.raw_bytes() + v3.raw_bytes() + v4.raw_bytes());
    let r = buf.write_small(tmp.as_slice());
    proof {
        if r is Ok {
            assert(buf.stream() =~= old(buf).stream() + v1.raw_bytes() + v2.raw_bytes()
                + v3.raw_bytes() + v4.raw_bytes());
        }
    }
    r
}

} // verus!
