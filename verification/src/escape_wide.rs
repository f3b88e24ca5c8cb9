//! The length-tiered escape engine. Short texts take the scalar scan;
//! texts between 17 and 32 bytes are covered by a single 32-byte-wide
//! escape mask; longer texts slide a 32-byte window from the start and
//! finish with an overlapping window whose mask is shifted right by the
//! overlap, so already-processed bytes are excluded. Every tier writes
//! exactly the same bytes as the scalar fallback.

use crate::bufwrite::BufWrite;
use crate::error::Error;
use crate::escape::{
    byte_must_escape, escape_bytes_scalar, escaped, lemma_escaped_clean, lemma_escaped_concat,
    lemma_escaped_push, must_escape, write_escape,
};
use vstd::prelude::*;
use vstd::std_specs::bits::u32_trailing_zeros;
use vstd::string::StringSliceAdditionalSpecFns;

verus! {

broadcast use vstd::std_specs::bits::axiom_u32_trailing_zeros;

/// Compute the escape mask of a window: bit `j` is set exactly when
/// the window's byte `j` needs escaping.
fn build_mask(bytes: &[u8], start: usize, end: usize) -> (m: u32)
    requires
        start <= end <= bytes@.len(),
        end - start <= 32,
    ensures
        forall|j: u32|
            j < 32 ==> (((#[trigger] (m >> j)) & 1u32 == 1u32) <==> (j < end - start
                && must_escape(bytes@[start + j]))),
{
    let w = end - start;
    let mut m: u32 = 0;
    let mut i: usize = 0;
    proof {
        assert(forall|j: u32| j < 32 ==> (0u32 >> j) & 1u32 == 0u32) by (bit_vector);
    }
    while i < w
        invariant
            i <= w,
            w == end - start,
            start + w <= bytes@.len(),
            w <= 32,
            forall|j: u32|
                j < 32 ==> (((#[trigger] (m >> j)) & 1u32 == 1u32) <==> (j < i && must_escape(
                    bytes@[start + j],
                ))),
        decreases w - i,
    {
        if byte_must_escape(bytes[start + i]) {
            let ghost m0 = m;
            let iu = i as u32;
            m = m | (1u32 << iu);
            proof {
                assert(forall|j: u32|
                    j < 32 ==> ((((m0 | (1u32 << iu)) >> j) & 1u32 == 1u32) <==> (((m0 >> j)
                        & 1u32 == 1u32) || j == iu))) by (bit_vector)
                    requires
                        iu < 32,
                ;
                assert forall|j: u32|
                    j < 32 implies (((m >> j) & 1u32 == 1u32) <==> (j < i + 1 && must_escape(
                    bytes@[start + j],
                ))) by {
                    assert(((m0 >> j) & 1u32 == 1u32) <==> (j < i && must_escape(
                        bytes@[start + j],
                    )));
                }
            }
        } else {
            proof {
                let iu = i as u32;
                assert(((m >> iu) & 1u32 == 1u32) <==> (iu < i && must_escape(
                    bytes@[start + iu],
                )));
            }
        }
        i = i + 1;
    }
    m
}

/// Walk the set bits of a window's escape mask in ascending order,
/// copying the pending literal run before each escape and emitting the
/// escape, with a monotonically advancing read cursor. Returns the new
/// read cursor; every remaining byte of the window is literal.
fn walk_mask<B: BufWrite>(
    buf: &mut B,
    bytes: &[u8],
    read: usize,
    w: usize,
    wend: usize,
    mask: u32,
) -> (rr: Result<usize, Error>)
    requires
        old(buf).inv(),
        read <= w <= wend <= bytes@.len(),
        wend - w <= 32,
        forall|k: int| read <= k < w ==> !must_escape(#[trigger] bytes@[k]),
        forall|j: u32|
            j < 32 ==> (((#[trigger] (mask >> j)) & 1u32 == 1u32) <==> (j < wend - w
                && must_escape(bytes@[w + j]))),
    ensures
        final(buf).inv(),
        final(buf).fallible() == old(buf).fallible(),
        final(buf).small_limit() == old(buf).small_limit(),
        rr matches Ok(read2) ==> read <= read2 <= wend && final(buf).stream() == old(
            buf,
        ).stream() + escaped(bytes@.subrange(read as int, read2 as int)) && (forall|k: int|
            read2 <= k < wend ==> !must_escape(#[trigger] bytes@[k])),
        !old(buf).fallible() ==> rr is Ok,
        rr matches Err(e) ==> e is Io,
{
    let mut mask = mask;
    let mut read2 = read;
    proof {
        assert(bytes@.subrange(read as int, read as int) =~= Seq::<u8>::empty());
        assert(escaped(Seq::<u8>::empty()) == Seq::<u8>::empty());
        assert(old(buf).stream() + Seq::<u8>::empty() =~= old(buf).stream());
    }
    while mask != 0
        invariant
            buf.inv(),
            buf.fallible() == old(buf).fallible(),
            buf.small_limit() == old(buf).small_limit(),
            read <= read2 <= wend,
            w <= wend <= bytes@.len(),
            wend - w <= 32,
            buf.stream() == old(buf).stream() + escaped(
                bytes@.subrange(read as int, read2 as int),
            ),
            forall|k: int| read2 <= k < w ==> !must_escape(#[trigger] bytes@[k]),
            forall|j: u32|
                j < 32 ==> (((#[trigger] (mask >> j)) & 1u32 == 1u32) <==> (w + j >= read2 && j
                    < wend - w && must_escape(bytes@[w + j]))),
        decreases mask,
    {
        let tz: u32 = mask.trailing_zeros();
        proof {
            assert(u32_trailing_zeros(mask) < 32);
            assert((mask >> tz) & 1u32 == 1u32);
        }
        let pos = w + (tz as usize);
        assert(pos < wend && must_escape(bytes@[pos as int]) && pos >= read2);
        proof {
            // every byte between the cursor and this escape is literal
            assert forall|k: int| read2 <= k < pos implies !must_escape(#[trigger] bytes@[k]) by {
                if k >= w {
                    let j = (k - w) as u32;
                    assert((mask >> j) & 1u32 == 0u32);
                }
            }
        }
        if pos > read2 {
            let part = &bytes[read2..pos];
            proof {
                lemma_escaped_concat(
                    bytes@.subrange(read as int, read2 as int),
                    bytes@.subrange(read2 as int, pos as int),
                );
                lemma_escaped_clean(bytes@.subrange(read2 as int, pos as int));
                assert(bytes@.subrange(read as int, pos as int) =~= bytes@.subrange(
                    read as int,
                    read2 as int,
                ) + bytes@.subrange(read2 as int, pos as int));
            }
            match buf.write_all(part) {
                Ok(()) => {},
                Err(e) => {
                    return Err(e);
                },
            }
        }
        proof {
            lemma_escaped_push(bytes@.subrange(read as int, pos as int), bytes@[pos as int]);
            assert(bytes@.subrange(read as int, pos as int + 1) =~= bytes@.subrange(
                read as int,
                pos as int,
            ).push(bytes@[pos as int]));
            if pos == read2 {
                assert(bytes@.subrange(read as int, pos as int) =~= bytes@.subrange(
                    read as int,
                    read2 as int,
                ));
            }
        }
        match write_escape(buf, bytes[pos]) {
            Ok(()) => {},
            Err(e) => {
                return Err(e);
            },
        }
        let ghost m0 = mask;
        let ghost read2_prev = read2 as int;
        mask = mask ^ (1u32 << tz);
        read2 = pos + 1;
        proof {
            assert(forall|j: u32|
                j < 32 ==> ((((m0 ^ (1u32 << tz)) >> j) & 1u32 == 1u32) <==> (((m0 >> j) & 1u32
                    == 1u32) && j != tz))) by (bit_vector)
                requires
                    tz < 32,
                    (m0 >> tz) & 1u32 == 1u32,
            ;
            assert((m0 ^ (1u32 << tz)) < m0) by (bit_vector)
                requires
                    tz < 32,
                    (m0 >> tz) & 1u32 == 1u32,
            ;
            assert forall|j: u32|
                j < 32 implies (((mask >> j) & 1u32 == 1u32) <==> (w + j >= read2 && j < wend - w
                && must_escape(bytes@[w + j]))) by {
                assert(((m0 >> j) & 1u32 == 1u32) <==> (w + j >= read2_prev && j < wend - w
                    && must_escape(bytes@[w + j])));
                if j < tz {
                    assert((m0 >> j) & 1u32 == 0u32);
                }
            }
        }
    }
    proof {
        assert forall|k: int| read2 <= k < wend implies !must_escape(#[trigger] bytes@[k]) by {
            if k >= w {
                let j = (k - w) as u32;
                assert((mask >> j) & 1u32 == 0u32) by {
                    assert(forall|jj: u32| jj < 32 ==> (0u32 >> jj) & 1u32 == 0u32)
                        by (bit_vector);
                }
            }
        }
    }
    Ok(read2)
}

/// The middle tier: one 32-bit mask, built from the first and last 16
/// bytes of the text, covers the whole string; a zero mask means one
/// bulk copy, and otherwise the set bits are walked in order. Appends
/// exactly the escaped form: byte-identical to the scalar fallback.
pub fn escape_middle<B: BufWrite>(buf: &mut B, bytes: &[u8]) -> (r: Result<(), Error>)
    requires
        old(buf).inv(),
        16 <= bytes@.len() <= 32,
    ensures
        final(buf).inv(),
        final(buf).fallible() == old(buf).fallible(),
        final(buf).small_limit() == old(buf).small_limit(),
        r is Ok ==> final(buf).stream() == old(buf).stream() + escaped(bytes@),
        !old(buf).fallible() ==> r is Ok,
        r matches Err(e) ==> e is Io,
{
    let n = bytes.len();
    let mask = build_mask(bytes, 0, n);
    if mask == 0 {
        proof {
            assert(forall|j: u32| j < 32 ==> (0u32 >> j) & 1u32 == 0u32) by (bit_vector);
            assert forall|k: int| 0 <= k < n implies !must_escape(#[trigger] bytes@[k]) by {
                let j = k as u32;
                assert((mask >> j) & 1u32 == 0u32);
            }
            lemma_escaped_clean(bytes@);
        }
        return buf.write_all(bytes);
    }
    let read2 = match walk_mask(buf, bytes, 0, 0, n, mask) {
        Ok(r2) => r2,
        Err(e) => {
            return Err(e);
        },
    };
    if read2 < n {
        let part = &bytes[read2..n];
        proof {
            lemma_escaped_concat(bytes@.subrange(0, read2 as int), part@);
            lemma_escaped_clean(part@);
            assert(bytes@ =~= bytes@.subrange(0, read2 as int) + part@);
        }
        buf.write_all(part)
    } else {
        proof {
            assert(bytes@.subrange(0, read2 as int) =~= bytes@);
        }
        Ok(())
    }
}

/// The long tier: slide a 32-byte window from the start; for the final
/// partial window, mask the last 32 bytes and shift the mask right by
/// the overlap so already-processed bytes are excluded. Appends exactly
/// the escaped form: byte-identical to the scalar fallback.
pub fn escape_long<B: BufWrite>(buf: &mut B, bytes: &[u8]) -> (r: Result<(), Error>)
    requires
        old(buf).inv(),
        bytes@.len() > 32,
    ensures
        final(buf).inv(),
        final(buf).fallible() == old(buf).fallible(),
        final(buf).small_limit() == old(buf).small_limit(),
        r is Ok ==> final(buf).stream() == old(buf).stream() + escaped(bytes@),
        !old(buf).fallible() ==> r is Ok,
        r matches Err(e) ==> e is Io,
{
    let n = bytes.len();
    let mut w: usize = 0;
    let mut read: usize = 0;
    proof {
        assert(bytes@.subrange(0, 0) =~= Seq::<u8>::empty());
        assert(escaped(Seq::<u8>::empty()) == Seq::<u8>::empty());
        assert(old(buf).stream() + Seq::<u8>::empty() =~= old(buf).stream());
    }
    while n - w >= 32
        invariant
            buf.inv(),
            buf.fallible() == old(buf).fallible(),
            buf.small_limit() == old(buf).small_limit(),
            read <= w <= n,
            n == bytes@.len(),
            buf.stream() == old(buf).stream() + escaped(bytes@.subrange(0, read as int)),
            forall|k: int| read <= k < w ==> !must_escape(#[trigger] bytes@[k]),
        decreases n - w,
    {
        let mask = build_mask(bytes, w, w + 32);
        let read2 = match walk_mask(buf, bytes, read, w, w + 32, mask) {
            Ok(r2) => r2,
            Err(e) => {
                return Err(e);
            },
        };
        proof {
            lemma_escaped_concat(
                bytes@.subrange(0, read as int),
                bytes@.subrange(read as int, read2 as int),
            );
            assert(bytes@.subrange(0, read2 as int) =~= bytes@.subrange(0, read as int)
                + bytes@.subrange(read as int, read2 as int));
        }
        read = read2;
        w = w + 32;
    }
    if w < n {
        let base = n - 32;
        let m0 = build_mask(bytes, base, n);
        let overlap: u32 = (w - base) as u32;
        let mask = m0 >> overlap;
        proof {
            assert(forall|j: u32, jj: u32|
                #![trigger (m0 >> overlap) >> j, m0 >> jj]
                j < 32 && jj == j + overlap && jj < 32 ==> ((((m0 >> overlap) >> j) & 1u32
                    == 1u32) <==> ((m0 >> jj) & 1u32 == 1u32))) by (bit_vector);
            assert(forall|j: u32|
                j < 32 && j + overlap >= 32 ==> ((#[trigger] ((m0 >> overlap) >> j)) & 1u32
                    == 0u32)) by (bit_vector)
                requires
                    overlap < 32,
            ;
            assert forall|j: u32|
                j < 32 implies (((mask >> j) & 1u32 == 1u32) <==> (j < n - w && must_escape(
                bytes@[w + j],
            ))) by {
                if j + overlap < 32 {
                    let jj = (j + overlap) as u32;
                    assert((m0 >> jj) & 1u32 == 1u32 <==> (jj < 32 && must_escape(
                        bytes@[base + jj])));
                }
            }
        }
        let read2 = match walk_mask(buf, bytes, read, w, n, mask) {
            Ok(r2) => r2,
            Err(e) => {
                return Err(e);
            },
        };
        proof {
            lemma_escaped_concat(
                bytes@.subrange(0, read as int),
                bytes@.subrange(read as int, read2 as int),
            );
            assert(bytes@.subrange(0, read2 as int) =~= bytes@.subrange(0, read as int)
                + bytes@.subrange(read as int, read2 as int));
        }
        read = read2;
        w = n;
    }
    if read < n {
        let part = &bytes[read..n];
        proof {
            lemma_escaped_concat(bytes@.subrange(0, read as int), part@);
            lemma_escaped_clean(part@);
            assert(bytes@ =~= bytes@.subrange(0, read as int) + part@);
        }
        buf.write_all(part)
    } else {
        proof {
            assert(bytes@.subrange(0, read as int) =~= bytes@);
        }
        Ok(())
    }
}

/// The tiered escape path over a byte string: the scalar scan up to 16
/// bytes, one wide mask up to 32, the sliding window beyond. Produces
/// byte-identical output to the scalar fallback: both append exactly
/// the escaped form of the input.
pub fn escape_bytes<B: BufWrite>(buf: &mut B, bytes: &[u8]) -> (r: Result<(), Error>)
    requires
        old(buf).inv(),
    ensures
        final(buf).inv(),
        final(buf).fallible() == old(buf).fallible(),
        final(buf).small_limit() == old(buf).small_limit(),
        r is Ok ==> final(buf).stream() == old(buf).stream() + escaped(bytes@),
        !old(buf).fallible() ==> r is Ok,
        r matches Err(e) ==> e is Io,
{
    if bytes.len() <= 16 {
        escape_bytes_scalar(buf, bytes)
    } else if bytes.len() <= 32 {
        escape_middle(buf, bytes)
    } else {
        escape_long(buf, bytes)
    }
}

/// The tiered escape path over a text: write its escaped form, without
/// surrounding quotes, into the buffer.
pub fn escape<B: BufWrite>(buf: &mut B, feed: &str) -> (r: Result<(), Error>)
    requires
        old(buf).inv(),
    ensures
        final(buf).inv(),
        final(buf).fallible() == old(buf).fallible(),
        final(buf).small_limit() == old(buf).small_limit(),
        r is Ok ==> final(buf).stream() == old(buf).stream() + escaped(feed.spec_bytes()),
        !old(buf).fallible() ==> r is Ok,
        r matches Err(e) ==> e is Io,
{
    escape_bytes(buf, feed.as_bytes())
}

/// The out-of-line escape path for names that rarely need escaping.
pub fn escape_cold<B: BufWrite>(buf: &mut B, feed: &str) -> (r: Result<(), Error>)
    requires
        old(buf).inv(),
    ensures
        final(buf).inv(),
        final(buf).fallible() == old(buf).fallible(),
        final(buf).small_limit() == old(buf).small_limit(),
        r is Ok ==> final(buf).stream() == old(buf).stream() + escaped(feed.spec_bytes()),
        !old(buf).fallible() ==> r is Ok,
        r matches Err(e) ==> e is Io,
{
    escape(buf, feed)
}

} // verus!
