//! The JSON string-escaping engine: the escape table as a mathematical
//! model, and the scalar (byte-at-a-time) escape path.

use crate::bufwrite::BufWrite;
use crate::error::Error;
use vstd::prelude::*;
use vstd::string::StringSliceAdditionalSpecFns;
use vstd::utf8::encode_scalar;

verus! {

/// True of bytes that cannot stand bare inside a JSON string literal:
/// the C0 controls, the double quote, and the backslash.
pub open spec fn must_escape(b: u8) -> bool {
    b < 0x20 || b == 0x22 || b == 0x5c
}

/// The lowercase hexadecimal digit for a value below sixteen.
pub open spec fn hex_digit(d: int) -> u8 {
    if d < 10 {
        (48 + d) as u8
    } else {
        (87 + d) as u8
    }
}

/// The six-byte `\u00XX` escape of a byte.
pub open spec fn u_escape_bytes(b: u8) -> Seq<u8> {
    seq![92u8, 117u8, 48u8, 48u8, hex_digit(b as int / 16), hex_digit(b as int % 16)]
}

/// The escape table: what a byte contributes to the escaped form of a
/// JSON string. A byte maps to itself, to a two-byte short escape, or
/// to a six-byte `\u00XX` escape.
pub open spec fn esc_of(b: u8) -> Seq<u8> {
    if b == 0x22 {
        seq![92u8, 34u8]
    } else if b == 0x5c {
        seq![92u8, 92u8]
    } else if b == 0x08 {
        seq![92u8, 98u8]
    } else if b == 0x09 {
        seq![92u8, 116u8]
    } else if b == 0x0a {
        seq![92u8, 110u8]
    } else if b == 0x0c {
        seq![92u8, 102u8]
    } else if b == 0x0d {
        seq![92u8, 114u8]
    } else if b < 0x20 {
        u_escape_bytes(b)
    } else {
        seq![b]
    }
}

/// The escaped form of a byte string, without surrounding quotes.
pub open spec fn escaped(s: Seq<u8>) -> Seq<u8>
    decreases s.len(),
{
    if s.len() == 0 {
        seq![]
    } else {
        esc_of(s[0]) + escaped(s.drop_first())
    }
}

/// Escaping distributes over concatenation.
pub proof fn lemma_escaped_concat(a: Seq<u8>, b: Seq<u8>)
    ensures
        escaped(a + b) == escaped(a) + escaped(b),
    decreases a.len(),
{
    if a.len() == 0 {
        assert(a + b =~= b);
        assert(escaped(a) + escaped(b) =~= escaped(b));
    } else {
        assert((a + b).drop_first() =~= a.drop_first() + b);
        lemma_escaped_concat(a.drop_first(), b);
        assert(escaped(a + b) =~= escaped(a) + escaped(b));
    }
}

/// Escaping a one-byte string gives that byte's table image.
pub proof fn lemma_escaped_single(b: u8)
    ensures
        escaped(seq![b]) == esc_of(b),
{
    let s = seq![b];
    assert(s.drop_first() =~= Seq::<u8>::empty());
    assert(escaped(Seq::<u8>::empty()) == Seq::<u8>::empty());
    assert(escaped(s) == esc_of(b) + escaped(s.drop_first()));
    assert(esc_of(b) + Seq::<u8>::empty() =~= esc_of(b));
}

/// Escaping a single appended byte appends that byte's escape.
pub proof fn lemma_escaped_push(s: Seq<u8>, b: u8)
    ensures
        escaped(s.push(b)) == escaped(s) + esc_of(b),
{
    assert(s.push(b) =~= s + seq![b]);
    lemma_escaped_concat(s, seq![b]);
    lemma_escaped_single(b);
}

/// A byte string without escapable bytes is its own escaped form.
pub proof fn lemma_escaped_clean(s: Seq<u8>)
    requires
        forall|i: int| 0 <= i < s.len() ==> !must_escape(#[trigger] s[i]),
    ensures
        escaped(s) == s,
    decreases s.len(),
{
    if s.len() > 0 {
        lemma_escaped_clean(s.drop_first());
        assert(esc_of(s[0]) =~= seq![s[0]]);
        assert(escaped(s) =~= s);
    }
}

/// Exec test of the escape table.
pub fn byte_must_escape(b: u8) -> (r: bool)
    ensures
        r == must_escape(b),
{
    b < 0x20 || b == 0x22 || b == 0x5c
}

/// Whether a statically known text contains any byte that the escape
/// table maps away from itself, so the escape scan can be skipped.
pub fn need_escape(feed: &str) -> (r: bool)
    ensures
        r == exists|i: int|
            0 <= i < feed.spec_bytes().len() && must_escape(#[trigger] feed.spec_bytes()[i]),
{
    let bytes = feed.as_bytes();
    let n = bytes.len();
    let mut i: usize = 0;
    while i < n
        invariant
            i <= n,
            n == bytes@.len(),
            bytes@ == feed.spec_bytes(),
            forall|j: int| 0 <= j < i ==> !must_escape(#[trigger] feed.spec_bytes()[j]),
        decreases n - i,
    {
        if byte_must_escape(bytes[i]) {
            return true;
        }
        i = i + 1;
    }
    false
}

/// The exec lowercase hexadecimal digit.
fn hex_digit_of(d: u8) -> (r: u8)
    requires
        d < 16,
    ensures
        r == hex_digit(d as int),
{
    if d < 10 {
        48 + d
    } else {
        87 + d
    }
}

/// Push the six-byte `\u00XX` escape of a byte.
fn push_u_escape(out: &mut Vec<u8>, byte: u8)
    ensures
        final(out)@ == old(out)@ + u_escape_bytes(byte),
{
    out.push(92);
    out.push(117);
    out.push(48);
    out.push(48);
    out.push(hex_digit_of(byte / 16));
    out.push(hex_digit_of(byte % 16));
    assert(out@ =~= old(out)@ + u_escape_bytes(byte));
}

/// Push the escape-table image of an escapable byte.
fn push_escape(out: &mut Vec<u8>, b: u8)
    requires
        must_escape(b),
    ensures
        final(out)@ == old(out)@ + esc_of(b),
{
    if b == 0x22 {
        out.push(92);
        out.push(34);
    } else if b == 0x5c {
        out.push(92);
        out.push(92);
    } else if b == 0x08 {
        out.push(92);
        out.push(98);
    } else if b == 0x09 {
        out.push(92);
        out.push(116);
    } else if b == 0x0a {
        out.push(92);
        out.push(110);
    } else if b == 0x0c {
        out.push(92);
        out.push(102);
    } else if b == 0x0d {
        out.push(92);
        out.push(114);
    } else {
        push_u_escape(out, b);
    }
    assert(out@ =~= old(out)@ + esc_of(b));
}

/// Relies on nothing outside: writes the `\u00XX` encoding of a byte.
pub fn u_encode<B: BufWrite>(buf: &mut B, byte: u8) -> (r: Result<(), Error>)
    requires
        old(buf).inv(),
    ensures
        final(buf).inv(),
        final(buf).fallible() == old(buf).fallible(),
        final(buf).small_limit() == old(buf).small_limit(),
        r is Ok ==> final(buf).stream() == old(buf).stream() + u_escape_bytes(byte),
        !old(buf).fallible() ==> r is Ok,
        r matches Err(e) ==> e is Io,
{
    let mut tmp: Vec<u8> = Vec::new();
    push_u_escape(&mut tmp, byte);
    assert(tmp@ =~= u_escape_bytes(byte));
    buf.write_all(tmp.as_slice())
}

/// Write the escape-table image of an escapable byte.
pub(crate) fn write_escape<B: BufWrite>(buf: &mut B, b: u8) -> (r: Result<(), Error>)
    requires
        old(buf).inv(),
        must_escape(b),
    ensures
        final(buf).inv(),
        final(buf).fallible() == old(buf).fallible(),
        final(buf).small_limit() == old(buf).small_limit(),
        r is Ok ==> final(buf).stream() == old(buf).stream() + esc_of(b),
        !old(buf).fallible() ==> r is Ok,
        r matches Err(e) ==> e is Io,
{
    let mut tmp: Vec<u8> = Vec::new();
    push_escape(&mut tmp, b);
    buf.write_all(tmp.as_slice())
}

/// The scalar escape path over a byte range: a left-to-right scan that
/// flushes pending literal runs around each emitted escape.
pub fn escape_bytes_scalar<B: BufWrite>(buf: &mut B, bytes: &[u8]) -> (r: Result<(), Error>)
    requires
        old(buf).inv(),
    ensures
        final(buf).inv(),
        final(buf).fallible() == old(buf).fallible(),
        final(buf).small_limit() == old(buf).small_limit(),
        r is Ok ==> final(buf).stream() == old(buf).stream() + escaped(bytes@),
        !old(buf).fallible() ==> r is Ok,
        r matches Err(e) ==> e is Io,
{
    let n = bytes.len();
    let mut start: usize = 0;
    let mut i: usize = 0;
    while i < n
        invariant
            start <= i <= n,
            n == bytes@.len(),
            buf.inv(),
            buf.fallible() == old(buf).fallible(),
            buf.small_limit() == old(buf).small_limit(),
            buf.stream() == old(buf).stream() + escaped(bytes@.take(start as int)),
            forall|j: int| start <= j < i ==> !must_escape(#[trigger] bytes@[j]),
        decreases n - i,
    {
        let b = bytes[i];
        if byte_must_escape(b) {
            if i > start {
                let part = &bytes[start..i];
                proof {
                    assert(bytes@.take(i as int) =~= bytes@.take(start as int) + part@);
                    lemma_escaped_concat(bytes@.take(start as int), part@);
                    lemma_escaped_clean(part@);
                }
                match buf.write_all(part) {
                    Ok(()) => {},
                    Err(e) => {
                        return Err(e);
                    },
                }
            }
            proof {
                assert(bytes@.take(i as int) =~= bytes@.take(start as int) + bytes@.subrange(
                    start as int,
                    i as int,
                ));
                lemma_escaped_concat(bytes@.take(start as int), bytes@.subrange(
                    start as int,
                    i as int,
                ));
                lemma_escaped_clean(bytes@.subrange(start as int, i as int));
                assert(bytes@.take(i as int + 1) =~= bytes@.take(i as int).push(bytes@[i as int]));
                lemma_escaped_push(bytes@.take(i as int), bytes@[i as int]);
            }
            match write_escape(buf, b) {
                Ok(()) => {},
                Err(e) => {
                    return Err(e);
                },
            }
            i = i + 1;
            start = i;
        } else {
            i = i + 1;
        }
    }
    if start < n {
        let part = &bytes[start..n];
        proof {
            assert(bytes@ =~= bytes@.take(start as int) + part@);
            lemma_escaped_concat(bytes@.take(start as int), part@);
            lemma_escaped_clean(part@);
        }
        match buf.write_all(part) {
            Ok(()) => {},
            Err(e) => {
                return Err(e);
            },
        }
    } else {
        assert(bytes@.take(start as int) =~= bytes@);
    }
    Ok(())
}

/// The scalar fallback path over a whole text.
pub fn escape_scalar<B: BufWrite>(buf: &mut B, feed: &str) -> (r: Result<(), Error>)
    requires
        old(buf).inv(),
    ensures
        final(buf).inv(),
        final(buf).fallible() == old(buf).fallible(),
        final(buf).small_limit() == old(buf).small_limit(),
        r is Ok ==> final(buf).stream() == old(buf).stream() + escaped(feed.spec_bytes()),
        !old(buf).fallible() ==> r is Ok,
        r matches Err(e) ==> e is Io,
{
    escape_bytes_scalar(buf, feed.as_bytes())
}

/// Write the escaped UTF-8 encoding of one character. Characters below
/// `0x80` go through the escape table; all others encode to bytes at or
/// above `0x80`, which always stand bare.
pub fn escape_char<B: BufWrite>(buf: &mut B, c: char) -> (r: Result<(), Error>)
    requires
        old(buf).inv(),
    ensures
        final(buf).inv(),
        final(buf).fallible() == old(buf).fallible(),
        final(buf).small_limit() == old(buf).small_limit(),
        r is Ok ==> final(buf).stream() == old(buf).stream() + escaped(
            encode_scalar(c as u32),
        ) && final(buf).buffered() >= escaped(encode_scalar(c as u32)).len(),
        !old(buf).fallible() ==> r is Ok,
        r matches Err(e) ==> e is Io,
{
    broadcast use vstd::utf8::char_is_scalar;

    let code = c as u32;
    let mut tmp: Vec<u8> = Vec::new();
    if code < 0x80 {
        let b = (code & 0x7F) as u8;
        if byte_must_escape(b) {
            push_escape(&mut tmp, b);
        } else {
            tmp.push(b);
        }
        proof {
            assert(encode_scalar(code) =~= seq![b]);
            lemma_escaped_single(b);
            if !must_escape(b) {
                assert(esc_of(b) =~= seq![b]);
            }
            assert(tmp@ =~= escaped(encode_scalar(code)));
        }
    } else if code < 0x800 {
        let b1 = 0xC0 | ((code >> 6) & 0x1F) as u8;
        let b2 = 0x80 | (code & 0x3F) as u8;
        tmp.push(b1);
        tmp.push(b2);
        proof {
            assert(b1 >= 0x80 && b2 >= 0x80) by (bit_vector)
                requires
                    b1 == 0xC0 | ((code >> 6) & 0x1F) as u8,
                    b2 == 0x80 | (code & 0x3F) as u8,
            ;
            assert(encode_scalar(code) =~= seq![b1, b2]);
            lemma_escaped_clean(seq![b1, b2]);
            assert(tmp@ =~= escaped(encode_scalar(code)));
        }
    } else if code < 0x10000 {
        let b1 = 0xE0 | ((code >> 12) & 0x0F) as u8;
        let b2 = 0x80 | ((code >> 6) & 0x3F) as u8;
        let b3 = 0x80 | (code & 0x3F) as u8;
        tmp.push(b1);
        tmp.push(b2);
        tmp.push(b3);
        proof {
            assert(b1 >= 0x80 && b2 >= 0x80 && b3 >= 0x80) by (bit_vector)
                requires
                    b1 == 0xE0 | ((code >> 12) & 0x0F) as u8,
                    b2 == 0x80 | ((code >> 6) & 0x3F) as u8,
                    b3 == 0x80 | (code & 0x3F) as u8,
            ;
            assert(encode_scalar(code) =~= seq![b1, b2, b3]);
            lemma_escaped_clean(seq![b1, b2, b3]);
            assert(tmp@ =~= escaped(encode_scalar(code)));
        }
    } else {
        let b1 = 0xF0 | ((code >> 18) & 0x07) as u8;
        let b2 = 0x80 | ((code >> 12) & 0x3F) as u8;
        let b3 = 0x80 | ((code >> 6) & 0x3F) as u8;
        let b4 = 0x80 | (code & 0x3F) as u8;
        tmp.push(b1);
        tmp.push(b2);
        tmp.push(b3);
        tmp.push(b4);
        proof {
            assert(b1 >= 0x80 && b2 >= 0x80 && b3 >= 0x80 && b4 >= 0x80) by (bit_vector)
                requires
                    b1 == 0xF0 | ((code >> 18) & 0x07) as u8,
                    b2 == 0x80 | ((code >> 12) & 0x3F) as u8,
                    b3 == 0x80 | ((code >> 6) & 0x3F) as u8,
                    b4 == 0x80 | (code & 0x3F) as u8,
            ;
            assert(encode_scalar(code) =~= seq![b1, b2, b3, b4]);
            lemma_escaped_clean(seq![b1, b2, b3, b4]);
            assert(tmp@ =~= escaped(encode_scalar(code)));
        }
    }
    proof {
        buf.inv_facts();
    }
    buf.write_small(tmp.as_slice())
}

} // verus!
