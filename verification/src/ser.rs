//! The compact encoding engine: turns a serializable value into JSON
//! bytes on any output buffer, using the append-separator-then-trim
//! optimization. Every element is written together with its context's
//! suffix; a container trims the one over-emitted suffix when it
//! closes, with a single guarded rollback.

use crate::bufwrite::{write2, BufWrite};
use crate::error::Error;
use crate::escape::{escape_char, lemma_escaped_clean, need_escape};
use crate::escape_wide::escape_bytes;
use crate::raw::{lemma_int_bytes_small, SerializeRaw};
use crate::suffix::{suffix_bytes, RawSuffix, SuffixKind};
use crate::value::{
    byte_items, key_inner, lemma_ser_entries_err, lemma_ser_fields_err, lemma_ser_items_err,
    null_bytes, ser_entries, ser_fields, ser_items, ser_spec, Value,
};
use vstd::prelude::*;
use vstd::string::StringSliceAdditionalSpecFns;

verus! {

/// One structural byte, emitted verbatim.
pub struct RawByte(pub u8);

impl SerializeRaw for RawByte {
    open spec fn raw_bytes(&self) -> Seq<u8> {
        seq![self.0]
    }

    fn size_hint(&self) -> (r: usize) {
        1
    }

    fn write_to(&self, out: &mut Vec<u8>) {
        out.push(self.0);
        assert(out@ =~= old(out)@ + seq![self.0]);
    }
}

/// Two structural bytes, emitted verbatim.
pub struct RawPair(pub u8, pub u8);

impl SerializeRaw for RawPair {
    open spec fn raw_bytes(&self) -> Seq<u8> {
        seq![self.0, self.1]
    }

    fn size_hint(&self) -> (r: usize) {
        2
    }

    fn write_to(&self, out: &mut Vec<u8>) {
        out.push(self.0);
        out.push(self.1);
        assert(out@ =~= old(out)@ + seq![self.0, self.1]);
    }
}

/// The JSON literal `null`.
pub struct RawNull;

impl SerializeRaw for RawNull {
    open spec fn raw_bytes(&self) -> Seq<u8> {
        null_bytes()
    }

    fn size_hint(&self) -> (r: usize) {
        4
    }

    fn write_to(&self, out: &mut Vec<u8>) {
        out.push(110);
        out.push(117);
        out.push(108);
        out.push(108);
        assert(out@ =~= old(out)@ + null_bytes());
    }
}

/// Write a short literal group, keeping it in the rollback window.
fn write_small_lit<B: BufWrite>(buf: &mut B, data: &Vec<u8>) -> (r: Result<(), Error>)
    requires
        old(buf).inv(),
        data@.len() <= 48,
    ensures
        final(buf).inv(),
        final(buf).fallible() == old(buf).fallible(),
        final(buf).small_limit() == old(buf).small_limit(),
        r is Ok ==> final(buf).stream() == old(buf).stream() + data@ && final(buf).buffered()
            >= data@.len(),
        !old(buf).fallible() ==> r is Ok,
        r matches Err(e) ==> e is Io,
{
    proof {
        buf.inv_facts();
    }
    buf.write_small(data.as_slice())
}

/// Write one raw value and a two-byte tail in one batched reservation.
fn write_raw_tail<B: BufWrite, T: SerializeRaw>(
    buf: &mut B,
    v: &T,
    a: u8,
    b: u8,
) -> (r: Result<(), Error>)
    requires
        old(buf).inv(),
        v.raw_bytes().len() + 2 <= 48,
    ensures
        final(buf).inv(),
        final(buf).fallible() == old(buf).fallible(),
        final(buf).small_limit() == old(buf).small_limit(),
        r is Ok ==> final(buf).stream() == old(buf).stream() + v.raw_bytes() + seq![a, b]
            && final(buf).buffered() >= 2,
        !old(buf).fallible() ==> r is Ok,
        r matches Err(e) ==> e is Io,
{
    proof {
        buf.inv_facts();
    }
    let r = write2(buf, v, &RawPair(a, b));
    proof {
        if r is Ok {
            assert(buf.stream() =~= old(buf).stream() + v.raw_bytes() + seq![a, b]);
        }
    }
    r
}

/// Write one raw value followed by the context's suffix in one batched
/// reservation: separator handling costs no extra write on this path.
fn write_raw_sfx<B: BufWrite, T: SerializeRaw>(buf: &mut B, v: &T, sfx: SuffixKind) -> (r: Result<
    (),
    Error,
>)
    requires
        old(buf).inv(),
        v.raw_bytes().len() + 2 <= 48,
    ensures
        final(buf).inv(),
        final(buf).fallible() == old(buf).fallible(),
        final(buf).small_limit() == old(buf).small_limit(),
        r is Ok ==> final(buf).stream() == old(buf).stream() + v.raw_bytes() + suffix_bytes(sfx)
            && final(buf).buffered() >= suffix_bytes(sfx).len(),
        !old(buf).fallible() ==> r is Ok,
        r matches Err(e) ==> e is Io,
{
    proof {
        buf.inv_facts();
    }
    let r = write2(buf, v, &RawSuffix(sfx));
    proof {
        if r is Ok {
            assert(buf.stream() =~= old(buf).stream() + v.raw_bytes() + suffix_bytes(sfx));
        }
    }
    r
}

/// Write one closing byte followed by the outer suffix, in one batch.
fn write_close1<B: BufWrite>(buf: &mut B, close: u8, sfx: SuffixKind) -> (r: Result<(), Error>)
    requires
        old(buf).inv(),
    ensures
        final(buf).inv(),
        final(buf).fallible() == old(buf).fallible(),
        final(buf).small_limit() == old(buf).small_limit(),
        r is Ok ==> final(buf).stream() == old(buf).stream() + seq![close] + suffix_bytes(sfx)
            && final(buf).buffered() >= suffix_bytes(sfx).len(),
        !old(buf).fallible() ==> r is Ok,
        r matches Err(e) ==> e is Io,
{
    write_raw_sfx(buf, &RawByte(close), sfx)
}

/// Write two closing bytes followed by the outer suffix, in one batch.
fn write_close2<B: BufWrite>(buf: &mut B, c1: u8, c2: u8, sfx: SuffixKind) -> (r: Result<
    (),
    Error,
>)
    requires
        old(buf).inv(),
    ensures
        final(buf).inv(),
        final(buf).fallible() == old(buf).fallible(),
        final(buf).small_limit() == old(buf).small_limit(),
        r is Ok ==> final(buf).stream() == old(buf).stream() + seq![c1, c2] + suffix_bytes(sfx)
            && final(buf).buffered() >= suffix_bytes(sfx).len(),
        !old(buf).fallible() ==> r is Ok,
        r matches Err(e) ==> e is Io,
{
    write_raw_sfx(buf, &RawPair(c1, c2), sfx)
}

/// Write the escaped form of a statically known name, skipping the
/// escape scan when a fast pre-scan proves no byte needs escaping.
fn write_name_escaped<B: BufWrite>(buf: &mut B, name: &str) -> (r: Result<(), Error>)
    requires
        old(buf).inv(),
    ensures
        final(buf).inv(),
        final(buf).fallible() == old(buf).fallible(),
        final(buf).small_limit() == old(buf).small_limit(),
        r is Ok ==> final(buf).stream() == old(buf).stream() + crate::escape::escaped(
            name.spec_bytes(),
        ),
        !old(buf).fallible() ==> r is Ok,
        r matches Err(e) ==> e is Io,
{
    if !need_escape(name) {
        proof {
            lemma_escaped_clean(name.spec_bytes());
        }
        buf.write_all(name.as_bytes())
    } else {
        escape_bytes(buf, name.as_bytes())
    }
}

/// Write a map key followed by its closing quote and the colon. The
/// key's opening quote was pre-emitted when the container opened. A
/// non-scalar key is refused with `InvalidKey` before any byte is
/// written; an absent finite float key fails with `NonFiniteFloat`.
pub fn write_key<B: BufWrite>(buf: &mut B, k: &Value) -> (r: Result<(), Error>)
    requires
        old(buf).inv(),
    ensures
        final(buf).inv(),
        final(buf).fallible() == old(buf).fallible(),
        final(buf).small_limit() == old(buf).small_limit(),
        r is Ok ==> key_inner(*k) is Ok && final(buf).stream() == old(buf).stream()
            + key_inner(*k)->Ok_0 + seq![34u8, 58u8] && final(buf).buffered() >= 2,
        r matches Err(e) ==> key_inner(*k) == Err::<Seq<u8>, Error>(e) || (e is Io && old(buf).fallible()),
{
    match k {
        Value::I8(n) => {
            proof {
                lemma_int_bytes_small(*n as int);
            }
            write_raw_tail(buf, n, 34, 58)
        },
        Value::I16(n) => {
            proof {
                lemma_int_bytes_small(*n as int);
            }
            write_raw_tail(buf, n, 34, 58)
        },
        Value::I32(n) => {
            proof {
                lemma_int_bytes_small(*n as int);
            }
            write_raw_tail(buf, n, 34, 58)
        },
        Value::I64(n) => {
            proof {
                lemma_int_bytes_small(*n as int);
            }
            write_raw_tail(buf, n, 34, 58)
        },
        Value::I128(n) => {
            proof {
                lemma_int_bytes_small(*n as int);
            }
            write_raw_tail(buf, n, 34, 58)
        },
        Value::U8(n) => {
            proof {
                lemma_int_bytes_small(*n as int);
            }
            write_raw_tail(buf, n, 34, 58)
        },
        Value::U16(n) => {
            proof {
                lemma_int_bytes_small(*n as int);
            }
            write_raw_tail(buf, n, 34, 58)
        },
        Value::U32(n) => {
            proof {
                lemma_int_bytes_small(*n as int);
            }
            write_raw_tail(buf, n, 34, 58)
        },
        Value::U64(n) => {
            proof {
                lemma_int_bytes_small(*n as int);
            }
            write_raw_tail(buf, n, 34, 58)
        },
        Value::U128(n) => {
            proof {
                lemma_int_bytes_small(*n as int);
            }
            write_raw_tail(buf, n, 34, 58)
        },
        Value::F32(of) => match of {
            Some(f) => {
                proof {
                    use_type_invariant(f);
                    f.repr_facts();
                }
                write_raw_tail(buf, f, 34, 58)
            },
            None => Err(Error::NonFiniteFloat),
        },
        Value::F64(of) => match of {
            Some(f) => {
                proof {
                    use_type_invariant(f);
                    f.repr_facts();
                }
                write_raw_tail(buf, f, 34, 58)
            },
            None => Err(Error::NonFiniteFloat),
        },
        Value::Char(c) => {
            match escape_char(buf, *c) {
                Ok(()) => {},
                Err(e) => {
                    return Err(e);
                },
            }
            let mut tail: Vec<u8> = Vec::new();
            tail.push(34);
            tail.push(58);
            let r = write_small_lit(buf, &tail);
            proof {
                if r is Ok {
                    assert(buf.stream() =~= old(buf).stream() + key_inner(*k)->Ok_0 + seq![
                        34u8,
                        58u8,
                    ]);
                }
            }
            r
        },
        Value::Str(s) => {
            match escape_bytes(buf, s.as_str().as_bytes()) {
                Ok(()) => {},
                Err(e) => {
                    return Err(e);
                },
            }
            let mut tail: Vec<u8> = Vec::new();
            tail.push(34);
            tail.push(58);
            let r = write_small_lit(buf, &tail);
            proof {
                if r is Ok {
                    assert(buf.stream() =~= old(buf).stream() + key_inner(*k)->Ok_0 + seq![
                        34u8,
                        58u8,
                    ]);
                }
            }
            r
        },
        _ => Err(Error::InvalidKey),
    }
}

/// Write the elements of a sequence, each under a comma suffix, then
/// trim the one trailing comma: the joined body of a JSON array.
fn write_items<B: BufWrite>(buf: &mut B, es: &Vec<Value>) -> (r: Result<(), Error>)
    requires
        old(buf).inv(),
    ensures
        final(buf).inv(),
        final(buf).fallible() == old(buf).fallible(),
        final(buf).small_limit() == old(buf).small_limit(),
        r is Ok ==> ser_items(es@, es@.len() as int) is Ok && final(buf).stream() == old(buf).stream() + ser_items(es@, es@.len() as int)->Ok_0,
        r matches Err(e) ==> ser_items(es@, es@.len() as int) == Err::<Seq<u8>, Error>(e) || (
        e is Io && old(buf).fallible()),
    decreases es@, 0int,
{
    let n = es.len();
    let mut i: usize = 0;
    while i < n
        invariant
            i <= n,
            n == es@.len(),
            buf.inv(),
            buf.fallible() == old(buf).fallible(),
            buf.small_limit() == old(buf).small_limit(),
            ser_items(es@, i as int) is Ok,
            buf.stream() == old(buf).stream() + ser_items(es@, i as int)->Ok_0 + (if i > 0 {
                seq![44u8]
            } else {
                Seq::<u8>::empty()
            }),
            i > 0 ==> buf.buffered() >= 1,
        decreases n - i,
    {
        proof {
            assert(decreases_to!(es@ => es@[i as int]));
        }
        let r = write_value(buf, &es[i], SuffixKind::SeqElement);
        match r {
            Ok(()) => {},
            Err(e) => {
                proof {
                    if ser_spec(es@[i as int]) == Err::<Seq<u8>, Error>(e) {
                        lemma_ser_items_err(es@, i as int, es@.len() as int, e);
                    }
                }
                return Err(e);
            },
        }
        proof {
            let j = i as int;
            if j == 0 {
                assert(ser_items(es@, 1) == ser_spec(es@[0]));
                assert(buf.stream() =~= old(buf).stream() + ser_items(es@, 1)->Ok_0 + seq![44u8]);
            } else {
                assert(ser_items(es@, j + 1)->Ok_0 =~= ser_items(es@, j)->Ok_0 + seq![44u8]
                    + ser_spec(es@[j])->Ok_0);
                assert(buf.stream() =~= old(buf).stream() + ser_items(es@, j + 1)->Ok_0 + seq![
                    44u8,
                ]);
            }
        }
        i = i + 1;
    }
    if n > 0 {
        buf.shrink(1);
        proof {
            assert(buf.stream() =~= old(buf).stream() + ser_items(es@, n as int)->Ok_0);
        }
    }
    Ok(())
}

/// Write the entries of a map, whose first key's opening quote was
/// pre-emitted by the caller, then trim the over-emitted suffix: for a
/// non-empty map the trailing comma and quote, for an empty map the
/// pre-opened quote alone.
fn write_entries<B: BufWrite>(buf: &mut B, es: &Vec<(Value, Value)>) -> (r: Result<(), Error>)
    requires
        old(buf).inv(),
        old(buf).buffered() >= 1,
        old(buf).stream().len() >= 1,
        old(buf).stream().last() == 34u8,
    ensures
        final(buf).inv(),
        final(buf).fallible() == old(buf).fallible(),
        final(buf).small_limit() == old(buf).small_limit(),
        r is Ok ==> ser_entries(es@, es@.len() as int) is Ok && final(buf).stream() == old(buf).stream().take(old(buf).stream().len() - 1) + ser_entries(es@, es@.len() as int)->Ok_0,
        r matches Err(e) ==> ser_entries(es@, es@.len() as int) == Err::<Seq<u8>, Error>(e) || (
        e is Io && old(buf).fallible()),
    decreases es@, 0int,
{
    let ghost base = old(buf).stream().take(old(buf).stream().len() - 1);
    let n = es.len();
    let mut i: usize = 0;
    while i < n
        invariant
            i <= n,
            n == es@.len(),
            buf.inv(),
            buf.fallible() == old(buf).fallible(),
            buf.small_limit() == old(buf).small_limit(),
            base == old(buf).stream().take(old(buf).stream().len() - 1),
            ser_entries(es@, i as int) is Ok,
            buf.stream() == base + ser_entries(es@, i as int)->Ok_0 + (if i > 0 {
                seq![44u8, 34u8]
            } else {
                seq![34u8]
            }),
            buf.buffered() >= (if i > 0 {
                2nat
            } else {
                1nat
            }),
        decreases n - i,
    {
        let entry = &es[i];
        let r = write_key(buf, &entry.0);
        match r {
            Ok(()) => {},
            Err(e) => {
                proof {
                    if key_inner(es@[i as int].0) == Err::<Seq<u8>, Error>(e) {
                        lemma_ser_entries_err(es@, i as int, es@.len() as int, e);
                    }
                }
                return Err(e);
            },
        }
        proof {
            assert(decreases_to!(es@ => es@[i as int]));
            assert(decreases_to!(es@[i as int] => es@[i as int].1));
        }
        let rv = write_value(buf, &entry.1, SuffixKind::MapEntry);
        match rv {
            Ok(()) => {},
            Err(e) => {
                proof {
                    if ser_spec(es@[i as int].1) == Err::<Seq<u8>, Error>(e) {
                        lemma_ser_entries_err(es@, i as int, es@.len() as int, e);
                    }
                }
                return Err(e);
            },
        }
        proof {
            let j = i as int;
            let kb = key_inner(es@[j].0)->Ok_0;
            let vb = ser_spec(es@[j].1)->Ok_0;
            if j == 0 {
                assert(ser_entries(es@, 1)->Ok_0 =~= seq![34u8] + kb + seq![34u8, 58u8] + vb);
                assert(buf.stream() =~= base + ser_entries(es@, 1)->Ok_0 + seq![44u8, 34u8]);
            } else {
                assert(ser_entries(es@, j + 1)->Ok_0 =~= ser_entries(es@, j)->Ok_0 + seq![44u8]
                    + (seq![34u8] + kb + seq![34u8, 58u8] + vb));
                assert(buf.stream() =~= base + ser_entries(es@, j + 1)->Ok_0 + seq![44u8, 34u8]);
            }
        }
        i = i + 1;
    }
    if n > 0 {
        buf.shrink(2);
        proof {
            assert(buf.stream() =~= base + ser_entries(es@, n as int)->Ok_0);
        }
    } else {
        buf.shrink(1);
        proof {
            assert(buf.stream() =~= base + ser_entries(es@, 0)->Ok_0);
        }
    }
    Ok(())
}

/// Write the fields of a record, whose first field name's opening
/// quote was pre-emitted by the caller, then trim the over-emitted
/// suffix exactly as for map entries.
fn write_fields<B: BufWrite>(buf: &mut B, fs: &Vec<(String, Value)>) -> (r: Result<(), Error>)
    requires
        old(buf).inv(),
        old(buf).buffered() >= 1,
        old(buf).stream().len() >= 1,
        old(buf).stream().last() == 34u8,
    ensures
        final(buf).inv(),
        final(buf).fallible() == old(buf).fallible(),
        final(buf).small_limit() == old(buf).small_limit(),
        r is Ok ==> ser_fields(fs@, fs@.len() as int) is Ok && final(buf).stream() == old(buf).stream().take(old(buf).stream().len() - 1) + ser_fields(fs@, fs@.len() as int)->Ok_0,
        r matches Err(e) ==> ser_fields(fs@, fs@.len() as int) == Err::<Seq<u8>, Error>(e) || (
        e is Io && old(buf).fallible()),
    decreases fs@, 0int,
{
    let ghost base = old(buf).stream().take(old(buf).stream().len() - 1);
    let n = fs.len();
    let mut i: usize = 0;
    while i < n
        invariant
            i <= n,
            n == fs@.len(),
            buf.inv(),
            buf.fallible() == old(buf).fallible(),
            buf.small_limit() == old(buf).small_limit(),
            base == old(buf).stream().take(old(buf).stream().len() - 1),
            ser_fields(fs@, i as int) is Ok,
            buf.stream() == base + ser_fields(fs@, i as int)->Ok_0 + (if i > 0 {
                seq![44u8, 34u8]
            } else {
                seq![34u8]
            }),
            buf.buffered() >= (if i > 0 {
                2nat
            } else {
                1nat
            }),
        decreases n - i,
    {
        let field = &fs[i];
        let r = write_name_escaped(buf, field.0.as_str());
        match r {
            Ok(()) => {},
            Err(e) => {
                return Err(e);
            },
        }
        let mut sep: Vec<u8> = Vec::new();
        sep.push(34);
        sep.push(58);
        match write_small_lit(buf, &sep) {
            Ok(()) => {},
            Err(e) => {
                return Err(e);
            },
        }
        proof {
            assert(decreases_to!(fs@ => fs@[i as int]));
            assert(decreases_to!(fs@[i as int] => fs@[i as int].1));
        }
        let rv = write_value(buf, &field.1, SuffixKind::MapEntry);
        match rv {
            Ok(()) => {},
            Err(e) => {
                proof {
                    if ser_spec(fs@[i as int].1) == Err::<Seq<u8>, Error>(e) {
                        lemma_ser_fields_err(fs@, i as int, fs@.len() as int, e);
                    }
                }
                return Err(e);
            },
        }
        proof {
            let j = i as int;
            let nb = crate::escape::escaped(vstd::utf8::encode_utf8(fs@[j].0@));
            let vb = ser_spec(fs@[j].1)->Ok_0;
            if j == 0 {
                assert(ser_fields(fs@, 1)->Ok_0 =~= seq![34u8] + nb + seq![34u8, 58u8] + vb);
                assert(buf.stream() =~= base + ser_fields(fs@, 1)->Ok_0 + seq![44u8, 34u8]);
            } else {
                assert(ser_fields(fs@, j + 1)->Ok_0 =~= ser_fields(fs@, j)->Ok_0 + seq![44u8]
                    + (seq![34u8] + nb + seq![34u8, 58u8] + vb));
                assert(buf.stream() =~= base + ser_fields(fs@, j + 1)->Ok_0 + seq![44u8, 34u8]);
            }
        }
        i = i + 1;
    }
    if n > 0 {
        buf.shrink(2);
        proof {
            assert(buf.stream() =~= base + ser_fields(fs@, n as int)->Ok_0);
        }
    } else {
        buf.shrink(1);
        proof {
            assert(buf.stream() =~= base + ser_fields(fs@, 0)->Ok_0);
        }
    }
    Ok(())
}

/// Write the byte-sequence elements as decimal integers joined by
/// commas: the body of the JSON array a byte string encodes to.
fn write_bytes_body<B: BufWrite>(buf: &mut B, bs: &Vec<u8>) -> (r: Result<(), Error>)
    requires
        old(buf).inv(),
    ensures
        final(buf).inv(),
        final(buf).fallible() == old(buf).fallible(),
        final(buf).small_limit() == old(buf).small_limit(),
        r is Ok ==> final(buf).stream() == old(buf).stream() + byte_items(
            bs@,
            bs@.len() as int,
        ),
        !old(buf).fallible() ==> r is Ok,
        r matches Err(e) ==> e is Io,
{
    let n = bs.len();
    let mut i: usize = 0;
    while i < n
        invariant
            i <= n,
            n == bs@.len(),
            buf.inv(),
            buf.fallible() == old(buf).fallible(),
            buf.small_limit() == old(buf).small_limit(),
            buf.stream() == old(buf).stream() + byte_items(bs@, i as int) + (if i > 0 {
                seq![44u8]
            } else {
                Seq::<u8>::empty()
            }),
            i > 0 ==> buf.buffered() >= 1,
        decreases n - i,
    {
        let b = bs[i];
        proof {
            lemma_int_bytes_small(b as int);
        }
        let r = write_raw_sfx(buf, &b, SuffixKind::SeqElement);
        match r {
            Ok(()) => {},
            Err(e) => {
                return Err(e);
            },
        }
        proof {
            let j = i as int;
            if j == 0 {
                assert(byte_items(bs@, 1) == crate::raw::dec_bytes(bs@[0] as nat));
                assert(buf.stream() =~= old(buf).stream() + byte_items(bs@, 1) + seq![44u8]);
            } else {
                assert(byte_items(bs@, j + 1) =~= byte_items(bs@, j) + seq![44u8]
                    + crate::raw::dec_bytes(bs@[j] as nat));
                assert(buf.stream() =~= old(buf).stream() + byte_items(bs@, j + 1) + seq![44u8]);
            }
        }
        i = i + 1;
    }
    if n > 0 {
        buf.shrink(1);
        proof {
            assert(buf.stream() =~= old(buf).stream() + byte_items(bs@, n as int));
        }
    }
    Ok(())
}


/// Write a sequence value: `[`, the joined elements, `]`, the suffix.
fn write_array_value<B: BufWrite>(buf: &mut B, es: &Vec<Value>, sfx: SuffixKind) -> (r: Result<
    (),
    Error,
>)
    requires
        old(buf).inv(),
    ensures
        final(buf).inv(),
        final(buf).fallible() == old(buf).fallible(),
        final(buf).small_limit() == old(buf).small_limit(),
        r is Ok ==> ser_items(es@, es@.len() as int) is Ok && final(buf).stream() == old(buf).stream() + (seq![91u8] + ser_items(es@, es@.len() as int)->Ok_0 + seq![93u8])
            + suffix_bytes(sfx) && final(buf).buffered() >= suffix_bytes(sfx).len(),
        r matches Err(e) ==> ser_items(es@, es@.len() as int) == Err::<Seq<u8>, Error>(e) || (
        e is Io && old(buf).fallible()),
    decreases es@, 1int,
{
    let mut open: Vec<u8> = Vec::new();
    open.push(91);
    match write_small_lit(buf, &open) {
        Ok(()) => {},
        Err(e) => {
            return Err(e);
        },
    }
    match write_items(buf, es) {
        Ok(()) => {},
        Err(e) => {
            return Err(e);
        },
    }
    let r = write_close1(buf, 93, sfx);
    proof {
        if r is Ok {
            assert(buf.stream() =~= old(buf).stream() + (seq![91u8] + ser_items(
                es@,
                es@.len() as int,
            )->Ok_0 + seq![93u8]) + suffix_bytes(sfx));
        }
    }
    r
}

/// Write a map value: `{` with the first key quote pre-opened, the
/// joined entries, `}`, the suffix.
fn write_object_value<B: BufWrite>(buf: &mut B, es: &Vec<(Value, Value)>, sfx: SuffixKind) -> (r:
    Result<(), Error>)
    requires
        old(buf).inv(),
    ensures
        final(buf).inv(),
        final(buf).fallible() == old(buf).fallible(),
        final(buf).small_limit() == old(buf).small_limit(),
        r is Ok ==> ser_entries(es@, es@.len() as int) is Ok && final(buf).stream() == old(buf).stream() + (seq![123u8] + ser_entries(es@, es@.len() as int)->Ok_0 + seq![125u8])
            + suffix_bytes(sfx) && final(buf).buffered() >= suffix_bytes(sfx).len(),
        r matches Err(e) ==> ser_entries(es@, es@.len() as int) == Err::<Seq<u8>, Error>(e) || (
        e is Io && old(buf).fallible()),
    decreases es@, 1int,
{
    let mut open: Vec<u8> = Vec::new();
    open.push(123);
    open.push(34);
    match write_small_lit(buf, &open) {
        Ok(()) => {},
        Err(e) => {
            return Err(e);
        },
    }
    match write_entries(buf, es) {
        Ok(()) => {},
        Err(e) => {
            return Err(e);
        },
    }
    let r = write_close1(buf, 125, sfx);
    proof {
        if r is Ok {
            assert(buf.stream() =~= old(buf).stream() + (seq![123u8] + ser_entries(
                es@,
                es@.len() as int,
            )->Ok_0 + seq![125u8]) + suffix_bytes(sfx));
        }
    }
    r
}

/// Write a record value: `{` with the first field quote pre-opened,
/// the joined fields in declaration order, `}`, the suffix.
fn write_record_value<B: BufWrite>(buf: &mut B, fs: &Vec<(String, Value)>, sfx: SuffixKind) -> (r:
    Result<(), Error>)
    requires
        old(buf).inv(),
    ensures
        final(buf).inv(),
        final(buf).fallible() == old(buf).fallible(),
        final(buf).small_limit() == old(buf).small_limit(),
        r is Ok ==> ser_fields(fs@, fs@.len() as int) is Ok && final(buf).stream() == old(buf).stream() + (seq![123u8] + ser_fields(fs@, fs@.len() as int)->Ok_0 + seq![125u8])
            + suffix_bytes(sfx) && final(buf).buffered() >= suffix_bytes(sfx).len(),
        r matches Err(e) ==> ser_fields(fs@, fs@.len() as int) == Err::<Seq<u8>, Error>(e) || (
        e is Io && old(buf).fallible()),
    decreases fs@, 1int,
{
    let mut open: Vec<u8> = Vec::new();
    open.push(123);
    open.push(34);
    match write_small_lit(buf, &open) {
        Ok(()) => {},
        Err(e) => {
            return Err(e);
        },
    }
    match write_fields(buf, fs) {
        Ok(()) => {},
        Err(e) => {
            return Err(e);
        },
    }
    let r = write_close1(buf, 125, sfx);
    proof {
        if r is Ok {
            assert(buf.stream() =~= old(buf).stream() + (seq![123u8] + ser_fields(
                fs@,
                fs@.len() as int,
            )->Ok_0 + seq![125u8]) + suffix_bytes(sfx));
        }
    }
    r
}

/// Write a quoted string value from already-encoded text bytes.
fn write_string_value<B: BufWrite>(buf: &mut B, text: &[u8], sfx: SuffixKind) -> (r: Result<
    (),
    Error,
>)
    requires
        old(buf).inv(),
    ensures
        final(buf).inv(),
        final(buf).fallible() == old(buf).fallible(),
        final(buf).small_limit() == old(buf).small_limit(),
        r is Ok ==> final(buf).stream() == old(buf).stream() + (seq![34u8]
            + crate::escape::escaped(text@) + seq![34u8]) + suffix_bytes(sfx) && final(buf).buffered() >= suffix_bytes(sfx).len(),
        !old(buf).fallible() ==> r is Ok,
        r matches Err(e) ==> e is Io,
{
    let mut open: Vec<u8> = Vec::new();
    open.push(34);
    match write_small_lit(buf, &open) {
        Ok(()) => {},
        Err(e) => {
            return Err(e);
        },
    }
    match escape_bytes(buf, text) {
        Ok(()) => {},
        Err(e) => {
            return Err(e);
        },
    }
    let r = write_close1(buf, 34, sfx);
    proof {
        if r is Ok {
            assert(buf.stream() =~= old(buf).stream() + (seq![34u8] + crate::escape::escaped(
                text@,
            ) + seq![34u8]) + suffix_bytes(sfx));
        }
    }
    r
}

/// Write a character value: quoted, escaped, suffixed.
fn write_char_value<B: BufWrite>(buf: &mut B, c: char, sfx: SuffixKind) -> (r: Result<(), Error>)
    requires
        old(buf).inv(),
    ensures
        final(buf).inv(),
        final(buf).fallible() == old(buf).fallible(),
        final(buf).small_limit() == old(buf).small_limit(),
        r is Ok ==> final(buf).stream() == old(buf).stream() + (seq![34u8]
            + crate::escape::escaped(vstd::utf8::encode_scalar(c as u32)) + seq![34u8])
            + suffix_bytes(sfx) && final(buf).buffered() >= suffix_bytes(sfx).len(),
        !old(buf).fallible() ==> r is Ok,
        r matches Err(e) ==> e is Io,
{
    let mut open: Vec<u8> = Vec::new();
    open.push(34);
    match write_small_lit(buf, &open) {
        Ok(()) => {},
        Err(e) => {
            return Err(e);
        },
    }
    match escape_char(buf, c) {
        Ok(()) => {},
        Err(e) => {
            return Err(e);
        },
    }
    let r = write_close1(buf, 34, sfx);
    proof {
        if r is Ok {
            assert(buf.stream() =~= old(buf).stream() + (seq![34u8] + crate::escape::escaped(
                vstd::utf8::encode_scalar(c as u32),
            ) + seq![34u8]) + suffix_bytes(sfx));
        }
    }
    r
}

/// Write a byte-sequence value as a JSON array of integers.
fn write_bytes_value<B: BufWrite>(buf: &mut B, bs: &Vec<u8>, sfx: SuffixKind) -> (r: Result<
    (),
    Error,
>)
    requires
        old(buf).inv(),
    ensures
        final(buf).inv(),
        final(buf).fallible() == old(buf).fallible(),
        final(buf).small_limit() == old(buf).small_limit(),
        r is Ok ==> final(buf).stream() == old(buf).stream() + (seq![91u8] + byte_items(
            bs@,
            bs@.len() as int,
        ) + seq![93u8]) + suffix_bytes(sfx) && final(buf).buffered() >= suffix_bytes(sfx).len(),
        !old(buf).fallible() ==> r is Ok,
        r matches Err(e) ==> e is Io,
{
    let mut open: Vec<u8> = Vec::new();
    open.push(91);
    match write_small_lit(buf, &open) {
        Ok(()) => {},
        Err(e) => {
            return Err(e);
        },
    }
    match write_bytes_body(buf, bs) {
        Ok(()) => {},
        Err(e) => {
            return Err(e);
        },
    }
    let r = write_close1(buf, 93, sfx);
    proof {
        if r is Ok {
            assert(buf.stream() =~= old(buf).stream() + (seq![91u8] + byte_items(
                bs@,
                bs@.len() as int,
            ) + seq![93u8]) + suffix_bytes(sfx));
        }
    }
    r
}

/// Write the opening of a named variant: `{`, the quoted escaped
/// variant name, and the given joint bytes after the name's closing
/// quote.
fn write_variant_head<B: BufWrite>(buf: &mut B, name: &str, joint: &Vec<u8>) -> (r: Result<
    (),
    Error,
>)
    requires
        old(buf).inv(),
        joint@.len() + 2 <= 46,
    ensures
        final(buf).inv(),
        final(buf).fallible() == old(buf).fallible(),
        final(buf).small_limit() == old(buf).small_limit(),
        r is Ok ==> final(buf).stream() == old(buf).stream() + seq![123u8, 34u8]
            + crate::escape::escaped(name.spec_bytes()) + seq![34u8, 58u8] + joint@ && final(buf).buffered() >= joint@.len() + 2,
        !old(buf).fallible() ==> r is Ok,
        r matches Err(e) ==> e is Io,
{
    let mut open: Vec<u8> = Vec::new();
    open.push(123);
    open.push(34);
    match write_small_lit(buf, &open) {
        Ok(()) => {},
        Err(e) => {
            return Err(e);
        },
    }
    match write_name_escaped(buf, name) {
        Ok(()) => {},
        Err(e) => {
            return Err(e);
        },
    }
    let mut sep: Vec<u8> = Vec::new();
    sep.push(34);
    sep.push(58);
    let mut i: usize = 0;
    let n = joint.len();
    while i < n
        invariant
            i <= n,
            n == joint@.len(),
            sep@ == seq![34u8, 58u8] + joint@.take(i as int),
        decreases n - i,
    {
        sep.push(joint[i]);
        i = i + 1;
        assert(sep@ =~= seq![34u8, 58u8] + joint@.take(i as int));
    }
    assert(sep@ =~= seq![34u8, 58u8] + joint@);
    let r = write_small_lit(buf, &sep);
    proof {
        if r is Ok {
            assert(buf.stream() =~= old(buf).stream() + seq![123u8, 34u8]
                + crate::escape::escaped(name.spec_bytes()) + seq![34u8, 58u8] + joint@);
        }
    }
    r
}


/// Write a unit variant: its escaped name as a JSON string.
fn write_unit_variant<B: BufWrite>(buf: &mut B, name: &str, sfx: SuffixKind) -> (r: Result<
    (),
    Error,
>)
    requires
        old(buf).inv(),
    ensures
        final(buf).inv(),
        final(buf).fallible() == old(buf).fallible(),
        final(buf).small_limit() == old(buf).small_limit(),
        r is Ok ==> final(buf).stream() == old(buf).stream() + (seq![34u8]
            + crate::escape::escaped(name.spec_bytes()) + seq![34u8]) + suffix_bytes(sfx)
            && final(buf).buffered() >= suffix_bytes(sfx).len(),
        !old(buf).fallible() ==> r is Ok,
        r matches Err(e) ==> e is Io,
{
    let mut open: Vec<u8> = Vec::new();
    open.push(34);
    match write_small_lit(buf, &open) {
        Ok(()) => {},
        Err(e) => {
            return Err(e);
        },
    }
    match write_name_escaped(buf, name) {
        Ok(()) => {},
        Err(e) => {
            return Err(e);
        },
    }
    let r = write_close1(buf, 34, sfx);
    proof {
        if r is Ok {
            assert(buf.stream() =~= old(buf).stream() + (seq![34u8] + crate::escape::escaped(
                name.spec_bytes(),
            ) + seq![34u8]) + suffix_bytes(sfx));
        }
    }
    r
}

/// Write a newtype variant: an object with the variant name as its one
/// key and the inner value as its value.
fn write_newtype_variant<B: BufWrite>(
    buf: &mut B,
    name: &str,
    inner: &Value,
    sfx: SuffixKind,
) -> (r: Result<(), Error>)
    requires
        old(buf).inv(),
    ensures
        final(buf).inv(),
        final(buf).fallible() == old(buf).fallible(),
        final(buf).small_limit() == old(buf).small_limit(),
        r is Ok ==> ser_spec(*inner) is Ok && final(buf).stream() == old(buf).stream() + (seq![
            123u8,
            34u8,
        ] + crate::escape::escaped(name.spec_bytes()) + seq![34u8, 58u8] + ser_spec(*inner)->Ok_0
            + seq![125u8]) + suffix_bytes(sfx) && final(buf).buffered() >= suffix_bytes(
            sfx,
        ).len(),
        r matches Err(e) ==> ser_spec(*inner) == Err::<Seq<u8>, Error>(e) || (e is Io && old(
            buf,
        ).fallible()),
    decreases *inner, 3int,
{
    let joint: Vec<u8> = Vec::new();
    match write_variant_head(buf, name, &joint) {
        Ok(()) => {},
        Err(e) => {
            return Err(e);
        },
    }
    match write_value(buf, inner, SuffixKind::Root) {
        Ok(()) => {},
        Err(e) => {
            return Err(e);
        },
    }
    let r = write_close1(buf, 125, sfx);
    proof {
        if r is Ok {
            assert(buf.stream() =~= old(buf).stream() + (seq![123u8, 34u8]
                + crate::escape::escaped(name.spec_bytes()) + seq![34u8, 58u8] + ser_spec(
                *inner,
            )->Ok_0 + seq![125u8]) + suffix_bytes(sfx));
        }
    }
    r
}

/// Write a tuple variant: an object with the variant name as its one
/// key and the elements as a JSON array.
fn write_tuple_variant<B: BufWrite>(
    buf: &mut B,
    name: &str,
    es: &Vec<Value>,
    sfx: SuffixKind,
) -> (r: Result<(), Error>)
    requires
        old(buf).inv(),
    ensures
        final(buf).inv(),
        final(buf).fallible() == old(buf).fallible(),
        final(buf).small_limit() == old(buf).small_limit(),
        r is Ok ==> ser_items(es@, es@.len() as int) is Ok && final(buf).stream() == old(
            buf,
        ).stream() + (seq![123u8, 34u8] + crate::escape::escaped(name.spec_bytes()) + seq![
            34u8,
            58u8,
            91u8,
        ] + ser_items(es@, es@.len() as int)->Ok_0 + seq![93u8, 125u8]) + suffix_bytes(sfx)
            && final(buf).buffered() >= suffix_bytes(sfx).len(),
        r matches Err(e) ==> ser_items(es@, es@.len() as int) == Err::<Seq<u8>, Error>(e) || (
        e is Io && old(buf).fallible()),
    decreases es@, 1int,
{
    let mut joint: Vec<u8> = Vec::new();
    joint.push(91);
    match write_variant_head(buf, name, &joint) {
        Ok(()) => {},
        Err(e) => {
            return Err(e);
        },
    }
    match write_items(buf, es) {
        Ok(()) => {},
        Err(e) => {
            return Err(e);
        },
    }
    let r = write_close2(buf, 93, 125, sfx);
    proof {
        if r is Ok {
            assert(buf.stream() =~= old(buf).stream() + (seq![123u8, 34u8]
                + crate::escape::escaped(name.spec_bytes()) + seq![34u8, 58u8, 91u8] + ser_items(
                es@,
                es@.len() as int,
            )->Ok_0 + seq![93u8, 125u8]) + suffix_bytes(sfx));
        }
    }
    r
}

/// Write a struct variant: an object with the variant name as its one
/// key and the fields as a nested object.
fn write_struct_variant<B: BufWrite>(
    buf: &mut B,
    name: &str,
    fs: &Vec<(String, Value)>,
    sfx: SuffixKind,
) -> (r: Result<(), Error>)
    requires
        old(buf).inv(),
    ensures
        final(buf).inv(),
        final(buf).fallible() == old(buf).fallible(),
        final(buf).small_limit() == old(buf).small_limit(),
        r is Ok ==> ser_fields(fs@, fs@.len() as int) is Ok && final(buf).stream() == old(
            buf,
        ).stream() + (seq![123u8, 34u8] + crate::escape::escaped(name.spec_bytes()) + seq![
            34u8,
            58u8,
            123u8,
        ] + ser_fields(fs@, fs@.len() as int)->Ok_0 + seq![125u8, 125u8]) + suffix_bytes(sfx)
            && final(buf).buffered() >= suffix_bytes(sfx).len(),
        r matches Err(e) ==> ser_fields(fs@, fs@.len() as int) == Err::<Seq<u8>, Error>(e) || (
        e is Io && old(buf).fallible()),
    decreases fs@, 1int,
{
    let mut joint: Vec<u8> = Vec::new();
    joint.push(123);
    joint.push(34);
    match write_variant_head(buf, name, &joint) {
        Ok(()) => {},
        Err(e) => {
            return Err(e);
        },
    }
    match write_fields(buf, fs) {
        Ok(()) => {},
        Err(e) => {
            return Err(e);
        },
    }
    let r = write_close2(buf, 125, 125, sfx);
    proof {
        if r is Ok {
            assert(buf.stream() =~= old(buf).stream() + (seq![123u8, 34u8]
                + crate::escape::escaped(name.spec_bytes()) + seq![34u8, 58u8, 123u8]
                + ser_fields(fs@, fs@.len() as int)->Ok_0 + seq![125u8, 125u8]) + suffix_bytes(
                sfx,
            ));
        }
    }
    r
}

/// Encode one value onto the buffer, followed by the context's suffix.
///
/// On success the stream grows by exactly the value's JSON bytes plus
/// the suffix, and the suffix stays in the rollback window so that the
/// enclosing container can trim it. On failure the returned error is
/// the value's own first error in traversal order, or a buffer error
/// when the buffer is fallible. An absent finite float is rejected
/// before any byte of it is written.
/// Whether a value is a leaf: encoded in a single batched write.
pub open spec fn is_leaf(v: Value) -> bool {
    match v {
        Value::Bool(_) => true,
        Value::I8(_) => true,
        Value::I16(_) => true,
        Value::I32(_) => true,
        Value::I64(_) => true,
        Value::I128(_) => true,
        Value::U8(_) => true,
        Value::U16(_) => true,
        Value::U32(_) => true,
        Value::U64(_) => true,
        Value::U128(_) => true,
        Value::F32(_) => true,
        Value::F64(_) => true,
        Value::OptionNone => true,
        Value::Unit => true,
        _ => false,
    }
}

/// Encode a leaf value and the context's suffix in one batched write.
#[verifier::rlimit(100)]
#[verifier::spinoff_prover]
fn write_leaf<B: BufWrite>(buf: &mut B, v: &Value, sfx: SuffixKind) -> (r: Result<(), Error>)
    requires
        old(buf).inv(),
        is_leaf(*v),
    ensures
        final(buf).inv(),
        final(buf).fallible() == old(buf).fallible(),
        final(buf).small_limit() == old(buf).small_limit(),
        r is Ok ==> ser_spec(*v) is Ok && final(buf).stream() == old(buf).stream()
            + ser_spec(*v)->Ok_0 + suffix_bytes(sfx) && final(buf).buffered() >= suffix_bytes(
            sfx,
        ).len(),
        r matches Err(e) ==> ser_spec(*v) == Err::<Seq<u8>, Error>(e) || (e is Io && old(
            buf,
        ).fallible()),
        (*v == Value::F32(None::<crate::float::FiniteF32>) || *v == Value::F64(
            None::<crate::float::FiniteF64>,
        )) ==> r == Err::<(), Error>(Error::NonFiniteFloat) && final(buf).stream() == old(
            buf,
        ).stream(),
{
    match v {
        Value::Bool(b) => write_raw_sfx(buf, b, sfx),
        Value::I8(n) => {
            proof {
                lemma_int_bytes_small(*n as int);
            }
            write_raw_sfx(buf, n, sfx)
        },
        Value::I16(n) => {
            proof {
                lemma_int_bytes_small(*n as int);
            }
            write_raw_sfx(buf, n, sfx)
        },
        Value::I32(n) => {
            proof {
                lemma_int_bytes_small(*n as int);
            }
            write_raw_sfx(buf, n, sfx)
        },
        Value::I64(n) => {
            proof {
                lemma_int_bytes_small(*n as int);
            }
            write_raw_sfx(buf, n, sfx)
        },
        Value::I128(n) => {
            proof {
                lemma_int_bytes_small(*n as int);
            }
            write_raw_sfx(buf, n, sfx)
        },
        Value::U8(n) => {
            proof {
                lemma_int_bytes_small(*n as int);
            }
            write_raw_sfx(buf, n, sfx)
        },
        Value::U16(n) => {
            proof {
                lemma_int_bytes_small(*n as int);
            }
            write_raw_sfx(buf, n, sfx)
        },
        Value::U32(n) => {
            proof {
                lemma_int_bytes_small(*n as int);
            }
            write_raw_sfx(buf, n, sfx)
        },
        Value::U64(n) => {
            proof {
                lemma_int_bytes_small(*n as int);
            }
            write_raw_sfx(buf, n, sfx)
        },
        Value::U128(n) => {
            proof {
                lemma_int_bytes_small(*n as int);
            }
            write_raw_sfx(buf, n, sfx)
        },
        Value::F32(of) => match of {
            Some(f) => {
                proof {
                    use_type_invariant(f);
                    f.repr_facts();
                }
                write_raw_sfx(buf, f, sfx)
            },
            None => Err(Error::NonFiniteFloat),
        },
        Value::F64(of) => match of {
            Some(f) => {
                proof {
                    use_type_invariant(f);
                    f.repr_facts();
                }
                write_raw_sfx(buf, f, sfx)
            },
            None => Err(Error::NonFiniteFloat),
        },
        Value::OptionNone => write_raw_sfx(buf, &RawNull, sfx),
        Value::Unit => write_raw_sfx(buf, &RawNull, sfx),
        _ => vstd::pervasive::unreached(),
    }
}

/// Encode one value onto the buffer, followed by the context's suffix.
///
/// On success the stream grows by exactly the value's JSON bytes plus
/// the suffix, and the suffix stays in the rollback window so that the
/// enclosing container can trim it. On failure the returned error is
/// the value's own first error in traversal order, or a buffer error
/// when the buffer is fallible. An absent finite float is rejected
/// before any byte of it is written.
#[verifier::rlimit(100)]
#[verifier::spinoff_prover]
pub fn write_value<B: BufWrite>(buf: &mut B, v: &Value, sfx: SuffixKind) -> (r: Result<(), Error>)
    requires
        old(buf).inv(),
    ensures
        final(buf).inv(),
        final(buf).fallible() == old(buf).fallible(),
        final(buf).small_limit() == old(buf).small_limit(),
        r is Ok ==> ser_spec(*v) is Ok && final(buf).stream() == old(buf).stream()
            + ser_spec(*v)->Ok_0 + suffix_bytes(sfx) && final(buf).buffered() >= suffix_bytes(
            sfx,
        ).len(),
        r matches Err(e) ==> ser_spec(*v) == Err::<Seq<u8>, Error>(e) || (e is Io && old(
            buf,
        ).fallible()),
        (*v == Value::F32(None::<crate::float::FiniteF32>) || *v == Value::F64(
            None::<crate::float::FiniteF64>,
        )) ==> r == Err::<(), Error>(Error::NonFiniteFloat) && final(buf).stream() == old(
            buf,
        ).stream(),
    decreases *v, 2int,
{
    match v {
        Value::Char(c) => write_char_value(buf, *c, sfx),
        Value::Str(s) => write_string_value(buf, s.as_str().as_bytes(), sfx),
        Value::Bytes(bs) => write_bytes_value(buf, bs, sfx),
        Value::OptionSome(inner) => write_value(buf, &**inner, sfx),
        Value::Array(es) => {
            proof {
                assert(decreases_to!(*v => es@));
            }
            write_array_value(buf, es, sfx)
        },
        Value::Object(es) => {
            proof {
                assert(decreases_to!(*v => es@));
            }
            write_object_value(buf, es, sfx)
        },
        Value::Record(fs) => {
            proof {
                assert(decreases_to!(*v => fs@));
            }
            write_record_value(buf, fs, sfx)
        },
        Value::UnitVariant(name) => write_unit_variant(buf, name.as_str(), sfx),
        Value::NewtypeVariant(name, inner) => write_newtype_variant(
            buf,
            name.as_str(),
            &**inner,
            sfx,
        ),
        Value::TupleVariant(name, es) => {
            proof {
                assert(decreases_to!(*v => es@));
            }
            write_tuple_variant(buf, name.as_str(), es, sfx)
        },
        Value::StructVariant(name, fs) => {
            proof {
                assert(decreases_to!(*v => fs@));
            }
            write_struct_variant(buf, name.as_str(), fs, sfx)
        },
        _ => write_leaf(buf, v, sfx),
    }
}


/// The protocol entry point for one value at a given nesting context.
/// A driver walks a caller's typed values and issues start/element/end
/// calls; each call says exactly what it appends to the stream.
pub struct Serializer {
    suffix: SuffixKind,
}

impl Serializer {
    /// The nesting context this serializer writes under.
    pub closed spec fn spec_suffix(&self) -> SuffixKind {
        self.suffix
    }

    /// A serializer for a whole JSON document.
    pub fn new() -> (r: Serializer)
        ensures
            r.spec_suffix() == SuffixKind::Root,
    {
        Serializer { suffix: SuffixKind::Root }
    }

    /// A serializer for elements of the given nesting context.
    pub fn with_suffix(suffix: SuffixKind) -> (r: Serializer)
        ensures
            r.spec_suffix() == suffix,
    {
        Serializer { suffix }
    }

    /// Encode one value followed by this context's suffix.
    pub fn serialize<B: BufWrite>(&self, buf: &mut B, v: &Value) -> (r: Result<(), Error>)
        requires
            old(buf).inv(),
        ensures
            final(buf).inv(),
            final(buf).fallible() == old(buf).fallible(),
            final(buf).small_limit() == old(buf).small_limit(),
            r is Ok ==> ser_spec(*v) is Ok && final(buf).stream() == old(buf).stream()
                + ser_spec(*v)->Ok_0 + suffix_bytes(self.spec_suffix()),
            r matches Err(e) ==> ser_spec(*v) == Err::<Seq<u8>, Error>(e) || (e is Io && old(buf).fallible()),
    {
        write_value(buf, v, self.suffix)
    }

    /// Open a sequence under this context.
    pub fn serialize_seq<B: BufWrite>(&self, buf: &mut B) -> (r: Result<SeqSerializer, Error>)
        requires
            old(buf).inv(),
        ensures
            final(buf).inv(),
            final(buf).fallible() == old(buf).fallible(),
            final(buf).small_limit() == old(buf).small_limit(),
            r matches Ok(sq) ==> sq.wf(final(buf)) && sq.spec_base() == old(buf).stream()
                && sq.spec_items() == Seq::<u8>::empty() && sq.spec_suffix()
                == self.spec_suffix(),
            !old(buf).fallible() ==> r is Ok,
            r matches Err(e) ==> e is Io,
    {
        SeqSerializer::begin(buf, self.suffix)
    }

    /// Open a record under this context.
    pub fn serialize_struct<B: BufWrite>(&self, buf: &mut B) -> (r: Result<
        StructSerializer,
        Error,
    >)
        requires
            old(buf).inv(),
        ensures
            final(buf).inv(),
            final(buf).fallible() == old(buf).fallible(),
            final(buf).small_limit() == old(buf).small_limit(),
            r matches Ok(st) ==> st.wf(final(buf)) && st.spec_base() == old(buf).stream()
                && st.spec_fields() == Seq::<u8>::empty() && st.spec_suffix()
                == self.spec_suffix(),
            !old(buf).fallible() ==> r is Ok,
            r matches Err(e) ==> e is Io,
    {
        StructSerializer::begin(buf, self.suffix)
    }

    /// Open a map under this context.
    pub fn serialize_map<B: BufWrite>(&self, buf: &mut B) -> (r: Result<MapSerializer, Error>)
        requires
            old(buf).inv(),
        ensures
            final(buf).inv(),
            final(buf).fallible() == old(buf).fallible(),
            final(buf).small_limit() == old(buf).small_limit(),
            r matches Ok(m) ==> m.wf(final(buf)) && m.spec_base() == old(buf).stream()
                && m.spec_entries() == Seq::<u8>::empty() && m.spec_suffix()
                == self.spec_suffix() && m.spec_pending() is None,
            !old(buf).fallible() ==> r is Ok,
            r matches Err(e) ==> e is Io,
    {
        MapSerializer::begin(buf, self.suffix)
    }
}

/// Streams the elements of one JSON array: `[` on open, each element
/// with a trailing comma, one guarded rollback of the dangling comma
/// on close.
pub struct SeqSerializer {
    first: bool,
    suffix: SuffixKind,
    base: Ghost<Seq<u8>>,
    items: Ghost<Seq<u8>>,
}

impl SeqSerializer {
    /// The stream contents when the array was opened.
    pub closed spec fn spec_base(&self) -> Seq<u8> {
        self.base@
    }

    /// The encoded elements written so far, joined by commas.
    pub closed spec fn spec_items(&self) -> Seq<u8> {
        self.items@
    }

    /// The outer context to finish with.
    pub closed spec fn spec_suffix(&self) -> SuffixKind {
        self.suffix
    }

    /// Whether no element has been written yet.
    pub closed spec fn spec_first(&self) -> bool {
        self.first
    }

    /// The wire state between protocol calls: the base, the opening
    /// bracket, the items so far, and a trailing comma once any
    /// element was written — the comma stays in the rollback window.
    pub closed spec fn wf<B: BufWrite>(&self, buf: &B) -> bool {
        &&& buf.inv()
        &&& buf.stream() == self.base@ + seq![91u8] + self.items@ + (if self.first {
            Seq::<u8>::empty()
        } else {
            seq![44u8]
        })
        &&& (!self.first ==> buf.buffered() >= 1)
        &&& (self.first ==> self.items@ == Seq::<u8>::empty())
    }

    /// Open an array: emit `[`.
    pub fn begin<B: BufWrite>(buf: &mut B, suffix: SuffixKind) -> (r: Result<
        SeqSerializer,
        Error,
    >)
        requires
            old(buf).inv(),
        ensures
            final(buf).inv(),
            final(buf).fallible() == old(buf).fallible(),
            final(buf).small_limit() == old(buf).small_limit(),
            r matches Ok(sq) ==> sq.wf(final(buf)) && sq.spec_base() == old(buf).stream()
                && sq.spec_items() == Seq::<u8>::empty() && sq.spec_suffix() == suffix
                && sq.spec_first(),
            !old(buf).fallible() ==> r is Ok,
            r matches Err(e) ==> e is Io,
    {
        let mut open: Vec<u8> = Vec::new();
        open.push(91);
        match write_small_lit(buf, &open) {
            Ok(()) => {},
            Err(e) => {
                return Err(e);
            },
        }
        let sq = SeqSerializer {
            first: true,
            suffix,
            base: Ghost(old(buf).stream()),
            items: Ghost(Seq::<u8>::empty()),
        };
        proof {
            assert(buf.stream() =~= sq.base@ + seq![91u8] + sq.items@);
        }
        Ok(sq)
    }

    /// Encode one element under the sequence-element suffix.
    pub fn serialize_element<B: BufWrite>(&mut self, buf: &mut B, v: &Value) -> (r: Result<
        (),
        Error,
    >)
        requires
            old(self).wf(old(buf)),
        ensures
            final(buf).inv(),
            final(buf).fallible() == old(buf).fallible(),
            final(buf).small_limit() == old(buf).small_limit(),
            r is Ok ==> final(self).wf(final(buf)) && ser_spec(*v) is Ok && final(self).spec_items() == old(self).spec_items() + (if old(self).spec_first() {
                Seq::<u8>::empty()
            } else {
                seq![44u8]
            }) + ser_spec(*v)->Ok_0 && final(self).spec_base() == old(self).spec_base() && final(self).spec_suffix() == old(self).spec_suffix() && !final(self).spec_first(),
            r matches Err(e) ==> ser_spec(*v) == Err::<Seq<u8>, Error>(e) || (e is Io && old(buf).fallible()),
    {
        if self.first {
            self.first = false;
        } else {
            proof {
                self.items@ = self.items@ + seq![44u8];
            }
            proof {
                assert(buf.stream() =~= self.base@ + seq![91u8] + self.items@);
            }
        }
        let r = write_value(buf, v, SuffixKind::SeqElement);
        match r {
            Ok(()) => {
                proof {
                    self.items@ = self.items@ + ser_spec(*v)->Ok_0;
                    assert(buf.stream() =~= self.base@ + seq![91u8] + self.items@ + seq![44u8]);
                }
                Ok(())
            },
            Err(e) => Err(e),
        }
    }

    /// Close the array: trim the one dangling comma if any element was
    /// written, then emit `]` and the outer suffix.
    pub fn end<B: BufWrite>(self, buf: &mut B) -> (r: Result<(), Error>)
        requires
            self.wf(old(buf)),
        ensures
            final(buf).inv(),
            final(buf).fallible() == old(buf).fallible(),
            final(buf).small_limit() == old(buf).small_limit(),
            r is Ok ==> final(buf).stream() == self.spec_base() + seq![91u8] + self.spec_items()
                + seq![93u8] + suffix_bytes(self.spec_suffix()) && final(buf).buffered()
                >= suffix_bytes(self.spec_suffix()).len(),
            !old(buf).fallible() ==> r is Ok,
            r matches Err(e) ==> e is Io,
    {
        if !self.first {
            buf.shrink(1);
            proof {
                assert(buf.stream() =~= self.base@ + seq![91u8] + self.items@);
            }
        }
        let r = write_close1(buf, 93, self.suffix);
        proof {
            if r is Ok {
                assert(buf.stream() =~= self.base@ + seq![91u8] + self.items@ + seq![93u8]
                    + suffix_bytes(self.suffix));
            }
        }
        r
    }
}

/// Streams the fields of one JSON record: `{` with the first field
/// name's quote pre-opened, each field under the map-entry suffix, one
/// guarded rollback on close.
pub struct StructSerializer {
    first: bool,
    suffix: SuffixKind,
    base: Ghost<Seq<u8>>,
    fields: Ghost<Seq<u8>>,
}

impl StructSerializer {
    /// The stream contents when the record was opened.
    pub closed spec fn spec_base(&self) -> Seq<u8> {
        self.base@
    }

    /// The encoded fields written so far, joined by commas.
    pub closed spec fn spec_fields(&self) -> Seq<u8> {
        self.fields@
    }

    /// The outer context to finish with.
    pub closed spec fn spec_suffix(&self) -> SuffixKind {
        self.suffix
    }

    /// Whether no field has been written yet.
    pub closed spec fn spec_first(&self) -> bool {
        self.first
    }

    /// The wire state between protocol calls: the next field name's
    /// opening quote is always already on the stream, and stays in the
    /// rollback window together with the separating comma.
    pub closed spec fn wf<B: BufWrite>(&self, buf: &B) -> bool {
        &&& buf.inv()
        &&& buf.stream() == self.base@ + seq![123u8] + self.fields@ + (if self.first {
            seq![34u8]
        } else {
            seq![44u8, 34u8]
        })
        &&& buf.buffered() >= (if self.first {
            1nat
        } else {
            2nat
        })
        &&& (self.first ==> self.fields@ == Seq::<u8>::empty())
    }

    /// Open a record: emit `{` and the first field name's quote.
    pub fn begin<B: BufWrite>(buf: &mut B, suffix: SuffixKind) -> (r: Result<
        StructSerializer,
        Error,
    >)
        requires
            old(buf).inv(),
        ensures
            final(buf).inv(),
            final(buf).fallible() == old(buf).fallible(),
            final(buf).small_limit() == old(buf).small_limit(),
            r matches Ok(st) ==> st.wf(final(buf)) && st.spec_base() == old(buf).stream()
                && st.spec_fields() == Seq::<u8>::empty() && st.spec_suffix() == suffix
                && st.spec_first(),
            !old(buf).fallible() ==> r is Ok,
            r matches Err(e) ==> e is Io,
    {
        let mut open: Vec<u8> = Vec::new();
        open.push(123);
        open.push(34);
        match write_small_lit(buf, &open) {
            Ok(()) => {},
            Err(e) => {
                return Err(e);
            },
        }
        let st = StructSerializer {
            first: true,
            suffix,
            base: Ghost(old(buf).stream()),
            fields: Ghost(Seq::<u8>::empty()),
        };
        proof {
            assert(buf.stream() =~= st.base@ + seq![123u8] + st.fields@ + seq![34u8]);
        }
        Ok(st)
    }

    /// Encode one field: the escaped name, the closing quote and
    /// colon, then the value under the map-entry suffix.
    pub fn serialize_field<B: BufWrite>(&mut self, buf: &mut B, key: &str, v: &Value) -> (r:
        Result<(), Error>)
        requires
            old(self).wf(old(buf)),
        ensures
            final(buf).inv(),
            final(buf).fallible() == old(buf).fallible(),
            final(buf).small_limit() == old(buf).small_limit(),
            r is Ok ==> final(self).wf(final(buf)) && ser_spec(*v) is Ok && final(self).spec_fields() == old(self).spec_fields() + (if old(self).spec_first() {
                Seq::<u8>::empty()
            } else {
                seq![44u8]
            }) + (seq![34u8] + crate::escape::escaped(key.spec_bytes()) + seq![34u8, 58u8]
                + ser_spec(*v)->Ok_0) && final(self).spec_base() == old(self).spec_base()
                && final(self).spec_suffix() == old(self).spec_suffix() && !final(self).spec_first(),
            r matches Err(e) ==> ser_spec(*v) == Err::<Seq<u8>, Error>(e) || (e is Io && old(buf).fallible()),
    {
        proof {
            if self.first {
                self.fields@ = seq![34u8];
            } else {
                self.fields@ = self.fields@ + seq![44u8, 34u8];
            }
            assert(buf.stream() =~= self.base@ + seq![123u8] + self.fields@);
        }
        let was_first = self.first;
        self.first = false;
        match write_name_escaped(buf, key) {
            Ok(()) => {},
            Err(e) => {
                return Err(e);
            },
        }
        let mut sep: Vec<u8> = Vec::new();
        sep.push(34);
        sep.push(58);
        match write_small_lit(buf, &sep) {
            Ok(()) => {},
            Err(e) => {
                return Err(e);
            },
        }
        let r = write_value(buf, v, SuffixKind::MapEntry);
        match r {
            Ok(()) => {
                proof {
                    self.fields@ = self.fields@ + crate::escape::escaped(key.spec_bytes())
                        + seq![34u8, 58u8] + ser_spec(*v)->Ok_0;
                    assert(buf.stream() =~= self.base@ + seq![123u8] + self.fields@ + seq![
                        44u8,
                        34u8,
                    ]);
                    if was_first {
                        assert(self.fields@ =~= old(self).fields@ + Seq::<u8>::empty() + (seq![
                            34u8,
                        ] + crate::escape::escaped(key.spec_bytes()) + seq![34u8, 58u8] + ser_spec(
                            *v,
                        )->Ok_0));
                    } else {
                        assert(self.fields@ =~= old(self).fields@ + seq![44u8] + (seq![34u8]
                            + crate::escape::escaped(key.spec_bytes()) + seq![34u8, 58u8]
                            + ser_spec(*v)->Ok_0));
                    }
                }
                Ok(())
            },
            Err(e) => Err(e),
        }
    }

    /// Close the record: trim the over-emitted suffix — the trailing
    /// comma and quote after fields, the pre-opened quote alone when
    /// empty — then emit `}` and the outer suffix.
    pub fn end<B: BufWrite>(self, buf: &mut B) -> (r: Result<(), Error>)
        requires
            self.wf(old(buf)),
        ensures
            final(buf).inv(),
            final(buf).fallible() == old(buf).fallible(),
            final(buf).small_limit() == old(buf).small_limit(),
            r is Ok ==> final(buf).stream() == self.spec_base() + seq![123u8]
                + self.spec_fields() + seq![125u8] + suffix_bytes(self.spec_suffix()) && final(buf).buffered() >= suffix_bytes(self.spec_suffix()).len(),
            !old(buf).fallible() ==> r is Ok,
            r matches Err(e) ==> e is Io,
    {
        if self.first {
            buf.shrink(1);
        } else {
            buf.shrink(2);
        }
        proof {
            assert(buf.stream() =~= self.base@ + seq![123u8] + self.fields@);
        }
        let r = write_close1(buf, 125, self.suffix);
        proof {
            if r is Ok {
                assert(buf.stream() =~= self.base@ + seq![123u8] + self.fields@ + seq![125u8]
                    + suffix_bytes(self.suffix));
            }
        }
        r
    }
}

/// Turns one scalar value into a map key: the key text and the closing
/// quote-colon, under the pre-opened key quote.
pub struct MapKeySerializer;

impl MapKeySerializer {
    /// Encode a key. Only scalar shapes are accepted; everything else
    /// is refused with `InvalidKey` before any byte is written.
    pub fn serialize<B: BufWrite>(buf: &mut B, k: &Value) -> (r: Result<(), Error>)
        requires
            old(buf).inv(),
        ensures
            final(buf).inv(),
            final(buf).fallible() == old(buf).fallible(),
            final(buf).small_limit() == old(buf).small_limit(),
            r is Ok ==> key_inner(*k) is Ok && final(buf).stream() == old(buf).stream()
                + key_inner(*k)->Ok_0 + seq![34u8, 58u8] && final(buf).buffered() >= 2,
            r matches Err(e) ==> key_inner(*k) == Err::<Seq<u8>, Error>(e) || (e is Io && old(buf).fallible()),
    {
        write_key(buf, k)
    }
}

/// Streams the entries of one JSON map: keys and values alternate, and
/// the close performs the same guarded rollback as a record.
pub struct MapSerializer {
    first: bool,
    suffix: SuffixKind,
    base: Ghost<Seq<u8>>,
    entries: Ghost<Seq<u8>>,
    pending: Ghost<Option<Seq<u8>>>,
}

impl MapSerializer {
    /// The stream contents when the map was opened.
    pub closed spec fn spec_base(&self) -> Seq<u8> {
        self.base@
    }

    /// The encoded entries written so far, joined by commas.
    pub closed spec fn spec_entries(&self) -> Seq<u8> {
        self.entries@
    }

    /// The outer context to finish with.
    pub closed spec fn spec_suffix(&self) -> SuffixKind {
        self.suffix
    }

    /// Whether no entry has been written yet.
    pub closed spec fn spec_first(&self) -> bool {
        self.first
    }

    /// The key text whose value is still owed, if a key was written.
    pub closed spec fn spec_pending(&self) -> Option<Seq<u8>> {
        self.pending@
    }

    /// The wire state between protocol calls.
    pub closed spec fn wf<B: BufWrite>(&self, buf: &B) -> bool {
        &&& buf.inv()
        &&& match self.pending@ {
            None => buf.stream() == self.base@ + seq![123u8] + self.entries@ + (
            if self.first {
                seq![34u8]
            } else {
                seq![44u8, 34u8]
            }) && buf.buffered() >= (if self.first {
                1nat
            } else {
                2nat
            }),
            Some(kb) => buf.stream() == self.base@ + seq![123u8] + self.entries@ + (
            if self.first {
                seq![34u8]
            } else {
                seq![44u8, 34u8]
            }) + kb + seq![34u8, 58u8],
        }
        &&& (self.first ==> self.entries@ == Seq::<u8>::empty())
    }

    /// Open a map: emit `{` and the first key's quote.
    pub fn begin<B: BufWrite>(buf: &mut B, suffix: SuffixKind) -> (r: Result<
        MapSerializer,
        Error,
    >)
        requires
            old(buf).inv(),
        ensures
            final(buf).inv(),
            final(buf).fallible() == old(buf).fallible(),
            final(buf).small_limit() == old(buf).small_limit(),
            r matches Ok(m) ==> m.wf(final(buf)) && m.spec_base() == old(buf).stream()
                && m.spec_entries() == Seq::<u8>::empty() && m.spec_suffix() == suffix
                && m.spec_first() && m.spec_pending() is None,
            !old(buf).fallible() ==> r is Ok,
            r matches Err(e) ==> e is Io,
    {
        let mut open: Vec<u8> = Vec::new();
        open.push(123);
        open.push(34);
        match write_small_lit(buf, &open) {
            Ok(()) => {},
            Err(e) => {
                return Err(e);
            },
        }
        let m = MapSerializer {
            first: true,
            suffix,
            base: Ghost(old(buf).stream()),
            entries: Ghost(Seq::<u8>::empty()),
            pending: Ghost(None),
        };
        proof {
            assert(buf.stream() =~= m.base@ + seq![123u8] + m.entries@ + seq![34u8]);
        }
        Ok(m)
    }

    /// Encode one key under the pre-opened quote.
    pub fn serialize_key<B: BufWrite>(&mut self, buf: &mut B, k: &Value) -> (r: Result<(), Error>)
        requires
            old(self).wf(old(buf)),
            old(self).spec_pending() is None,
        ensures
            final(buf).inv(),
            final(buf).fallible() == old(buf).fallible(),
            final(buf).small_limit() == old(buf).small_limit(),
            r is Ok ==> final(self).wf(final(buf)) && key_inner(*k) is Ok && final(self).spec_pending() == Some(key_inner(*k)->Ok_0) && final(self).spec_base() == old(self).spec_base() && final(self).spec_entries() == old(self).spec_entries() && final(self).spec_suffix() == old(self).spec_suffix() && final(self).spec_first() == old(self).spec_first(),
            r matches Err(e) ==> key_inner(*k) == Err::<Seq<u8>, Error>(e) || (e is Io && old(buf).fallible()),
    {
        let r = write_key(buf, k);
        match r {
            Ok(()) => {
                proof {
                    self.pending@ = Some(key_inner(*k)->Ok_0);
                }
                Ok(())
            },
            Err(e) => Err(e),
        }
    }

    /// Encode the value owed to the last key, under the map-entry
    /// suffix that pre-opens the next key's quote.
    pub fn serialize_value<B: BufWrite>(&mut self, buf: &mut B, v: &Value) -> (r: Result<
        (),
        Error,
    >)
        requires
            old(self).wf(old(buf)),
            old(self).spec_pending() is Some,
        ensures
            final(buf).inv(),
            final(buf).fallible() == old(buf).fallible(),
            final(buf).small_limit() == old(buf).small_limit(),
            r is Ok ==> final(self).wf(final(buf)) && ser_spec(*v) is Ok && final(self).spec_entries() == old(self).spec_entries() + (if old(self).spec_first() {
                Seq::<u8>::empty()
            } else {
                seq![44u8]
            }) + (seq![34u8] + old(self).spec_pending()->0 + seq![34u8, 58u8] + ser_spec(
                *v,
            )->Ok_0) && final(self).spec_base() == old(self).spec_base() && final(self).spec_suffix() == old(self).spec_suffix() && !final(self).spec_first() && final(self).spec_pending() is None,
            r matches Err(e) ==> ser_spec(*v) == Err::<Seq<u8>, Error>(e) || (e is Io && old(buf).fallible()),
    {
        proof {
            let kb = self.pending@->0;
            if self.first {
                self.entries@ = seq![34u8] + kb + seq![34u8, 58u8];
            } else {
                self.entries@ = self.entries@ + seq![44u8, 34u8] + kb + seq![34u8, 58u8];
            }
            self.pending@ = None;
            assert(buf.stream() =~= self.base@ + seq![123u8] + self.entries@);
        }
        let was_first = self.first;
        self.first = false;
        let r = write_value(buf, v, SuffixKind::MapEntry);
        match r {
            Ok(()) => {
                proof {
                    self.entries@ = self.entries@ + ser_spec(*v)->Ok_0;
                    assert(buf.stream() =~= self.base@ + seq![123u8] + self.entries@ + seq![
                        44u8,
                        34u8,
                    ]);
                    if was_first {
                        assert(self.entries@ =~= old(self).entries@ + Seq::<u8>::empty() + (seq![
                            34u8,
                        ] + old(self).pending@->0 + seq![34u8, 58u8] + ser_spec(*v)->Ok_0));
                    } else {
                        assert(self.entries@ =~= old(self).entries@ + seq![44u8] + (seq![34u8]
                            + old(self).pending@->0 + seq![34u8, 58u8] + ser_spec(*v)->Ok_0));
                    }
                }
                Ok(())
            },
            Err(e) => Err(e),
        }
    }

    /// Close the map: the same guarded rollback as a record close.
    pub fn end<B: BufWrite>(self, buf: &mut B) -> (r: Result<(), Error>)
        requires
            self.wf(old(buf)),
            self.spec_pending() is None,
        ensures
            final(buf).inv(),
            final(buf).fallible() == old(buf).fallible(),
            final(buf).small_limit() == old(buf).small_limit(),
            r is Ok ==> final(buf).stream() == self.spec_base() + seq![123u8]
                + self.spec_entries() + seq![125u8] + suffix_bytes(self.spec_suffix()) && final(buf).buffered() >= suffix_bytes(self.spec_suffix()).len(),
            !old(buf).fallible() ==> r is Ok,
            r matches Err(e) ==> e is Io,
    {
        if self.first {
            buf.shrink(1);
        } else {
            buf.shrink(2);
        }
        proof {
            assert(buf.stream() =~= self.base@ + seq![123u8] + self.entries@);
        }
        let r = write_close1(buf, 125, self.suffix);
        proof {
            if r is Ok {
                assert(buf.stream() =~= self.base@ + seq![123u8] + self.entries@ + seq![125u8]
                    + suffix_bytes(self.suffix));
            }
        }
        r
    }
}

} // verus!
