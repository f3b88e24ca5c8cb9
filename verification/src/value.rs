//! The tagged-union model of a serializable value, and the exact
//! mathematical description of the JSON bytes each value encodes to.

use crate::error::Error;
use crate::escape::escaped;
use crate::float::{FiniteF32, FiniteF64};
use crate::raw::{bool_bytes, dec_bytes, int_bytes};
use vstd::prelude::*;
use vstd::utf8::{encode_scalar, encode_utf8};

verus! {

/// A serializable value: the tagged union the encoding engine consumes.
///
/// Floats carry their rendered decimal text, or nothing when the
/// original float was not finite; serializing the absent case fails
/// with `NonFiniteFloat`. Map entries keep the caller-supplied order
/// and their keys must be scalar; record fields keep declaration order.
pub enum Value {
    Bool(bool),
    I8(i8),
    I16(i16),
    I32(i32),
    I64(i64),
    I128(i128),
    U8(u8),
    U16(u16),
    U32(u32),
    U64(u64),
    U128(u128),
    F32(Option<FiniteF32>),
    F64(Option<FiniteF64>),
    Char(char),
    Str(String),
    Bytes(Vec<u8>),
    OptionNone,
    OptionSome(Box<Value>),
    Unit,
    Array(Vec<Value>),
    Object(Vec<(Value, Value)>),
    Record(Vec<(String, Value)>),
    UnitVariant(String),
    NewtypeVariant(String, Box<Value>),
    TupleVariant(String, Vec<Value>),
    StructVariant(String, Vec<(String, Value)>),
}

/// The JSON literal for null.
pub open spec fn null_bytes() -> Seq<u8> {
    seq![110u8, 117u8, 108u8, 108u8]
}

/// The quoted, escaped JSON string form of a text.
pub open spec fn string_json(s: Seq<char>) -> Seq<u8> {
    seq![34u8] + escaped(encode_utf8(s)) + seq![34u8]
}

/// Whether a value has a shape the key position accepts.
pub open spec fn scalar_key(k: Value) -> bool {
    match k {
        Value::I8(_) => true,
        Value::I16(_) => true,
        Value::I32(_) => true,
        Value::I64(_) => true,
        Value::I128(_) => true,
        Value::U8(_) => true,
        Value::U16(_) => true,
        Value::U32(_) => true,
        Value::U64(_) => true,
        Value::U128(_) => true,
        Value::F32(_) => true,
        Value::F64(_) => true,
        Value::Char(_) => true,
        Value::Str(_) => true,
        _ => false,
    }
}

/// The bytes a key contributes between its surrounding quotes, or the
/// error the key raises: `InvalidKey` for every non-scalar shape, and
/// `NonFiniteFloat` for an absent finite float.
pub open spec fn key_inner(k: Value) -> Result<Seq<u8>, Error> {
    match k {
        Value::I8(n) => Ok(int_bytes(n as int)),
        Value::I16(n) => Ok(int_bytes(n as int)),
        Value::I32(n) => Ok(int_bytes(n as int)),
        Value::I64(n) => Ok(int_bytes(n as int)),
        Value::I128(n) => Ok(int_bytes(n as int)),
        Value::U8(n) => Ok(int_bytes(n as int)),
        Value::U16(n) => Ok(int_bytes(n as int)),
        Value::U32(n) => Ok(int_bytes(n as int)),
        Value::U64(n) => Ok(int_bytes(n as int)),
        Value::U128(n) => Ok(int_bytes(n as int)),
        Value::F32(of) => match of {
            Some(f) => Ok(f.repr()),
            None => Err(Error::NonFiniteFloat),
        },
        Value::F64(of) => match of {
            Some(f) => Ok(f.repr()),
            None => Err(Error::NonFiniteFloat),
        },
        Value::Char(c) => Ok(escaped(encode_scalar(c as u32))),
        Value::Str(s) => Ok(escaped(encode_utf8(s@))),
        _ => Err(Error::InvalidKey),
    }
}

/// The byte-sequence elements of a byte string rendered as decimal
/// integers joined by commas: the first `n` of them.
pub open spec fn byte_items(bs: Seq<u8>, n: int) -> Seq<u8>
    decreases n,
{
    if n <= 0 {
        seq![]
    } else if n == 1 {
        dec_bytes(bs[0] as nat)
    } else {
        byte_items(bs, n - 1) + seq![44u8] + dec_bytes(bs[n - 1] as nat)
    }
}

/// The encodings of the first `n` elements, joined by commas, or the
/// first error among them in traversal order.
pub open spec fn ser_items(es: Seq<Value>, n: int) -> Result<Seq<u8>, Error>
    decreases es, n,
{
    if n <= 0 || n > es.len() {
        Ok(seq![])
    } else if n == 1 {
        ser_spec(es[0])
    } else {
        match ser_items(es, n - 1) {
            Ok(front) => match ser_spec(es[n - 1]) {
                Ok(item) => Ok(front + seq![44u8] + item),
                Err(e) => Err(e),
            },
            Err(e) => Err(e),
        }
    }
}

/// One map entry: quoted escaped key, colon, value.
pub open spec fn entry_bytes(k: Value, v: Value) -> Result<Seq<u8>, Error>
    decreases v, 1int,
{
    match key_inner(k) {
        Ok(kb) => match ser_spec(v) {
            Ok(vb) => Ok(seq![34u8] + kb + seq![34u8, 58u8] + vb),
            Err(e) => Err(e),
        },
        Err(e) => Err(e),
    }
}

/// The encodings of the first `n` map entries, joined by commas, or
/// the first error among them in traversal order.
pub open spec fn ser_entries(es: Seq<(Value, Value)>, n: int) -> Result<Seq<u8>, Error>
    decreases es, n,
{
    if n <= 0 || n > es.len() {
        Ok(seq![])
    } else if n == 1 {
        entry_bytes(es[0].0, es[0].1)
    } else {
        match ser_entries(es, n - 1) {
            Ok(front) => match entry_bytes(es[n - 1].0, es[n - 1].1) {
                Ok(item) => Ok(front + seq![44u8] + item),
                Err(e) => Err(e),
            },
            Err(e) => Err(e),
        }
    }
}

/// One record field: quoted escaped field name, colon, value.
pub open spec fn field_bytes(name: Seq<char>, v: Value) -> Result<Seq<u8>, Error>
    decreases v, 1int,
{
    match ser_spec(v) {
        Ok(vb) => Ok(seq![34u8] + escaped(encode_utf8(name)) + seq![34u8, 58u8] + vb),
        Err(e) => Err(e),
    }
}

/// The encodings of the first `n` record fields, joined by commas, or
/// the first error among them in traversal order.
pub open spec fn ser_fields(fs: Seq<(String, Value)>, n: int) -> Result<Seq<u8>, Error>
    decreases fs, n,
{
    if n <= 0 || n > fs.len() {
        Ok(seq![])
    } else if n == 1 {
        field_bytes(fs[0].0@, fs[0].1)
    } else {
        match ser_fields(fs, n - 1) {
            Ok(front) => match field_bytes(fs[n - 1].0@, fs[n - 1].1) {
                Ok(item) => Ok(front + seq![44u8] + item),
                Err(e) => Err(e),
            },
            Err(e) => Err(e),
        }
    }
}

/// The exact JSON bytes a value encodes to, or the error that encoding
/// it raises: `NonFiniteFloat` for an absent finite float, `InvalidKey`
/// for a non-scalar map key, each at the first offender in traversal
/// order.
pub open spec fn ser_spec(v: Value) -> Result<Seq<u8>, Error>
    decreases v, 0int,
{
    match v {
        Value::Bool(b) => Ok(bool_bytes(b)),
        Value::I8(n) => Ok(int_bytes(n as int)),
        Value::I16(n) => Ok(int_bytes(n as int)),
        Value::I32(n) => Ok(int_bytes(n as int)),
        Value::I64(n) => Ok(int_bytes(n as int)),
        Value::I128(n) => Ok(int_bytes(n as int)),
        Value::U8(n) => Ok(int_bytes(n as int)),
        Value::U16(n) => Ok(int_bytes(n as int)),
        Value::U32(n) => Ok(int_bytes(n as int)),
        Value::U64(n) => Ok(int_bytes(n as int)),
        Value::U128(n) => Ok(int_bytes(n as int)),
        Value::F32(of) => match of {
            Some(f) => Ok(f.repr()),
            None => Err(Error::NonFiniteFloat),
        },
        Value::F64(of) => match of {
            Some(f) => Ok(f.repr()),
            None => Err(Error::NonFiniteFloat),
        },
        Value::Char(c) => Ok(seq![34u8] + escaped(encode_scalar(c as u32)) + seq![34u8]),
        Value::Str(s) => Ok(string_json(s@)),
        Value::Bytes(bs) => Ok(seq![91u8] + byte_items(bs@, bs@.len() as int) + seq![93u8]),
        Value::OptionNone => Ok(null_bytes()),
        Value::OptionSome(b) => ser_spec(*b),
        Value::Unit => Ok(null_bytes()),
        Value::Array(es) => match ser_items(es@, es@.len() as int) {
            Ok(body) => Ok(seq![91u8] + body + seq![93u8]),
            Err(e) => Err(e),
        },
        Value::Object(es) => match ser_entries(es@, es@.len() as int) {
            Ok(body) => Ok(seq![123u8] + body + seq![125u8]),
            Err(e) => Err(e),
        },
        Value::Record(fs) => match ser_fields(fs@, fs@.len() as int) {
            Ok(body) => Ok(seq![123u8] + body + seq![125u8]),
            Err(e) => Err(e),
        },
        Value::UnitVariant(n) => Ok(string_json(n@)),
        Value::NewtypeVariant(n, b) => match ser_spec(*b) {
            Ok(vb) => Ok(
                seq![123u8, 34u8] + escaped(encode_utf8(n@)) + seq![34u8, 58u8] + vb
                    + seq![125u8],
            ),
            Err(e) => Err(e),
        },
        Value::TupleVariant(n, es) => match ser_items(es@, es@.len() as int) {
            Ok(body) => Ok(
                seq![123u8, 34u8] + escaped(encode_utf8(n@)) + seq![34u8, 58u8, 91u8] + body
                    + seq![93u8, 125u8],
            ),
            Err(e) => Err(e),
        },
        Value::StructVariant(n, fs) => match ser_fields(fs@, fs@.len() as int) {
            Ok(body) => Ok(
                seq![123u8, 34u8] + escaped(encode_utf8(n@)) + seq![34u8, 58u8, 123u8] + body
                    + seq![125u8, 125u8],
            ),
            Err(e) => Err(e),
        },
    }
}

/// Once an element fails, every longer prefix fails with that same
/// first error.
pub proof fn lemma_ser_items_err(es: Seq<Value>, i: int, n: int, e: Error)
    requires
        0 <= i < n <= es.len(),
        ser_items(es, i) is Ok,
        ser_spec(es[i]) == Err::<Seq<u8>, Error>(e),
    ensures
        ser_items(es, n) == Err::<Seq<u8>, Error>(e),
    decreases n,
{
    if n > i + 1 {
        lemma_ser_items_err(es, i, n - 1, e);
    }
}

/// Once a map entry fails, every longer prefix fails with that same
/// first error.
pub proof fn lemma_ser_entries_err(es: Seq<(Value, Value)>, i: int, n: int, e: Error)
    requires
        0 <= i < n <= es.len(),
        ser_entries(es, i) is Ok,
        entry_bytes(es[i].0, es[i].1) == Err::<Seq<u8>, Error>(e),
    ensures
        ser_entries(es, n) == Err::<Seq<u8>, Error>(e),
    decreases n,
{
    if n > i + 1 {
        lemma_ser_entries_err(es, i, n - 1, e);
    }
}

/// Once a record field fails, every longer prefix fails with that same
/// first error.
pub proof fn lemma_ser_fields_err(fs: Seq<(String, Value)>, i: int, n: int, e: Error)
    requires
        0 <= i < n <= fs.len(),
        ser_fields(fs, i) is Ok,
        field_bytes(fs[i].0@, fs[i].1) == Err::<Seq<u8>, Error>(e),
    ensures
        ser_fields(fs, n) == Err::<Seq<u8>, Error>(e),
    decreases n,
{
    if n > i + 1 {
        lemma_ser_fields_err(fs, i, n - 1, e);
    }
}

/// A string key is escaped exactly as the same string would be as a
/// value, and the key position accepts exactly the scalar shapes: a
/// non-scalar key is refused with `InvalidKey`, and among scalar keys
/// only an absent finite float fails, with `NonFiniteFloat`.
pub proof fn lemma_key_escapes_like_value(k: Value)
    ensures
        forall|s: String| k == Value::Str(s) ==> key_inner(k) == Ok::<Seq<u8>, Error>(
            escaped(encode_utf8(s@)),
        ) && ser_spec(k) == Ok::<Seq<u8>, Error>(
            seq![34u8] + escaped(encode_utf8(s@)) + seq![34u8],
        ),
        !scalar_key(k) <==> key_inner(k) == Err::<Seq<u8>, Error>(Error::InvalidKey),
        key_inner(k) == Err::<Seq<u8>, Error>(Error::NonFiniteFloat) <==> (k
            == Value::F32(None::<FiniteF32>) || k == Value::F64(None::<FiniteF64>)),
{
}

/// The length sum of the first `n` encoded elements.
pub open spec fn items_len_sum(es: Seq<Value>, n: int) -> int
    decreases n,
{
    if n <= 0 {
        0
    } else {
        items_len_sum(es, n - 1) + (match ser_spec(es[n - 1]) {
            Ok(b) => b.len() as int,
            Err(_) => 0,
        })
    }
}

/// An encoded sequence of `n` elements consists of the elements'
/// encodings and exactly `n - 1` one-byte separators between them.
pub proof fn lemma_items_separators(es: Seq<Value>, n: int)
    requires
        0 <= n <= es.len(),
        ser_items(es, n) is Ok,
    ensures
        ser_items(es, n)->Ok_0.len() == items_len_sum(es, n) + if n > 0 {
            n - 1
        } else {
            0
        },
    decreases n,
{
    if n > 1 {
        lemma_items_separators(es, n - 1);
    } else if n == 1 {
        assert(items_len_sum(es, 0) == 0);
    }
}

} // verus!
