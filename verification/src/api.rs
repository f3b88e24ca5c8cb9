//! The public encoding entry points.

use crate::bufwrite::BufWrite;
use crate::bufwriter::{BufWriter, Sink};
use crate::error::Error;
use crate::ser::write_value;
use crate::suffix::SuffixKind;
use crate::value::{ser_spec, Value};
use vstd::prelude::*;

verus! {

/// Encode a value as compact JSON bytes.
///
/// Returns exactly the value's JSON encoding, or exactly the value's
/// own first error: `NonFiniteFloat` for an absent finite float,
/// `InvalidKey` for a non-scalar map key, and nothing else.
pub fn to_vec(value: &Value) -> (r: Result<Vec<u8>, Error>)
    ensures
        match r {
            Ok(bytes) => ser_spec(*value) is Ok && bytes@ == ser_spec(*value)->Ok_0,
            Err(e) => ser_spec(*value) == Err::<Seq<u8>, Error>(e),
        },
{
    let mut out: Vec<u8> = Vec::new();
    match write_value(&mut out, value, SuffixKind::Root) {
        Ok(()) => {
            proof {
                assert(out@ =~= ser_spec(*value)->Ok_0);
            }
            Ok(out)
        },
        Err(e) => Err(e),
    }
}

/// Encode a value as compact JSON onto a downstream sink, buffering
/// through a relay buffer. Whatever buffered bytes remain are
/// forwarded when the call ends, on every exit path; bytes already
/// forwarded before a failure are not retracted.
pub fn to_writer<S: Sink>(sink: S, value: &Value) -> (r: (S, Result<(), Error>))
    ensures
        r.1 is Ok ==> ser_spec(*value) is Ok && r.0.sunk() == sink.sunk()
            + ser_spec(*value)->Ok_0,
        r.1 matches Err(e) ==> ser_spec(*value) == Err::<Seq<u8>, Error>(e) || e is Io,
        sink.infallible() ==> (r.1 matches Err(e) ==> ser_spec(*value) == Err::<Seq<u8>, Error>(
            e,
        )),
{
    let mut writer = BufWriter::new(sink);
    let wr = write_value(&mut writer, value, SuffixKind::Root);
    let (sink, fr) = writer.into_sink();
    match wr {
        Ok(()) => (sink, fr),
        Err(e) => (sink, Err(e)),
    }
}

} // verus!
