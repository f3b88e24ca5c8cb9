//! A compact, allocation-light JSON encoder, verified with Verus.
//!
//! Structured values are encoded as canonical JSON bytes: booleans and
//! integers in minimal decimal form, strings with a tiered escaping
//! engine, containers with the append-separator-then-trim optimization.

pub mod api;
pub mod bufwrite;
pub mod bufwriter;
pub mod error;
pub mod escape;
pub mod escape_wide;
pub mod float;
pub mod raw;
pub mod records;
pub mod ser;
pub mod suffix;
pub mod value;

pub use api::{to_vec, to_writer};
pub use bufwrite::BufWrite;
pub use bufwriter::{BufWriter, Sink, VecSink};
pub use error::Error;
pub use value::Value;
