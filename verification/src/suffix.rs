//! The nesting context of the element being written, and the trailing
//! bytes it appends after every element.
//!
//! Every element is written followed immediately by the bytes of its
//! context's suffix: nothing at the root, `,` between sequence
//! elements, and `,"` between map or record entries (the next key's
//! opening quote comes along for free). A container trims the one
//! over-emitted suffix when it closes.

use crate::raw::SerializeRaw;
use vstd::prelude::*;

verus! {

/// The nesting context of the element being written.
#[derive(Clone, Copy, PartialEq, Eq, Structural, Debug)]
pub enum SuffixKind {
    Root,
    SeqElement,
    MapEntry,
}

/// The bytes a context appends after each element.
pub open spec fn suffix_bytes(k: SuffixKind) -> Seq<u8> {
    match k {
        SuffixKind::Root => seq![],
        SuffixKind::SeqElement => seq![44u8],
        SuffixKind::MapEntry => seq![44u8, 34u8],
    }
}

/// A nesting context as a raw-writable value.
pub struct RawSuffix(pub SuffixKind);

impl SerializeRaw for RawSuffix {
    open spec fn raw_bytes(&self) -> Seq<u8> {
        suffix_bytes(self.0)
    }

    fn size_hint(&self) -> (r: usize) {
        match self.0 {
            SuffixKind::Root => 0,
            SuffixKind::SeqElement => 1,
            SuffixKind::MapEntry => 2,
        }
    }

    fn write_to(&self, out: &mut Vec<u8>) {
        match self.0 {
            SuffixKind::Root => {},
            SuffixKind::SeqElement => {
                out.push(44);
            },
            SuffixKind::MapEntry => {
                out.push(44);
                out.push(34);
            },
        }
        assert(out@ =~= old(out)@ + suffix_bytes(self.0));
    }
}

/// A type-level name for a nesting context.
pub trait Suffix {
    /// The suffix bytes of this context.
    spec fn spec_suffix() -> Seq<u8>;

    /// The context as a value.
    fn kind() -> (k: SuffixKind)
        ensures
            suffix_bytes(k) == Self::spec_suffix(),
    ;
}

/// The root context: elements get no suffix.
pub struct RootSuffix;

/// The sequence-element context: elements get a trailing comma.
pub struct SeqSuffix;

/// The map-entry context: entries get a trailing comma plus the next
/// key's opening quote.
pub struct MapSuffix;

impl Suffix for RootSuffix {
    open spec fn spec_suffix() -> Seq<u8> {
        seq![]
    }

    fn kind() -> (k: SuffixKind) {
        SuffixKind::Root
    }
}

impl Suffix for SeqSuffix {
    open spec fn spec_suffix() -> Seq<u8> {
        seq![44u8]
    }

    fn kind() -> (k: SuffixKind) {
        SuffixKind::SeqElement
    }
}

impl Suffix for MapSuffix {
    open spec fn spec_suffix() -> Seq<u8> {
        seq![44u8, 34u8]
    }

    fn kind() -> (k: SuffixKind) {
        SuffixKind::MapEntry
    }
}

} // verus!
