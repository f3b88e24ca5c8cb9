//! Finite floats, represented by their rendered decimal text.
//!
//! Only finite values are representable here: the non-finite case is
//! rejected at value-construction time by producing no value at all.
//! The caller renders a finite float to its shortest round-trip decimal
//! text and hands the bytes over; the engine emits them verbatim.

use crate::raw::SerializeRaw;
use vstd::prelude::*;

verus! {

/// Bytes that may appear in rendered decimal float text.
pub open spec fn is_number_byte(b: u8) -> bool {
    (48 <= b <= 57) || b == 45 || b == 43 || b == 46 || b == 101 || b == 69
}

/// The position after the run of decimal digits starting at `i`.
pub open spec fn scan_digits(s: Seq<u8>, i: int) -> int
    decreases s.len() - i,
{
    if 0 <= i < s.len() && 48 <= s[i] <= 57 {
        scan_digits(s, i + 1)
    } else {
        i
    }
}

/// A well-formed exponent part covering the rest of the text: `e` or
/// `E`, an optional sign, one or more digits.
pub open spec fn exponent_part(s: Seq<u8>, i: int) -> bool {
    if 0 <= i < s.len() && (s[i] == 101 || s[i] == 69) {
        let j = if i + 1 < s.len() && (s[i + 1] == 43 || s[i + 1] == 45) {
            i + 2
        } else {
            i + 1
        };
        let k = scan_digits(s, j);
        k > j && k == s.len()
    } else {
        false
    }
}

/// The decimal number grammar: an optional minus, one or more integer
/// digits, an optional fraction of one or more digits, an optional
/// exponent, covering the whole text.
pub open spec fn is_json_number(s: Seq<u8>) -> bool {
    if s.len() == 0 {
        false
    } else {
        let i0: int = if s[0] == 45 {
            1
        } else {
            0
        };
        let i1 = scan_digits(s, i0);
        if i1 == i0 {
            false
        } else if i1 == s.len() {
            true
        } else if s[i1] == 46 {
            let i2 = scan_digits(s, i1 + 1);
            if i2 == i1 + 1 {
                false
            } else if i2 == s.len() {
                true
            } else {
                exponent_part(s, i2)
            }
        } else {
            exponent_part(s, i1)
        }
    }
}

/// The shape every stored float text has: decimal number text bounded
/// by the given length. Such text never contains a quote, a backslash,
/// a control byte, or a separator, so it can stand bare in JSON output.
pub open spec fn number_text(s: Seq<u8>, max: nat) -> bool {
    is_json_number(s) && s.len() <= max
}

/// Digit runs contain digits and end where scanning says.
proof fn lemma_scan_digits(s: Seq<u8>, i: int)
    requires
        0 <= i <= s.len(),
    ensures
        i <= scan_digits(s, i) <= s.len(),
        forall|j: int| i <= j < scan_digits(s, i) ==> 48 <= #[trigger] s[j] <= 57,
        scan_digits(s, i) < s.len() ==> !(48 <= s[scan_digits(s, i)] <= 57),
    decreases s.len() - i,
{
    if i < s.len() && 48 <= s[i] <= 57 {
        lemma_scan_digits(s, i + 1);
    }
}

/// Decimal number text consists of number bytes alone, and so never
/// needs escaping.
pub proof fn lemma_json_number_clean(s: Seq<u8>)
    requires
        is_json_number(s),
    ensures
        s.len() >= 1,
        forall|i: int| 0 <= i < s.len() ==> is_number_byte(#[trigger] s[i]),
        forall|i: int| 0 <= i < s.len() ==> !crate::escape::must_escape(#[trigger] s[i]),
        crate::escape::escaped(s) == s,
{
    let i0: int = if s[0] == 45 {
        1
    } else {
        0
    };
    let i1 = scan_digits(s, i0);
    lemma_scan_digits(s, i0);
    if i1 < s.len() && s[i1] == 46 {
        let i2 = scan_digits(s, i1 + 1);
        lemma_scan_digits(s, i1 + 1);
        if i2 < s.len() {
            lemma_exponent_clean(s, i2);
        }
    } else if i1 < s.len() {
        lemma_exponent_clean(s, i1);
    }
    assert forall|i: int| 0 <= i < s.len() implies is_number_byte(#[trigger] s[i]) by {}
    assert forall|i: int|
        0 <= i < s.len() implies !crate::escape::must_escape(#[trigger] s[i]) by {}
    crate::escape::lemma_escaped_clean(s);
}

/// The bytes of a well-formed exponent part are number bytes.
proof fn lemma_exponent_clean(s: Seq<u8>, i: int)
    requires
        0 <= i <= s.len(),
        exponent_part(s, i),
    ensures
        forall|j: int| i <= j < s.len() ==> is_number_byte(#[trigger] s[j]),
{
    let j = if i + 1 < s.len() && (s[i + 1] == 43 || s[i + 1] == 45) {
        i + 2
    } else {
        i + 1
    };
    lemma_scan_digits(s, j);
}

/// The position after the run of decimal digits starting at `from`.
fn scan_digits_exec(t: &[u8], from: usize) -> (r: usize)
    requires
        from <= t@.len(),
    ensures
        r == scan_digits(t@, from as int),
        from <= r <= t@.len(),
{
    let n = t.len();
    let mut i = from;
    while i < n && 48 <= t[i] && t[i] <= 57
        invariant
            from <= i <= n,
            n == t@.len(),
            scan_digits(t@, from as int) == scan_digits(t@, i as int),
        decreases n - i,
    {
        i = i + 1;
    }
    i
}

/// Check the stored-text shape for a byte slice.
fn check_number_text(t: &[u8], max: usize) -> (r: bool)
    ensures
        r == number_text(t@, max as nat),
{
    let n = t.len();
    if n == 0 || n > max {
        return false;
    }
    let i0: usize = if t[0] == 45 {
        1
    } else {
        0
    };
    let i1 = scan_digits_exec(t, i0);
    if i1 == i0 {
        return false;
    }
    if i1 == n {
        return true;
    }
    let i2 = if t[i1] == 46 {
        let after = scan_digits_exec(t, i1 + 1);
        if after == i1 + 1 {
            return false;
        }
        after
    } else {
        i1
    };
    if i2 == n {
        return t[i1] == 46;
    }
    if !(t[i2] == 101 || t[i2] == 69) {
        return false;
    }
    let j = if i2 + 1 < n && (t[i2 + 1] == 43 || t[i2 + 1] == 45) {
        i2 + 2
    } else {
        i2 + 1
    };
    let k = scan_digits_exec(t, j);
    k > j && k == n
}

/// The decimal text of a finite 32-bit float, at most 16 bytes.
pub struct FiniteF32 {
    text: Vec<u8>,
}

/// The decimal text of a finite 64-bit float, at most 24 bytes.
pub struct FiniteF64 {
    text: Vec<u8>,
}

impl FiniteF32 {
    /// The stored decimal text.
    pub closed spec fn repr(&self) -> Seq<u8> {
        self.text@
    }

    /// The stored-text shape, maintained as a type invariant.
    #[verifier::type_invariant]
    pub closed spec fn inv(&self) -> bool {
        number_text(self.text@, 16)
    }

    /// The stored text is nonempty, short, and never needs escaping.
    pub proof fn repr_facts(&self)
        requires
            self.inv(),
        ensures
            1 <= self.repr().len() <= 16,
            crate::escape::escaped(self.repr()) == self.repr(),
    {
        lemma_json_number_clean(self.text@);
    }

    /// Accept rendered float text of the right shape; reject the rest.
    /// A renderer's shortest round-trip output for a finite 32-bit
    /// float is always accepted.
    pub fn from_text(t: &[u8]) -> (r: Option<FiniteF32>)
        ensures
            match r {
                Some(f) => f.repr() == t@ && number_text(t@, 16),
                None => !number_text(t@, 16),
            },
    {
        if check_number_text(t, 16) {
            let mut text: Vec<u8> = Vec::new();
            crate::raw::append_bytes(&mut text, t);
            Some(FiniteF32 { text })
        } else {
            None
        }
    }
}

impl FiniteF64 {
    /// The stored decimal text.
    pub closed spec fn repr(&self) -> Seq<u8> {
        self.text@
    }

    /// The stored-text shape, maintained as a type invariant.
    #[verifier::type_invariant]
    pub closed spec fn inv(&self) -> bool {
        number_text(self.text@, 24)
    }

    /// The stored text is nonempty, short, and never needs escaping.
    pub proof fn repr_facts(&self)
        requires
            self.inv(),
        ensures
            1 <= self.repr().len() <= 24,
            crate::escape::escaped(self.repr()) == self.repr(),
    {
        lemma_json_number_clean(self.text@);
    }

    /// Accept rendered float text of the right shape; reject the rest.
    /// A renderer's shortest round-trip output for a finite 64-bit
    /// float is always accepted.
    pub fn from_text(t: &[u8]) -> (r: Option<FiniteF64>)
        ensures
            match r {
                Some(f) => f.repr() == t@ && number_text(t@, 24),
                None => !number_text(t@, 24),
            },
    {
        if check_number_text(t, 24) {
            let mut text: Vec<u8> = Vec::new();
            crate::raw::append_bytes(&mut text, t);
            Some(FiniteF64 { text })
        } else {
            None
        }
    }
}

impl SerializeRaw for FiniteF32 {
    open spec fn raw_bytes(&self) -> Seq<u8> {
        self.repr()
    }

    fn size_hint(&self) -> (r: usize) {
        proof {
            use_type_invariant(self);
        }
        16
    }

    fn write_to(&self, out: &mut Vec<u8>) {
        crate::raw::append_bytes(out, self.text.as_slice());
    }
}

impl SerializeRaw for FiniteF64 {
    open spec fn raw_bytes(&self) -> Seq<u8> {
        self.repr()
    }

    fn size_hint(&self) -> (r: usize) {
        proof {
            use_type_invariant(self);
        }
        24
    }

    fn write_to(&self, out: &mut Vec<u8>) {
        crate::raw::append_bytes(out, self.text.as_slice());
    }
}


/// A finite float value, known by its rendered decimal text and the
/// fixed upper bound of that text's length.
pub trait FiniteFloat {
    /// The rendered decimal text.
    spec fn float_repr(&self) -> Seq<u8>;

    /// The longest text the width can render to.
    spec fn spec_max_len() -> nat;

    /// The rendered text, never longer than the width's bound.
    fn text(&self) -> (r: &[u8])
        ensures
            r@ == self.float_repr(),
            r@.len() <= Self::spec_max_len(),
    ;
}

impl FiniteFloat for FiniteF32 {
    open spec fn float_repr(&self) -> Seq<u8> {
        self.repr()
    }

    open spec fn spec_max_len() -> nat {
        16
    }

    fn text(&self) -> (r: &[u8]) {
        proof {
            use_type_invariant(self);
        }
        self.text.as_slice()
    }
}

impl FiniteFloat for FiniteF64 {
    open spec fn float_repr(&self) -> Seq<u8> {
        self.repr()
    }

    open spec fn spec_max_len() -> nat {
        24
    }

    fn text(&self) -> (r: &[u8]) {
        proof {
            use_type_invariant(self);
        }
        self.text.as_slice()
    }
}

} // verus!
