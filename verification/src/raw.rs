//! Raw (unquoted) rendering of booleans and integers as canonical ASCII,
//! together with the mathematical model of canonical decimal text.

use vstd::arithmetic::div_mod::{
    lemma_div_decreases, lemma_div_is_strictly_smaller, lemma_fundamental_div_mod,
    lemma_mod_division_less_than_divisor,
};
use vstd::string::StringSliceAdditionalSpecFns;
use vstd::prelude::*;

verus! {

/// The canonical decimal digits of a natural number: no leading zeros,
/// a single `0` for zero.
pub open spec fn dec_bytes(n: nat) -> Seq<u8>
    decreases n,
{
    if n < 10 {
        seq![(48 + n) as u8]
    } else {
        dec_bytes(n / 10).push((48 + n % 10) as u8)
    }
}

/// The canonical decimal text of an integer: a single leading `-` for
/// negative values, the canonical digits of the magnitude.
pub open spec fn int_bytes(i: int) -> Seq<u8> {
    if i < 0 {
        seq![45u8] + dec_bytes((-i) as nat)
    } else {
        dec_bytes(i as nat)
    }
}

/// The JSON literal for a boolean.
pub open spec fn bool_bytes(b: bool) -> Seq<u8> {
    if b {
        seq![116u8, 114u8, 117u8, 101u8]
    } else {
        seq![102u8, 97u8, 108u8, 115u8, 101u8]
    }
}

/// The numeric value a digit string denotes.
pub open spec fn dec_val(s: Seq<u8>) -> int
    decreases s.len(),
{
    if s.len() == 0 {
        0
    } else {
        dec_val(s.drop_last()) * 10 + s.last() - 48
    }
}

/// The numeric value a canonical integer text denotes.
pub open spec fn int_val(s: Seq<u8>) -> int {
    if s.len() > 0 && s[0] == 45 {
        -dec_val(s.skip(1))
    } else {
        dec_val(s)
    }
}

/// Ten to the given power.
pub open spec fn pow10(k: nat) -> nat
    decreases k,
{
    if k == 0 {
        1
    } else {
        10 * pow10((k - 1) as nat)
    }
}

/// The canonical digits of a number parse back to that number, use only
/// ASCII digits, and carry no leading zero: the decimal form is minimal.
pub proof fn lemma_dec_bytes_canonical(n: nat)
    ensures
        dec_val(dec_bytes(n)) == n,
        dec_bytes(n).len() >= 1,
        forall|i: int| 0 <= i < dec_bytes(n).len() ==> 48 <= #[trigger] dec_bytes(n)[i] <= 57,
        n > 0 ==> dec_bytes(n)[0] != 48,
        n < 10 ==> dec_bytes(n) =~= seq![(48 + n) as u8],
    decreases n,
{
    if n < 10 {
        assert(dec_val(dec_bytes(n)) == dec_val(seq![(48 + n) as u8]));
        assert(dec_val(seq![(48 + n) as u8].drop_last()) == 0);
    } else {
        lemma_div_decreases(n as int, 10);
        lemma_mod_division_less_than_divisor(n as int, 10);
        lemma_fundamental_div_mod(n as int, 10);
        lemma_dec_bytes_canonical(n / 10);
        let s = dec_bytes(n);
        assert(s.drop_last() =~= dec_bytes(n / 10));
        assert(n / 10 > 0) by {
            lemma_div_is_strictly_smaller(n as int, 10);
            if n / 10 == 0 {
                assert(n == 10 * (n / 10) + n % 10);
            }
        }
        assert(s[0] == dec_bytes(n / 10)[0]);
    }
}

/// The canonical text of an integer parses back to that integer; the sign
/// is a single leading `-` on negative values only, and the magnitude
/// carries no leading zero.
pub proof fn lemma_int_bytes_canonical(i: int)
    ensures
        int_val(int_bytes(i)) == i,
        int_bytes(i).len() >= 1,
        i >= 0 ==> int_bytes(i)[0] != 45,
        i < 0 ==> int_bytes(i)[0] == 45 && forall|j: int|
            1 <= j < int_bytes(i).len() ==> #[trigger] int_bytes(i)[j] != 45,
        i != 0 ==> int_bytes(i)[0] != 48,
        i < 0 ==> int_bytes(i)[1] != 48,
{
    if i < 0 {
        lemma_dec_bytes_canonical((-i) as nat);
        assert(int_bytes(i).skip(1) =~= dec_bytes((-i) as nat));
    } else {
        lemma_dec_bytes_canonical(i as nat);
    }
}

/// Digit strings within the given length bound denote values below the
/// matching power of ten.
pub proof fn lemma_dec_bytes_len(n: nat, k: nat)
    requires
        k >= 1,
        n < pow10(k),
    ensures
        dec_bytes(n).len() <= k,
    decreases k,
{
    if n >= 10 {
        lemma_fundamental_div_mod(n as int, 10);
        lemma_mod_division_less_than_divisor(n as int, 10);
        assert(k >= 2) by {
            if k == 1 {
                reveal_with_fuel(pow10, 2);
                assert(pow10(1) == 10);
            }
        }
        assert(n / 10 < pow10((k - 1) as nat)) by {
            assert(pow10(k) == 10 * pow10((k - 1) as nat));
            assert(n == 10 * (n / 10) + n % 10);
        }
        lemma_dec_bytes_len(n / 10, (k - 1) as nat);
    }
}

/// Append each byte of a slice to the output vector.
pub fn append_bytes(out: &mut Vec<u8>, data: &[u8])
    ensures
        final(out)@ == old(out)@ + data@,
{
    let n = data.len();
    let mut i: usize = 0;
    while i < n
        invariant
            i <= n,
            n == data@.len(),
            out@ == old(out)@ + data@.take(i as int),
        decreases n - i,
    {
        out.push(data[i]);
        i = i + 1;
        assert(out@ =~= old(out)@ + data@.take(i as int));
    }
    assert(out@ =~= old(out)@ + data@);
}

/// Append the canonical digits of an unsigned value.
pub fn write_u128_digits(n: u128, out: &mut Vec<u8>)
    ensures
        final(out)@ == old(out)@ + dec_bytes(n as nat),
    decreases n,
{
    if n >= 10 {
        proof {
            lemma_div_decreases(n as int, 10);
        }
        write_u128_digits(n / 10, out);
    }
    proof {
        lemma_mod_division_less_than_divisor(n as int, 10);
    }
    out.push((n % 10) as u8 + 48);
    proof {
        assert(out@ =~= old(out)@ + dec_bytes(n as nat));
    }
}

/// Append the canonical decimal text of a signed value.
pub fn write_i128_text(i: i128, out: &mut Vec<u8>)
    ensures
        final(out)@ == old(out)@ + int_bytes(i as int),
{
    if i < 0 {
        out.push(45);
        let m: u128 = ((-(i + 1)) as u128) + 1;
        assert(m == -(i as int));
        write_u128_digits(m, out);
        assert(out@ =~= old(out)@ + int_bytes(i as int));
    } else {
        write_u128_digits(i as u128, out);
    }
}


/// The numeric values of each power of ten that bounds a supported
/// integer width.
proof fn lemma_pow10_values()
    ensures
        pow10(3) == 0x3e8,
        pow10(5) == 0x186a0,
        pow10(10) == 0x2540be400,
        pow10(19) == 0x8ac7230489e80000,
        pow10(20) == 0x56bc75e2d63100000,
        pow10(39) == 0x2f050fe938943acc45f65568000000000,
{
    reveal_with_fuel(pow10, 40);
}

/// The rendered length of an integer whose magnitude lies below the
/// given power of ten.
pub proof fn lemma_int_bytes_len(i: int, k: nat)
    requires
        k >= 1,
        -pow10(k) < i < pow10(k),
    ensures
        int_bytes(i).len() <= k + 1,
        i >= 0 ==> int_bytes(i).len() <= k,
{
    if i < 0 {
        lemma_dec_bytes_len((-i) as nat, k);
    } else {
        lemma_dec_bytes_len(i as nat, k);
    }
}

/// Every integer of a supported width renders to at most 40 bytes.
pub proof fn lemma_int_bytes_small(i: int)
    requires
        -0x80000000000000000000000000000000 <= i <= 0xffffffffffffffffffffffffffffffff,
    ensures
        int_bytes(i).len() <= 40,
{
    lemma_pow10_values();
    lemma_int_bytes_len(i, 39);
}

impl SerializeRaw for u8 {
    open spec fn raw_bytes(&self) -> Seq<u8> {
        int_bytes(*self as int)
    }

    fn size_hint(&self) -> (r: usize)
        ensures
            self.raw_bytes().len() <= r,
    {
        proof {
            lemma_pow10_values();
            lemma_int_bytes_len(*self as int, 3);
        }
        3
    }

    fn write_to(&self, out: &mut Vec<u8>)
        ensures
            final(out)@ == old(out)@ + self.raw_bytes(),
    {
        write_u128_digits(*self as u128, out);
    }
}

impl SerializeRaw for u16 {
    open spec fn raw_bytes(&self) -> Seq<u8> {
        int_bytes(*self as int)
    }

    fn size_hint(&self) -> (r: usize)
        ensures
            self.raw_bytes().len() <= r,
    {
        proof {
            lemma_pow10_values();
            lemma_int_bytes_len(*self as int, 5);
        }
        5
    }

    fn write_to(&self, out: &mut Vec<u8>)
        ensures
            final(out)@ == old(out)@ + self.raw_bytes(),
    {
        write_u128_digits(*self as u128, out);
    }
}

impl SerializeRaw for u32 {
    open spec fn raw_bytes(&self) -> Seq<u8> {
        int_bytes(*self as int)
    }

    fn size_hint(&self) -> (r: usize)
        ensures
            self.raw_bytes().len() <= r,
    {
        proof {
            lemma_pow10_values();
            lemma_int_bytes_len(*self as int, 10);
        }
        10
    }

    fn write_to(&self, out: &mut Vec<u8>)
        ensures
            final(out)@ == old(out)@ + self.raw_bytes(),
    {
        write_u128_digits(*self as u128, out);
    }
}

impl SerializeRaw for u64 {
    open spec fn raw_bytes(&self) -> Seq<u8> {
        int_bytes(*self as int)
    }

    fn size_hint(&self) -> (r: usize)
        ensures
            self.raw_bytes().len() <= r,
    {
        proof {
            lemma_pow10_values();
            lemma_int_bytes_len(*self as int, 20);
        }
        20
    }

    fn write_to(&self, out: &mut Vec<u8>)
        ensures
            final(out)@ == old(out)@ + self.raw_bytes(),
    {
        write_u128_digits(*self as u128, out);
    }
}

impl SerializeRaw for u128 {
    open spec fn raw_bytes(&self) -> Seq<u8> {
        int_bytes(*self as int)
    }

    fn size_hint(&self) -> (r: usize)
        ensures
            self.raw_bytes().len() <= r,
    {
        proof {
            lemma_pow10_values();
            lemma_int_bytes_len(*self as int, 39);
        }
        39
    }

    fn write_to(&self, out: &mut Vec<u8>)
        ensures
            final(out)@ == old(out)@ + self.raw_bytes(),
    {
        write_u128_digits(*self as u128, out);
    }
}

impl SerializeRaw for i8 {
    open spec fn raw_bytes(&self) -> Seq<u8> {
        int_bytes(*self as int)
    }

    fn size_hint(&self) -> (r: usize)
        ensures
            self.raw_bytes().len() <= r,
    {
        proof {
            lemma_pow10_values();
            lemma_int_bytes_len(*self as int, 3);
        }
        4
    }

    fn write_to(&self, out: &mut Vec<u8>)
        ensures
            final(out)@ == old(out)@ + self.raw_bytes(),
    {
        write_i128_text(*self as i128, out);
    }
}

impl SerializeRaw for i16 {
    open spec fn raw_bytes(&self) -> Seq<u8> {
        int_bytes(*self as int)
    }

    fn size_hint(&self) -> (r: usize)
        ensures
            self.raw_bytes().len() <= r,
    {
        proof {
            lemma_pow10_values();
            lemma_int_bytes_len(*self as int, 5);
        }
        6
    }

    fn write_to(&self, out: &mut Vec<u8>)
        ensures
            final(out)@ == old(out)@ + self.raw_bytes(),
    {
        write_i128_text(*self as i128, out);
    }
}

impl SerializeRaw for i32 {
    open spec fn raw_bytes(&self) -> Seq<u8> {
        int_bytes(*self as int)
    }

    fn size_hint(&self) -> (r: usize)
        ensures
            self.raw_bytes().len() <= r,
    {
        proof {
            lemma_pow10_values();
            lemma_int_bytes_len(*self as int, 10);
        }
        11
    }

    fn write_to(&self, out: &mut Vec<u8>)
        ensures
            final(out)@ == old(out)@ + self.raw_bytes(),
    {
        write_i128_text(*self as i128, out);
    }
}

impl SerializeRaw for i64 {
    open spec fn raw_bytes(&self) -> Seq<u8> {
        int_bytes(*self as int)
    }

    fn size_hint(&self) -> (r: usize)
        ensures
            self.raw_bytes().len() <= r,
    {
        proof {
            lemma_pow10_values();
            lemma_int_bytes_len(*self as int, 19);
        }
        20
    }

    fn write_to(&self, out: &mut Vec<u8>)
        ensures
            final(out)@ == old(out)@ + self.raw_bytes(),
    {
        write_i128_text(*self as i128, out);
    }
}

impl SerializeRaw for i128 {
    open spec fn raw_bytes(&self) -> Seq<u8> {
        int_bytes(*self as int)
    }

    fn size_hint(&self) -> (r: usize)
        ensures
            self.raw_bytes().len() <= r,
    {
        proof {
            lemma_pow10_values();
            lemma_int_bytes_len(*self as int, 39);
        }
        40
    }

    fn write_to(&self, out: &mut Vec<u8>)
        ensures
            final(out)@ == old(out)@ + self.raw_bytes(),
    {
        write_i128_text(*self as i128, out);
    }
}

/// A value with a fixed-form raw rendering: booleans, integers, and
/// text already known to need no quoting or escaping.
pub trait SerializeRaw {
    /// The exact bytes this value renders to.
    spec fn raw_bytes(&self) -> Seq<u8>;

    /// An upper bound on the rendered length, cheap to compute.
    fn size_hint(&self) -> (r: usize)
        ensures
            self.raw_bytes().len() <= r,
    ;

    /// Append the rendering to the output vector.
    fn write_to(&self, out: &mut Vec<u8>)
        ensures
            final(out)@ == old(out)@ + self.raw_bytes(),
    ;
}

/// Text that is emitted verbatim, with no quoting and no escape scan.
pub struct RawStr<'a>(pub &'a str);

impl<'a> SerializeRaw for RawStr<'a> {
    open spec fn raw_bytes(&self) -> Seq<u8> {
        self.0.spec_bytes()
    }

    fn size_hint(&self) -> (r: usize)
        ensures
            self.raw_bytes().len() <= r,
    {
        self.0.as_bytes().len()
    }

    fn write_to(&self, out: &mut Vec<u8>)
        ensures
            final(out)@ == old(out)@ + self.raw_bytes(),
    {
        append_bytes(out, self.0.as_bytes());
    }
}

impl SerializeRaw for bool {
    open spec fn raw_bytes(&self) -> Seq<u8> {
        bool_bytes(*self)
    }

    fn size_hint(&self) -> (r: usize)
        ensures
            self.raw_bytes().len() <= r,
    {
        5
    }

    fn write_to(&self, out: &mut Vec<u8>)
        ensures
            final(out)@ == old(out)@ + self.raw_bytes(),
    {
        if *self {
            out.push(116);
            out.push(114);
            out.push(117);
            out.push(101);
        } else {
            out.push(102);
            out.push(97);
            out.push(108);
            out.push(115);
            out.push(101);
        }
        assert(out@ =~= old(out)@ + bool_bytes(*self));
    }
}

} // verus!
