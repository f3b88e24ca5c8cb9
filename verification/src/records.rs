//! Ready-made record types for encoding benchmarks and tests, with
//! their shapes as serializable values.

use crate::value::Value;
use vstd::prelude::*;

verus! {

/// An always-empty payload: encodes as the empty JSON array.
#[derive(Clone, Copy)]
pub struct Empty;

/// Whether a value is the encoding shape of `Empty`.
pub open spec fn is_empty_value(v: Value) -> bool {
    match v {
        Value::Array(es) => es@.len() == 0,
        _ => false,
    }
}

impl Empty {
    /// The serializable shape: an empty sequence.
    pub fn to_value(&self) -> (r: Value)
        ensures
            is_empty_value(r),
    {
        Value::Array(Vec::new())
    }
}

/// The uppercase hexadecimal digit for a value below sixteen.
pub open spec fn hex_upper(d: u32) -> u8 {
    if d < 10 {
        (48 + d) as u8
    } else {
        (55 + d) as u8
    }
}

/// The six uppercase hex digits of a color's low 24 bits.
pub open spec fn color_chars(c: u32) -> Seq<u8> {
    seq![
        hex_upper((c >> 20) & 0xF),
        hex_upper((c >> 16) & 0xF),
        hex_upper((c >> 12) & 0xF),
        hex_upper((c >> 8) & 0xF),
        hex_upper((c >> 4) & 0xF),
        hex_upper(c & 0xF),
    ]
}

/// A 24-bit RGB color, encoded as a six-digit uppercase hex string.
#[derive(Clone, Copy)]
pub struct Color(u32);

impl Color {
    /// A color from its packed 24-bit value.
    pub fn new(c: u32) -> (r: Color)
        ensures
            r.rgb() == c,
    {
        Color(c)
    }

    /// The packed value.
    pub closed spec fn rgb(&self) -> u32 {
        self.0
    }

    /// The six hex digits of the color text.
    pub fn as_text(&self) -> (r: Vec<u8>)
        ensures
            r@ == color_chars(self.rgb()),
    {
        let c = self.0;
        let d0 = ((c >> 20) & 0xF) as u32;
        let d1 = ((c >> 16) & 0xF) as u32;
        let d2 = ((c >> 12) & 0xF) as u32;
        let d3 = ((c >> 8) & 0xF) as u32;
        let d4 = ((c >> 4) & 0xF) as u32;
        let d5 = (c & 0xF) as u32;
        proof {
            assert((c >> 20) & 0xF < 16 && (c >> 16) & 0xF < 16 && (c >> 12) & 0xF < 16 && (c
                >> 8) & 0xF < 16 && (c >> 4) & 0xF < 16 && c & 0xF < 16) by (bit_vector);
        }
        let mut out: Vec<u8> = Vec::new();
        out.push(hex_upper_digit(d0));
        out.push(hex_upper_digit(d1));
        out.push(hex_upper_digit(d2));
        out.push(hex_upper_digit(d3));
        out.push(hex_upper_digit(d4));
        out.push(hex_upper_digit(d5));
        assert(out@ =~= color_chars(self.0));
        out
    }

    /// The color's JSON text: the hex digits in quotes. None of the
    /// digits ever needs escaping.
    pub fn to_json(&self) -> (r: Vec<u8>)
        ensures
            r@ == seq![34u8] + color_chars(self.rgb()) + seq![34u8],
    {
        let mut out: Vec<u8> = Vec::new();
        out.push(34);
        let text = self.as_text();
        crate::raw::append_bytes(&mut out, text.as_slice());
        out.push(34);
        assert(out@ =~= seq![34u8] + color_chars(self.0) + seq![34u8]);
        out
    }
}

/// The exec uppercase hexadecimal digit.
fn hex_upper_digit(d: u32) -> (r: u8)
    requires
        d < 16,
    ensures
        r == hex_upper(d),
{
    if d < 10 {
        48 + (d as u8)
    } else {
        55 + (d as u8)
    }
}

/// A price entry of a catalog.
#[derive(Clone, Copy)]
pub struct Price {
    pub amount: u32,
    pub audience_sub_category_id: u32,
    pub seat_category_id: u32,
}

/// Whether a value is the encoding shape of a price: a record with its
/// three fields in declaration order, names in camel case.
pub open spec fn is_price_value(v: Value, p: Price) -> bool {
    match v {
        Value::Record(fs) => {
            &&& fs@.len() == 3
            &&& fs@[0].0@ == "amount"@ && fs@[0].1 == Value::U32(p.amount)
            &&& fs@[1].0@ == "audienceSubCategoryId"@ && fs@[1].1 == Value::U32(
                p.audience_sub_category_id,
            )
            &&& fs@[2].0@ == "seatCategoryId"@ && fs@[2].1 == Value::U32(p.seat_category_id)
        },
        _ => false,
    }
}

impl Price {
    /// The serializable shape: a record of the three fields.
    pub fn to_value(&self) -> (r: Value)
        ensures
            is_price_value(r, *self),
    {
        let mut fs: Vec<(String, Value)> = Vec::new();
        fs.push(("amount".to_owned(), Value::U32(self.amount)));
        fs.push(
            ("audienceSubCategoryId".to_owned(), Value::U32(self.audience_sub_category_id)),
        );
        fs.push(("seatCategoryId".to_owned(), Value::U32(self.seat_category_id)));
        Value::Record(fs)
    }
}

/// One seating area of a catalog.
pub struct Area {
    pub area_id: u32,
    pub block_ids: Empty,
}

/// Whether a value is the encoding shape of an area.
pub open spec fn is_area_value(v: Value, a: Area) -> bool {
    match v {
        Value::Record(fs) => {
            &&& fs@.len() == 2
            &&& fs@[0].0@ == "areaId"@ && fs@[0].1 == Value::U32(a.area_id)
            &&& fs@[1].0@ == "blockIds"@ && is_empty_value(fs@[1].1)
        },
        _ => false,
    }
}

impl Area {
    /// The serializable shape: a record of the two fields.
    pub fn to_value(&self) -> (r: Value)
        ensures
            is_area_value(r, *self),
    {
        let mut fs: Vec<(String, Value)> = Vec::new();
        fs.push(("areaId".to_owned(), Value::U32(self.area_id)));
        fs.push(("blockIds".to_owned(), self.block_ids.to_value()));
        Value::Record(fs)
    }
}

/// One seat category of a catalog.
pub struct SeatCategory {
    pub areas: Vec<Area>,
    pub seat_category_id: u32,
}

/// Whether a value is the encoding shape of a seat category.
pub open spec fn is_seat_category_value(v: Value, sc: SeatCategory) -> bool {
    match v {
        Value::Record(fs) => {
            &&& fs@.len() == 2
            &&& fs@[0].0@ == "areas"@
            &&& match fs@[0].1 {
                Value::Array(es) => es@.len() == sc.areas@.len() && forall|i: int|
                    0 <= i < es@.len() ==> is_area_value(#[trigger] es@[i], sc.areas@[i]),
                _ => false,
            }
            &&& fs@[1].0@ == "seatCategoryId"@ && fs@[1].1 == Value::U32(sc.seat_category_id)
        },
        _ => false,
    }
}

impl SeatCategory {
    /// The serializable shape: the areas as a sequence of records,
    /// then the category id.
    pub fn to_value(&self) -> (r: Value)
        ensures
            is_seat_category_value(r, *self),
    {
        let mut es: Vec<Value> = Vec::new();
        let n = self.areas.len();
        let mut i: usize = 0;
        while i < n
            invariant
                i <= n,
                n == self.areas@.len(),
                es@.len() == i,
                forall|j: int| 0 <= j < i ==> is_area_value(#[trigger] es@[j], self.areas@[j]),
            decreases n - i,
        {
            es.push(self.areas[i].to_value());
            i = i + 1;
        }
        let mut fs: Vec<(String, Value)> = Vec::new();
        fs.push(("areas".to_owned(), Value::Array(es)));
        fs.push(("seatCategoryId".to_owned(), Value::U32(self.seat_category_id)));
        Value::Record(fs)
    }
}

} // verus!
