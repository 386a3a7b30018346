//! Fixed-point decimal values standing in for floating-point metric data.

use vstd::prelude::*;

use crate::numfmt::{
    fixed_digits, frac_chars, spec_fixed_digits, spec_frac_chars, spec_udec, u128_chars, u64_chars,
};

verus! {

/// Scale factor of `Decimal`: one whole unit is this many stored units.
pub const DECIMAL_SCALE: i64 = 1_000_000_000;

/// A fixed-point decimal number holding `units` billionths.
///
/// Metric values (gauge readings, histogram samples, bucket boundaries,
/// field values) are carried in this form so that ordering, bucketing,
/// summing and formatting are exact integer arithmetic.
#[derive(Clone, Copy, Debug, PartialEq, Eq, Structural)]
pub struct Decimal {
    /// The represented value times one billion.
    pub units: i64,
}

/// The bare numeric text of the value `units` billionths: optional
/// sign, integer digits, and a fractional part only when it is not zero,
/// with trailing zeros removed.
pub open spec fn spec_decimal_chars(units: int) -> Seq<char> {
    let a = (if units < 0 {
        -units
    } else {
        units
    }) as nat;
    let ip = a / 1_000_000_000;
    let fr = a % 1_000_000_000;
    (if units < 0 {
        seq!['-']
    } else {
        Seq::<char>::empty()
    }) + spec_udec(ip) + (if fr == 0 {
        Seq::<char>::empty()
    } else {
        seq!['.'] + spec_frac_chars(fr)
    })
}

/// The value `units` billionths rounded to two decimal places, away
/// from zero on halves: optional sign, integer digits, a point, and
/// exactly two fractional digits.
pub open spec fn spec_two_places_chars(units: int) -> Seq<char> {
    let a = (if units < 0 {
        -units
    } else {
        units
    }) as nat;
    let r = (a + 5_000_000) / 10_000_000;
    (if units < 0 {
        seq!['-']
    } else {
        Seq::<char>::empty()
    }) + spec_udec(r / 100) + seq!['.'] + spec_fixed_digits(r % 100, 2)
}

/// The numeric text of a value of `units` billionths.
pub fn decimal_chars_i128(units: i128) -> (out: Vec<char>)
    requires
        units > i128::MIN,
    ensures
        out@ == spec_decimal_chars(units as int),
{
    let neg = units < 0;
    let a: u128 = if neg {
        (-units) as u128
    } else {
        units as u128
    };
    let ip: u128 = a / 1_000_000_000;
    let fr: u64 = (a % 1_000_000_000) as u64;
    let mut out: Vec<char> = Vec::new();
    if neg {
        out.push('-');
    }
    let mut ipd = u128_chars(ip);
    out.append(&mut ipd);
    if fr != 0 {
        out.push('.');
        let mut frd = frac_chars(fr);
        out.append(&mut frd);
    }
    assert(out@ =~= spec_decimal_chars(units as int));
    out
}

/// `a + b` clamped to the range of `i64`.
pub open spec fn spec_sat_add_i64(a: int, b: int) -> int {
    let s = a + b;
    if s > i64::MAX {
        i64::MAX as int
    } else if s < i64::MIN {
        i64::MIN as int
    } else {
        s
    }
}

/// Adds two signed values, clamping at the ends of the range.
pub fn sat_add_i64(a: i64, b: i64) -> (r: i64)
    ensures
        r == spec_sat_add_i64(a as int, b as int),
{
    match a.checked_add(b) {
        Some(v) => v,
        None => if b > 0 {
            i64::MAX
        } else {
            i64::MIN
        },
    }
}

/// Subtracts two signed values, clamping at the ends of the range.
pub fn sat_sub_i64(a: i64, b: i64) -> (r: i64)
    ensures
        r == spec_sat_add_i64(a as int, -(b as int)),
{
    match a.checked_sub(b) {
        Some(v) => v,
        None => if b < 0 {
            i64::MAX
        } else {
            i64::MIN
        },
    }
}

impl Decimal {
    /// Builds the decimal holding `units` billionths.
    pub fn from_units(units: i64) -> (r: Decimal)
        ensures
            r.units == units,
    {
        Decimal { units }
    }

    /// Builds the decimal equal to the integer `v`.
    pub fn from_int(v: i64) -> (r: Decimal)
        requires
            -9_223_372_036 <= v <= 9_223_372_036,
        ensures
            r.units == v * DECIMAL_SCALE,
    {
        Decimal { units: v * DECIMAL_SCALE }
    }

    /// Compares two decimals; true when `self` is at most `other`.
    pub fn le(&self, other: &Decimal) -> (r: bool)
        ensures
            r == (self.units <= other.units),
    {
        self.units <= other.units
    }

    /// The bare numeric text of this value.
    pub fn chars(&self) -> (out: Vec<char>)
        ensures
            out@ == spec_decimal_chars(self.units as int),
    {
        decimal_chars_i128(self.units as i128)
    }

    /// This value rounded to two decimal places, as text.
    pub fn two_places_chars(&self) -> (out: Vec<char>)
        ensures
            out@ == spec_two_places_chars(self.units as int),
    {
        let neg = self.units < 0;
        let wide: i128 = self.units as i128;
        let a: u128 = if neg {
            (-wide) as u128
        } else {
            wide as u128
        };
        let r: u64 = ((a + 5_000_000) / 10_000_000) as u64;
        let ip: u64 = r / 100;
        let fr2: u64 = r % 100;
        let mut out: Vec<char> = Vec::new();
        if neg {
            out.push('-');
        }
        let mut ipd = u64_chars(ip);
        out.append(&mut ipd);
        out.push('.');
        let mut frd = fixed_digits(fr2, 2);
        out.append(&mut frd);
        assert(out@ =~= spec_two_places_chars(self.units as int));
        out
    }
}

} // verus!
