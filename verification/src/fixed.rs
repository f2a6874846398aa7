//! Fixed-point scalars.
//!
//! Positions, sizes, forces, material constants and elapsed times are held as
//! signed fixed-point numbers with six decimal places. Arithmetic saturates at
//! the ends of the representable range instead of wrapping.

use vstd::prelude::*;

verus! {

/// Number of fixed-point steps in one whole unit.
pub const SCALE: i64 = 1_000_000;

/// The mathematical value `v` brought into the range of `i64`.
pub open spec fn saturate(v: int) -> int {
    if v < i64::MIN {
        i64::MIN as int
    } else if v > i64::MAX {
        i64::MAX as int
    } else {
        v
    }
}

/// A fixed-point number: `micros` millionths of a unit.
#[derive(Clone, Copy, Debug, PartialEq, Eq, Structural)]
pub struct Fixed {
    pub micros: i64,
}

impl View for Fixed {
    type V = int;

    /// The number of millionths.
    open spec fn view(&self) -> int {
        self.micros as int
    }
}

/// Brings a wide intermediate result back into `i64`, saturating.
fn narrow(wide: i128) -> (r: i64)
    ensures
        r as int == saturate(wide as int),
{
    if wide < i64::MIN as i128 {
        i64::MIN
    } else if wide > i64::MAX as i128 {
        i64::MAX
    } else {
        wide as i64
    }
}

/// The product of two 64-bit numbers, computed without overflow.
fn wide_product(a: i128, b: i128) -> (r: i128)
    requires
        i64::MIN <= a <= u64::MAX,
        i64::MIN <= b <= i64::MAX,
    ensures
        r == a * b,
{
    assert(-0xffff_ffff_ffff_ffff * 0x8000_0000_0000_0000 <= a * b
        <= 0xffff_ffff_ffff_ffff * 0x8000_0000_0000_0000) by (nonlinear_arith)
        requires
            -0x8000_0000_0000_0000 <= a <= 0xffff_ffff_ffff_ffff,
            -0x8000_0000_0000_0000 <= b <= 0x7fff_ffff_ffff_ffff,
    ;
    a * b
}

impl Fixed {
    /// The number of `micros` millionths, brought into range.
    pub open spec fn of(micros: int) -> Fixed {
        Fixed { micros: saturate(micros) as i64 }
    }

    /// The whole number `units`, brought into range.
    pub open spec fn units(units: int) -> Fixed {
        Fixed::of(units * SCALE)
    }

    /// The sum of two numbers, brought into range.
    pub open spec fn plus(self, other: Fixed) -> Fixed {
        Fixed::of(self@ + other@)
    }

    /// The number multiplied by a whole factor, brought into range.
    pub open spec fn times(self, factor: int) -> Fixed {
        Fixed::of(self@ * factor)
    }

    /// Zero.
    pub fn zero() -> (r: Fixed)
        ensures
            r == Fixed::units(0),
            r@ == 0,
    {
        Fixed { micros: 0 }
    }

    /// The number with exactly `micros` millionths.
    pub fn from_micros(micros: i64) -> (r: Fixed)
        ensures
            r == Fixed::of(micros as int),
            r@ == micros,
    {
        Fixed { micros }
    }

    /// The whole number `units`, saturating.
    pub fn from_units(units: i64) -> (r: Fixed)
        ensures
            r == Fixed::units(units as int),
    {
        let wide: i128 = wide_product(units as i128, SCALE as i128);
        Fixed { micros: narrow(wide) }
    }

    /// The whole number `index` of a grid cell or table slot, saturating.
    pub fn from_index(index: usize) -> (r: Fixed)
        ensures
            r == Fixed::units(index as int),
    {
        let wide: i128 = wide_product(index as i128, SCALE as i128);
        Fixed { micros: narrow(wide) }
    }

    /// The whole number `a * b`, saturating: the distance of `a` cells of
    /// `b` units each.
    pub fn from_product(a: usize, b: usize) -> (r: Fixed)
        ensures
            r == Fixed::units(a * b),
    {
        assert(0 <= a * b <= 0xffff_ffff_ffff_ffff * 0xffff_ffff_ffff_ffff) by (nonlinear_arith)
            requires
                0 <= a <= 0xffff_ffff_ffff_ffff,
                0 <= b <= 0xffff_ffff_ffff_ffff,
        ;
        let wide: u128 = (a as u128) * (b as u128);
        if wide > 9_223_372_036_854 {
            Fixed { micros: i64::MAX }
        } else {
            Fixed { micros: (wide as i64) * SCALE }
        }
    }

    /// The sum of two numbers, saturating.
    pub fn saturating_add(self, other: Fixed) -> (r: Fixed)
        ensures
            r == self.plus(other),
    {
        let wide: i128 = (self.micros as i128) + (other.micros as i128);
        Fixed { micros: narrow(wide) }
    }

    /// The number multiplied by a whole `factor`, saturating.
    pub fn scaled(self, factor: i64) -> (r: Fixed)
        ensures
            r == self.times(factor as int),
    {
        let wide: i128 = wide_product(self.micros as i128, factor as i128);
        Fixed { micros: narrow(wide) }
    }
}

} // verus!
