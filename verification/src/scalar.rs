//! Single-precision numbers as plain values.
//!
//! The library moves coordinates, pressures and opacities around and compares
//! them with each other and against fixed limits. It keeps them as IEEE-754 bit
//! patterns, so that a comparison is integer arithmetic.
use vstd::prelude::*;
use vstd::std_specs::cmp::PartialEqSpecImpl;

verus! {

/// The bit pattern of `0.0`.
pub const ZERO_BITS: u32 = 0;

/// The bit pattern of `-0.0`.
pub const NEGATIVE_ZERO_BITS: u32 = 0x8000_0000;

/// The bit pattern of `1.0`.
pub const ONE_BITS: u32 = 0x3f80_0000;

/// The bit pattern of infinity. A larger magnitude stands for no number.
pub const INFINITY_BITS: u32 = 0x7f80_0000;

/// The bit pattern of a single-precision number. Two of them compare as numbers
/// do: `0.0` equals `-0.0`, and what stands for no number equals nothing.
#[derive(Debug, Clone, Copy)]
pub struct FloatBits(pub u32);

impl PartialEq for FloatBits {
    fn eq(&self, other: &Self) -> (equal: bool) {
        self.same_number(*other)
    }
}

impl PartialEqSpecImpl for FloatBits {
    open spec fn obeys_eq_spec() -> bool {
        true
    }

    open spec fn eq_spec(&self, other: &Self) -> bool {
        self.equals(*other)
    }
}

impl FloatBits {
    /// `0.0`.
    pub fn zero() -> (bits: Self)
        ensures
            bits == FloatBits(ZERO_BITS),
    {
        FloatBits(ZERO_BITS)
    }

    /// `1.0`.
    pub fn one() -> (bits: Self)
        ensures
            bits == FloatBits(ONE_BITS),
    {
        FloatBits(ONE_BITS)
    }

    /// The magnitude's bit pattern: the pattern without the sign bit.
    pub open spec fn magnitude(self) -> int {
        if self.0 >= NEGATIVE_ZERO_BITS {
            self.0 - NEGATIVE_ZERO_BITS
        } else {
            self.0 as int
        }
    }

    /// The pattern stands for no number.
    pub open spec fn not_a_number(self) -> bool {
        self.magnitude() > INFINITY_BITS
    }

    /// The two compare equal as numbers: the patterns are equal, or both are
    /// zero, and neither stands for no number.
    pub open spec fn equals(self, other: FloatBits) -> bool {
        &&& !self.not_a_number()
        &&& !other.not_a_number()
        &&& (self.0 == other.0 || (self.magnitude() == 0 && other.magnitude() == 0))
    }

    /// Tells whether the two compare equal as numbers.
    pub fn same_number(self, other: FloatBits) -> (same: bool)
        ensures
            same == self.equals(other),
    {
        let left: u32 = if self.0 >= NEGATIVE_ZERO_BITS {
            self.0 - NEGATIVE_ZERO_BITS
        } else {
            self.0
        };
        let right: u32 = if other.0 >= NEGATIVE_ZERO_BITS {
            other.0 - NEGATIVE_ZERO_BITS
        } else {
            other.0
        };
        left <= INFINITY_BITS && right <= INFINITY_BITS && (self.0 == other.0 || (left == 0
            && right == 0))
    }

    /// The number lies within `[0, 1]`.
    ///
    /// The patterns of the non-negative numbers are ordered as the numbers
    /// are, so that everything from `0.0` to `1.0` is one range of patterns.
    /// `-0.0` compares equal to `0.0`. Every other pattern with the sign bit
    /// set is negative or not a number.
    pub open spec fn unit_range(self) -> bool {
        self.0 <= ONE_BITS || self.0 == NEGATIVE_ZERO_BITS
    }

    /// Tells whether the number lies within `[0, 1]`.
    pub fn is_in_unit_range(self) -> (inside: bool)
        ensures
            inside == self.unit_range(),
    {
        self.0 <= ONE_BITS || self.0 == NEGATIVE_ZERO_BITS
    }

    /// The number moved into `[0, 1]`: a number within stays as it is, a
    /// negative one becomes `0.0`, and a larger one `1.0`.
    pub open spec fn unit_clamped(self) -> FloatBits {
        if self.unit_range() {
            self
        } else if self.0 > NEGATIVE_ZERO_BITS {
            FloatBits(ZERO_BITS)
        } else {
            FloatBits(ONE_BITS)
        }
    }

    /// Moves a number into `[0, 1]`.
    pub fn clamp_to_unit(self) -> (clamped: FloatBits)
        requires
            !self.not_a_number(),
        ensures
            clamped == self.unit_clamped(),
            clamped.unit_range(),
    {
        if self.is_in_unit_range() {
            self
        } else if self.0 > NEGATIVE_ZERO_BITS {
            FloatBits::zero()
        } else {
            FloatBits::one()
        }
    }

    /// Tells whether the pattern stands for a number that is not infinite.
    pub fn is_finite(self) -> (finite: bool)
        ensures
            finite == (self.magnitude() < INFINITY_BITS),
    {
        let magnitude: u32 = if self.0 >= NEGATIVE_ZERO_BITS {
            self.0 - NEGATIVE_ZERO_BITS
        } else {
            self.0
        };
        magnitude < INFINITY_BITS
    }

    /// The significant digits of the number: its magnitude is this many units.
    pub open spec fn digits(self) -> int {
        if self.magnitude() < 0x80_0000 {
            self.magnitude()
        } else {
            self.magnitude() % 0x80_0000 + 0x80_0000
        }
    }

    /// The unit that the digits count is two to this power.
    pub open spec fn unit_exponent(self) -> int {
        if self.magnitude() < 0x80_0000 {
            -149
        } else {
            self.magnitude() / 0x80_0000 - 150
        }
    }

    /// The magnitude, rounded to a whole number, a half upwards.
    pub open spec fn rounded_magnitude(self) -> int {
        let exponent = self.unit_exponent();
        if exponent >= 0 {
            self.digits() * vstd::arithmetic::power2::pow2(exponent as nat)
        } else {
            (self.digits() + vstd::arithmetic::power2::pow2((-exponent - 1) as nat)) / (
            vstd::arithmetic::power2::pow2((-exponent) as nat) as int)
        }
    }

    /// The whole number next to the number, a half away from zero. Where that
    /// does not fit it is the nearest one that does, and zero where the pattern
    /// stands for no number.
    pub open spec fn nearest_whole(self) -> i64 {
        let rounded = self.rounded_magnitude();
        if self.not_a_number() {
            0
        } else if self.0 >= NEGATIVE_ZERO_BITS {
            if rounded > 0x8000_0000_0000_0000 {
                i64::MIN
            } else {
                (-rounded) as i64
            }
        } else if rounded > i64::MAX {
            i64::MAX
        } else {
            rounded as i64
        }
    }

    /// The whole number next to the number, a half away from zero.
    pub fn round_to_i64(self) -> (whole: i64)
        ensures
            whole == self.nearest_whole(),
    {
        let negative: bool = self.0 >= NEGATIVE_ZERO_BITS;
        let magnitude: u32 = if negative {
            self.0 - NEGATIVE_ZERO_BITS
        } else {
            self.0
        };
        if magnitude > INFINITY_BITS {
            return 0;
        }
        let (digits, power): (u32, u32) = if magnitude < 0x80_0000 {
            (magnitude, 1)
        } else {
            (magnitude % 0x80_0000 + 0x80_0000, magnitude / 0x80_0000)
        };
        assert(digits == self.digits());
        assert(power - 150 == self.unit_exponent());
        let rounded: u128 = if power >= 190 {
            proof {
                lemma_large_power((power - 150) as nat, digits as int);
            }
            return if negative {
                i64::MIN
            } else {
                i64::MAX
            };
        } else if power >= 150 {
            let scale: u128 = power_of_two(power - 150);
            proof {
                lemma_product_fits(digits as int, scale as int);
            }
            digits as u128 * scale
        } else if power >= 124 {
            let unit: u128 = power_of_two(150 - power);
            let half: u128 = power_of_two(149 - power);
            (digits as u128 + half) / unit
        } else {
            proof {
                lemma_small_power((150 - power) as nat, digits as int);
            }
            0
        };
        assert(rounded == self.rounded_magnitude());
        if negative {
            if rounded > 0x8000_0000_0000_0000 {
                i64::MIN
            } else if rounded == 0x8000_0000_0000_0000 {
                i64::MIN
            } else {
                -(rounded as i64)
            }
        } else if rounded > 0x7fff_ffff_ffff_ffff {
            i64::MAX
        } else {
            rounded as i64
        }
    }
}

/// Two to a small power.
fn power_of_two(exponent: u32) -> (power: u128)
    requires
        exponent < 40,
    ensures
        power == vstd::arithmetic::power2::pow2(exponent as nat),
        0 < power <= 0x100_0000_0000,
{
    let mut power: u128 = 1;
    let mut index: u32 = 0;
    proof {
        vstd::arithmetic::power2::lemma2_to64();
    }
    while index < exponent
        invariant
            index <= exponent,
            exponent < 40,
            power == vstd::arithmetic::power2::pow2(index as nat),
            0 < power <= 0x100_0000_0000,
        decreases exponent - index,
    {
        proof {
            vstd::arithmetic::power2::lemma_pow2_unfold((index + 1) as nat);
            vstd::arithmetic::power2::lemma2_to64();
            if index + 1 < 40 {
                vstd::arithmetic::power2::lemma_pow2_strictly_increases((index + 1) as nat, 40);
            }
            lemma_forty();
        }
        power = 2 * power;
        index += 1;
    }
    power
}

proof fn lemma_forty()
    ensures
        vstd::arithmetic::power2::pow2(40) == 0x100_0000_0000,
{
    vstd::arithmetic::power2::lemma2_to64();
    vstd::arithmetic::power2::lemma2_to64_rest();
}

proof fn lemma_product_fits(digits: int, scale: int)
    requires
        0 <= digits < 0x100_0000,
        0 <= scale <= 0x100_0000_0000,
    ensures
        0 <= digits * scale <= 0xffff_ffff_ffff_ffff_ffff,
{
    assert(0 <= digits * scale <= 0x100_0000 * 0x100_0000_0000) by (nonlinear_arith)
        requires
            0 <= digits < 0x100_0000,
            0 <= scale <= 0x100_0000_0000,
    ;
}

/// A number with all its digits and a large unit does not fit.
proof fn lemma_large_power(exponent: nat, digits: int)
    requires
        exponent >= 40,
        digits >= 0x80_0000,
    ensures
        digits * vstd::arithmetic::power2::pow2(exponent) >= 0x8000_0000_0000_0000,
{
    lemma_forty();
    if exponent > 40 {
        vstd::arithmetic::power2::lemma_pow2_strictly_increases(40, exponent);
    }
    let scale = vstd::arithmetic::power2::pow2(exponent) as int;
    assert(digits * scale >= 0x80_0000 * 0x100_0000_0000) by (nonlinear_arith)
        requires
            digits >= 0x80_0000,
            scale >= 0x100_0000_0000,
    ;
}

/// A number with a small unit is closer to zero than to one.
proof fn lemma_small_power(exponent: nat, digits: int)
    requires
        exponent >= 26,
        0 <= digits < 0x100_0000,
    ensures
        (digits + vstd::arithmetic::power2::pow2((exponent - 1) as nat)) / (
        vstd::arithmetic::power2::pow2(exponent) as int) == 0,
{
    vstd::arithmetic::power2::lemma2_to64();
    vstd::arithmetic::power2::lemma_pow2_unfold(exponent);
    if exponent > 26 {
        vstd::arithmetic::power2::lemma_pow2_strictly_increases(25, (exponent - 1) as nat);
    }
    let half = vstd::arithmetic::power2::pow2((exponent - 1) as nat) as int;
    let unit = vstd::arithmetic::power2::pow2(exponent) as int;
    assert((digits + half) / unit == 0) by (nonlinear_arith)
        requires
            0 <= digits < half,
            unit == 2 * half,
    ;
}

/// Tells whether two rows of sixteen numbers compare equal, number by number.
pub fn same_numbers(left: &[FloatBits; 16], right: &[FloatBits; 16]) -> (same: bool)
    ensures
        same == equal_numbers(*left, *right),
{
    let mut index: usize = 0;
    while index < 16
        invariant
            index <= 16,
            forall|i: int| 0 <= i < index ==> (#[trigger] left@[i]).equals(right@[i]),
        decreases 16 - index,
    {
        if !left[index].same_number(right[index]) {
            return false;
        }
        index += 1;
    }
    true
}

/// The matrix has ones on its diagonal and zeros elsewhere.
pub open spec fn is_identity(matrix: [FloatBits; 16]) -> bool {
    forall|i: int|
        0 <= i < 16 ==> #[trigger] matrix@[i] == (if i % 5 == 0 {
            FloatBits(ONE_BITS)
        } else {
            FloatBits(ZERO_BITS)
        })
}

/// Two rows of sixteen numbers compare equal, number by number.
pub open spec fn equal_numbers(left: [FloatBits; 16], right: [FloatBits; 16]) -> bool {
    forall|i: int| 0 <= i < 16 ==> (#[trigger] left@[i]).equals(right@[i])
}

} // verus!
