//! What the patterns of single-precision numbers stand for.
use vstd::prelude::*;

use crate::scalar::FloatBits;

verus! {

/// A pattern stands for no number exactly if all bits of its exponent are set and some
/// digit is, and for a number that is not infinite if some bit of its exponent is not.
pub proof fn lemma_exponent_tells_numbers(bits: FloatBits)
    ensures
        bits.not_a_number() <==> (bits.0 / 0x80_0000) % 256 == 255 && bits.0 % 0x80_0000 != 0,
        bits.magnitude() < 0x7f80_0000 <==> (bits.0 / 0x80_0000) % 256 != 255,
        bits.magnitude() == bits.0 % 0x8000_0000,
{
}

/// Numbers compare equal as their patterns do, but for the two zeros, which are equal,
/// and for what is no number, which equals nothing, not even itself.
pub proof fn lemma_numbers_compare(left: FloatBits, right: FloatBits)
    ensures
        left.equals(right) == right.equals(left),
        left.equals(left) <==> !left.not_a_number(),
        left.not_a_number() ==> !left.equals(right),
        FloatBits(0).equals(FloatBits(0x8000_0000)),
        left.equals(right) && left.0 != right.0 ==> (left.0 == 0 && right.0 == 0x8000_0000) || (
        left.0 == 0x8000_0000 && right.0 == 0),
{
}

/// A number within zero and one stays as it is when it is clamped, a larger one becomes
/// one, and a smaller one zero.
pub proof fn lemma_numbers_are_clamped(number: FloatBits)
    requires
        !number.not_a_number(),
    ensures
        number.0 <= 0x3f80_0000 ==> number.unit_clamped() == number,
        number.0 == 0x8000_0000 ==> number.unit_clamped() == number,
        0x3f80_0000 < number.0 < 0x8000_0000 ==> number.unit_clamped() == FloatBits(0x3f80_0000),
        number.0 > 0x8000_0000 ==> number.unit_clamped() == FloatBits(0),
        number.unit_range() <==> number.unit_clamped() == number,
{
}

/// Clamping keeps the order of the numbers that are not negative.
pub proof fn lemma_clamping_keeps_order(left: FloatBits, right: FloatBits)
    requires
        left.0 <= right.0 <= 0x7f80_0000,
    ensures
        left.unit_clamped().0 <= right.unit_clamped().0,
{
}

/// A number with an exponent below 150 is that many digits of a unit that is a part of
/// one, and the whole number it is rounded to is the nearest: at most half of one below
/// the number, and less than half of one above it. A half is rounded up.
pub proof fn lemma_fractions_are_rounded(number: FloatBits, exponent: nat, fraction: nat)
    requires
        number.0 == exponent * 0x80_0000 + fraction,
        1 <= exponent < 150,
        fraction < 0x80_0000,
    ensures
        ({
            let unit = vstd::arithmetic::power2::pow2((150 - exponent) as nat) as int;
            let digits = 0x80_0000 + fraction;
            let whole = number.nearest_whole();
            &&& 0 <= whole <= 0x100_0000
            &&& 2 * (whole * unit - digits) <= unit
            &&& 2 * (digits - whole * unit) < unit
        }),
{
    let half = vstd::arithmetic::power2::pow2((149 - exponent) as nat) as int;
    let unit = vstd::arithmetic::power2::pow2((150 - exponent) as nat) as int;
    let digits = 0x80_0000 + fraction;
    vstd::arithmetic::power2::lemma_pow2_pos((149 - exponent) as nat);
    vstd::arithmetic::power2::lemma_pow2_unfold((150 - exponent) as nat);
    assert(unit == 2 * half);
    let whole = (digits + half) / unit;
    vstd::arithmetic::div_mod::lemma_fundamental_div_mod(digits + half, unit);
    vstd::arithmetic::div_mod::lemma_mod_bound(digits + half, unit);
    assert(whole * unit == unit * whole) by (nonlinear_arith);
    assert(0 <= whole <= 0x100_0000) by (nonlinear_arith)
        requires
            unit * whole <= digits + half,
            digits + half < unit * whole + unit,
            digits < 0x100_0000,
            digits > 0,
            unit == 2 * half,
            half >= 1,
    ;
    assert(number.magnitude() == number.0);
    assert(number.magnitude() / 0x80_0000 == exponent as int);
    assert(number.magnitude() % 0x80_0000 == fraction as int);
    assert(number.unit_exponent() == exponent - 150);
    assert(number.digits() == digits);
    assert(-number.unit_exponent() - 1 == 149 - exponent);
    assert(number.nearest_whole() == whole);
}

/// A number with an exponent from 150 on is whole, and stays as it is as long as it fits;
/// a larger one becomes the largest number there is.
pub proof fn lemma_whole_numbers_stay(number: FloatBits, exponent: nat, fraction: nat)
    requires
        number.0 == exponent * 0x80_0000 + fraction,
        150 <= exponent < 255,
        fraction < 0x80_0000,
    ensures
        ({
            let value = (0x80_0000 + fraction) * vstd::arithmetic::power2::pow2(
                (exponent - 150) as nat,
            );
            number.nearest_whole() as int == if value <= i64::MAX {
                value as int
            } else {
                i64::MAX as int
            }
        }),
{
    assert(number.magnitude() / 0x80_0000 == exponent as int);
    assert(number.magnitude() % 0x80_0000 == fraction as int);
    assert(number.unit_exponent() == exponent - 150);
    let power = vstd::arithmetic::power2::pow2((exponent - 150) as nat);
    assert((0x80_0000 + fraction) * power >= 0) by (nonlinear_arith)
        requires
            fraction >= 0,
            power >= 0,
    ;
}

/// What is smaller than every number with full digits is rounded to zero, what is no
/// number becomes zero, and a negative number is rounded as the one without its sign.
pub proof fn lemma_signs_are_kept(number: FloatBits)
    ensures
        number.0 < 0x80_0000 ==> number.nearest_whole() == 0,
        number.not_a_number() ==> number.nearest_whole() == 0,
        number.0 < 0x8000_0000 && !number.not_a_number() ==> {
            let negative = FloatBits((number.0 + 0x8000_0000) as u32);
            negative.nearest_whole() == if number.rounded_magnitude() > i64::MAX {
                i64::MIN as int
            } else {
                -number.nearest_whole()
            }
        },
{
    if number.0 < 0x80_0000 {
        let half = vstd::arithmetic::power2::pow2(148) as int;
        let unit = vstd::arithmetic::power2::pow2(149) as int;
        vstd::arithmetic::power2::lemma_pow2_unfold(149);
        vstd::arithmetic::power2::lemma_pow2_strictly_increases(24, 148);
        vstd::arithmetic::power2::lemma2_to64();
        assert(number.digits() == number.0);
        assert((number.0 + half) / unit == 0) by (nonlinear_arith)
            requires
                0 <= number.0 < 0x80_0000,
                half > 0x100_0000,
                unit == 2 * half,
        ;
    }
    if number.0 < 0x8000_0000 && !number.not_a_number() {
        let negative = FloatBits((number.0 + 0x8000_0000) as u32);
        assert(negative.magnitude() == number.magnitude());
        assert(negative.rounded_magnitude() == number.rounded_magnitude());
        assert(number.rounded_magnitude() >= 0) by {
            let exponent = number.unit_exponent();
            if exponent >= 0 {
                let power = vstd::arithmetic::power2::pow2(exponent as nat);
                assert(number.digits() * power >= 0) by (nonlinear_arith)
                    requires
                        number.digits() >= 0,
                        power >= 0,
                ;
            } else {
                let half = vstd::arithmetic::power2::pow2((-exponent - 1) as nat) as int;
                let unit = vstd::arithmetic::power2::pow2((-exponent) as nat) as int;
                vstd::arithmetic::power2::lemma_pow2_pos((-exponent) as nat);
                vstd::arithmetic::div_mod::lemma_div_pos_is_pos(number.digits() + half, unit);
            }
        }
    }
}

/// Rows of numbers are equal exactly if no number differs.
pub proof fn lemma_rows_compare_number_by_number(
    left: [FloatBits; 16],
    right: [FloatBits; 16],
    place: int,
)
    requires
        0 <= place < 16,
        !left@[place].equals(right@[place]),
    ensures
        !crate::scalar::equal_numbers(left, right),
{
}

} // verus!
