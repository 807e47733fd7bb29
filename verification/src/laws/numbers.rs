//! What the bits of a number stand for.
use crate::double::{
    lemma_small_is_nearest, lemma_top_bit, nearest_double, nearest_integer, round_half_even,
    top_bit, Double,
};
use vstd::arithmetic::div_mod::*;
use vstd::arithmetic::mul::*;
use vstd::arithmetic::power2::{
    lemma2_to64, lemma2_to64_rest, lemma_pow2_adds, lemma_pow2_pos, lemma_pow2_strictly_increases,
    pow2,
};
use vstd::prelude::*;

verus! {

/// The biased exponent in the bits of a number, from 0 to 2047.
pub open spec fn exponent_bits(bits: u64) -> nat {
    ((bits / 0x10_0000_0000_0000) % 2048) as nat
}

/// The 52 lowest bits of a number.
pub open spec fn fraction_bits(bits: u64) -> nat {
    (bits % 0x10_0000_0000_0000) as nat
}

/// The absolute value of a finite number, counted in units of the 1075th part of a power of two.
pub open spec fn scaled_magnitude(bits: u64) -> nat {
    if exponent_bits(bits) == 0 {
        fraction_bits(bits) * pow2(1)
    } else {
        (0x10_0000_0000_0000 + fraction_bits(bits)) as nat * pow2(exponent_bits(bits))
    }
}

/// The highest bit is the sign.
pub open spec fn sign_bit(bits: u64) -> bool {
    bits >= 0x8000_0000_0000_0000
}

pub open spec fn absolute(v: int) -> nat {
    if v < 0 {
        (-v) as nat
    } else {
        v as nat
    }
}

/// The bits are those of this integer.
pub open spec fn are_bits_of(bits: u64, v: int) -> bool {
    &&& exponent_bits(bits) < 2047
    &&& scaled_magnitude(bits) == absolute(v) * pow2(1075)
    &&& sign_bit(bits) <==> v < 0
}

/// `r` is the multiple of `unit` that is nearest to `v`, or the even one of two that are equally
/// near.
pub open spec fn is_nearest_multiple(v: int, r: int, unit: nat) -> bool {
    let off = absolute(v) - absolute(r);
    &&& r != 0
    &&& r < 0 <==> v < 0
    &&& absolute(r) % unit == 0
    &&& 2 * off <= unit
    &&& -2 * off <= unit
    &&& (2 * off == unit || -2 * off == unit) ==> (absolute(r) / unit) % 2 == 0
}

/// `r` is what a number of 53 significant bits keeps of `v`: all of it, where it has no more bits,
/// and the nearest multiple of the unit that the last bit stands for otherwise.
pub open spec fn is_rounded(v: int, r: int) -> bool {
    &&& absolute(v) <= 0x20_0000_0000_0000 ==> r == v
    &&& forall|top: nat|
        #![trigger pow2(top)]
        top >= 53 && pow2(top) <= absolute(v) < pow2(top + 1) ==> is_nearest_multiple(
            v,
            r,
            pow2((top - 52) as nat),
        )
}

/// A number that represents an integer has the bits of it.
pub proof fn represented_integers_are_in_the_bits(number: Double, v: int)
    requires
        number.represents(v),
    ensures
        are_bits_of(number.bits, v),
{
    let bits = number.bits;
    let significand = number.significand();
    let scale = number.scale();
    let magnitude = number.magnitude();
    assert(exponent_bits(bits) == number.exponent());
    assert(fraction_bits(bits) == number.fraction());
    assert(scaled_magnitude(bits) == significand * pow2(scale));
    assert(magnitude == absolute(v));
    if scale >= 1075 {
        let unit = pow2((scale - 1075) as nat);
        lemma_pow2_adds((scale - 1075) as nat, 1075);
        lemma_mul_is_associative(significand as int, unit as int, pow2(1075) as int);
        assert(pow2(scale) == unit * pow2(1075));
    } else {
        let unit = pow2((1075 - scale) as nat);
        lemma_pow2_pos((1075 - scale) as nat);
        lemma_pow2_adds((1075 - scale) as nat, scale);
        lemma_fundamental_div_mod(significand as int, unit as int);
        lemma_mul_is_commutative(unit as int, magnitude as int);
        assert(significand == magnitude * unit);
        lemma_mul_is_associative(magnitude as int, unit as int, pow2(scale) as int);
    }
}

proof fn lemma_rounds_half_even(n: nat, unit: nat)
    requires
        unit > 0,
        n >= unit,
    ensures
        ({
            let r = round_half_even(n, unit) * unit;
            let off = n - r;
            &&& r > 0
            &&& r % unit == 0
            &&& r / unit == round_half_even(n, unit)
            &&& 2 * off <= unit
            &&& -2 * off <= unit
            &&& (2 * off == unit || -2 * off == unit) ==> (r / unit) % 2 == 0
        }),
{
    let q = n / unit;
    let rest = n % unit;
    let k = round_half_even(n, unit);
    lemma_fundamental_div_mod(n as int, unit as int);
    lemma_mul_is_commutative(unit as int, q as int);
    assert(q >= 1) by {
        lemma_div_is_ordered(unit as int, n as int, unit as int);
        lemma_div_by_self(unit as int);
    }
    lemma_mod_multiples_basic(k as int, unit as int);
    lemma_div_multiples_vanish(k as int, unit as int);
    lemma_mul_is_commutative(k as int, unit as int);
    lemma_mul_is_distributive_add_other_way(unit as int, q as int, 1);
    lemma_mul_strictly_positive(k as int, unit as int);
    if k == q + 1 {
        assert(k * unit == q * unit + unit);
    }
}

proof fn lemma_top_is(n: nat, top: nat)
    requires
        pow2(top) <= n < pow2(top + 1),
    ensures
        top_bit(n) == top,
{
    lemma_pow2_pos(top);
    lemma_top_bit(n);
    if top_bit(n) < top {
        if top_bit(n) + 1 < top {
            lemma_pow2_strictly_increases(top_bit(n) + 1, top);
        }
    } else if top < top_bit(n) {
        if top + 1 < top_bit(n) {
            lemma_pow2_strictly_increases(top + 1, top_bit(n));
        }
    }
}

pub proof fn lemma_nearest_is_rounded(v: int)
    ensures
        is_rounded(v, nearest_double(v)),
{
    let r = nearest_double(v);
    let n = absolute(v);
    lemma2_to64();
    lemma2_to64_rest();
    assert forall|top: nat|
        #![trigger pow2(top)]
        top >= 53 && pow2(top) <= n < pow2(top + 1) implies is_nearest_multiple(
        v,
        r,
        pow2((top - 52) as nat),
    ) by {
        lemma_top_is(n, top);
        let unit = pow2((top - 52) as nat);
        lemma_pow2_pos((top - 52) as nat);
        lemma_pow2_strictly_increases((top - 52) as nat, top);
        lemma_rounds_half_even(n, unit);
        assert(nearest_integer(n) == round_half_even(n, unit) * unit);
    }
    if n < 0x20_0000_0000_0000 {
        lemma_small_is_nearest(v);
    } else if n == 0x20_0000_0000_0000 {
        assert(pow2(53) == n);
        assert(is_nearest_multiple(v, r, pow2(1)));
        assert(pow2(1) == 2);
    }
}

/// An integer is cast to the number nearest to it, and to itself up to 53 bits, with its sign.
pub proof fn integers_are_cast_to_the_nearest(
    signed: i128,
    from_signed: Double,
    unsigned: u128,
    from_unsigned: Double,
)
    requires
        call_ensures(Double::from_i128, (signed,), from_signed),
        call_ensures(Double::from_u128, (unsigned,), from_unsigned),
    ensures
        exists|r: int| is_rounded(signed as int, r) && are_bits_of(from_signed.bits, r),
        exists|r: int| is_rounded(unsigned as int, r) && are_bits_of(from_unsigned.bits, r),
{
    lemma_nearest_is_rounded(signed as int);
    lemma_nearest_is_rounded(unsigned as int);
    represented_integers_are_in_the_bits(from_signed, nearest_double(signed as int));
    represented_integers_are_in_the_bits(from_unsigned, nearest_double(unsigned as int));
}

/// Numbers of 32 bits are kept as they are.
pub proof fn small_integers_are_kept(
    signed: i32,
    from_signed: Double,
    unsigned: u32,
    from_unsigned: Double,
)
    requires
        call_ensures(Double::from_i32, (signed,), from_signed),
        call_ensures(Double::from_u32, (unsigned,), from_unsigned),
    ensures
        are_bits_of(from_signed.bits, signed as int),
        are_bits_of(from_unsigned.bits, unsigned as int),
{
    represented_integers_are_in_the_bits(from_signed, signed as int);
    represented_integers_are_in_the_bits(from_unsigned, unsigned as int);
}

/// A sign and a magnitude are cast to the nearest number with that sign.
pub proof fn parts_are_cast_to_the_nearest(negative: bool, magnitude: u128, number: Double)
    requires
        negative ==> magnitude > 0,
        call_ensures(Double::from_parts, (negative, magnitude), number),
    ensures
        exists|r: int|
            is_rounded(
                if negative {
                    -(magnitude as int)
                } else {
                    magnitude as int
                },
                r,
            ) && are_bits_of(number.bits, r),
{
    let v = if negative {
        -(magnitude as int)
    } else {
        magnitude as int
    };
    lemma_nearest_is_rounded(v);
    represented_integers_are_in_the_bits(number, nearest_double(v));
}

/// Integers are integral numbers, so that nothing else has their bits.
pub proof fn bits_tell_integers_apart(bits: u64, v: int, w: int)
    requires
        are_bits_of(bits, v),
        are_bits_of(bits, w),
    ensures
        v == w,
{
    lemma_pow2_pos(1075);
    lemma_mul_equality_converse(pow2(1075) as int, absolute(v) as int, absolute(w) as int);
}

proof fn lemma_magnitude_is_floor(number: Double)
    requires
        number.is_finite(),
    ensures
        number.magnitude() * pow2(1075) <= scaled_magnitude(number.bits),
        scaled_magnitude(number.bits) < (number.magnitude() + 1) * pow2(1075),
{
    let bits = number.bits;
    let significand = number.significand();
    let scale = number.scale();
    let magnitude = number.magnitude();
    assert(exponent_bits(bits) == number.exponent());
    assert(fraction_bits(bits) == number.fraction());
    assert(scaled_magnitude(bits) == significand * pow2(scale));
    lemma_pow2_pos(1075);
    lemma_mul_is_distributive_add_other_way(pow2(1075) as int, magnitude as int, 1);
    if scale >= 1075 {
        let unit = pow2((scale - 1075) as nat);
        lemma_pow2_adds((scale - 1075) as nat, 1075);
        lemma_mul_is_associative(significand as int, unit as int, pow2(1075) as int);
    } else {
        let unit = pow2((1075 - scale) as nat);
        let rest = significand % unit;
        lemma_pow2_pos((1075 - scale) as nat);
        lemma_pow2_pos(scale);
        lemma_pow2_adds((1075 - scale) as nat, scale);
        lemma_fundamental_div_mod(significand as int, unit as int);
        lemma_mul_is_commutative(unit as int, magnitude as int);
        assert(significand == magnitude * unit + rest);
        lemma_mul_is_distributive_add_other_way(
            pow2(scale) as int,
            (magnitude * unit) as int,
            rest as int,
        );
        lemma_mul_is_associative(magnitude as int, unit as int, pow2(scale) as int);
        lemma_mul_strict_inequality(rest as int, unit as int, pow2(scale) as int);
        lemma_mul_nonnegative(rest as int, pow2(scale) as int);
    }
}

/// A cast drops the fractional part, ends at the bounds of what 32 bits hold, and makes zero of
/// what is not a number.
pub proof fn casts_drop_the_fraction(number: Double, value: i32)
    requires
        call_ensures(Double::to_i32, (number,), value),
    ensures
        exponent_bits(number.bits) == 2047 ==> value == if fraction_bits(number.bits) != 0 {
            0int
        } else if sign_bit(number.bits) {
            i32::MIN as int
        } else {
            i32::MAX as int
        },
        exponent_bits(number.bits) < 2047 ==> if scaled_magnitude(number.bits) >= 0x8000_0000
            * pow2(1075) {
            value == if sign_bit(number.bits) {
                i32::MIN as int
            } else {
                i32::MAX as int
            }
        } else {
            &&& absolute(value as int) * pow2(1075) <= scaled_magnitude(number.bits)
            &&& scaled_magnitude(number.bits) < (absolute(value as int) + 1) * pow2(1075)
            &&& value != 0 ==> (value < 0 <==> sign_bit(number.bits))
        },
{
    let bits = number.bits;
    assert(exponent_bits(bits) == number.exponent());
    assert(fraction_bits(bits) == number.fraction());
    if number.is_finite() {
        lemma_magnitude_is_floor(number);
        let magnitude = number.magnitude() as int;
        lemma_pow2_pos(1075);
        if magnitude >= 0x8000_0000 {
            lemma_mul_inequality(0x8000_0000, magnitude, pow2(1075) as int);
        } else {
            lemma_mul_inequality(magnitude + 1, 0x8000_0000, pow2(1075) as int);
        }
    }
}

} // verus!
