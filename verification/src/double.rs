//! JavaScript numbers as IEEE 754 double-precision bit patterns.
use vstd::arithmetic::power2::{lemma_pow2_adds, lemma_pow2_pos, lemma_pow2_strictly_increases, lemma2_to64, lemma2_to64_rest, pow2};
use vstd::arithmetic::div_mod::*;
use vstd::arithmetic::mul::*;
use vstd::prelude::*;

verus! {

/// The weight of the lowest exponent bit, which is also the implicit leading bit of a
/// normal significand.
pub const FRACTION_SPAN: u64 = 0x10_0000_0000_0000;

/// The weight of the sign bit.
pub const SIGN_SPAN: u64 = 0x8000_0000_0000_0000;

/// A double-precision number, held as its bit pattern.
#[derive(Clone, Copy, Debug)]
pub struct Double {
    pub bits: u64,
}

/// The position of the highest bit that is set in `n`, zero where none is.
pub open spec fn top_bit(n: nat) -> nat
    decreases n,
{
    if n < 2 {
        0
    } else {
        1 + top_bit(n / 2)
    }
}

/// `n / unit` rounded to the nearest integer, and to the even one of two that are equally near.
pub open spec fn round_half_even(n: nat, unit: nat) -> nat {
    let quotient = n / unit;
    let rest = n % unit;
    if 2 * rest > unit || (2 * rest == unit && quotient % 2 == 1) {
        quotient + 1
    } else {
        quotient
    }
}

/// The integer nearest to `n` that a double can hold.
pub open spec fn nearest_integer(n: nat) -> nat {
    if top_bit(n) <= 52 {
        n
    } else {
        let unit = pow2((top_bit(n) - 52) as nat);
        round_half_even(n, unit) * unit
    }
}

/// The integer nearest to `v` that a double can hold, with its sign.
pub open spec fn nearest_double(v: int) -> int {
    if v < 0 {
        -(nearest_integer((-v) as nat) as int)
    } else {
        nearest_integer(v as nat) as int
    }
}

/// `v`, or the end of the `i32` range that is nearest to it.
pub open spec fn clamp_to_i32(v: int) -> i32 {
    if v < i32::MIN {
        i32::MIN
    } else if v > i32::MAX {
        i32::MAX
    } else {
        v as i32
    }
}

impl Double {
    pub open spec fn is_negative(self) -> bool {
        self.bits >= SIGN_SPAN
    }

    pub open spec fn exponent(self) -> nat {
        ((self.bits / FRACTION_SPAN) % 2048) as nat
    }

    pub open spec fn fraction(self) -> nat {
        (self.bits % FRACTION_SPAN) as nat
    }

    pub open spec fn is_finite(self) -> bool {
        self.exponent() < 2047
    }

    pub open spec fn is_nan(self) -> bool {
        self.exponent() == 2047 && self.fraction() != 0
    }

    /// The significand with its implicit bit, as an integer of 53 bits.
    pub open spec fn significand(self) -> nat {
        if self.exponent() == 0 {
            self.fraction()
        } else {
            FRACTION_SPAN as nat + self.fraction()
        }
    }

    /// The biased exponent of a finite number: a subnormal one has that of the least normal one.
    pub open spec fn scale(self) -> nat {
        if self.exponent() == 0 {
            1
        } else {
            self.exponent()
        }
    }

    /// The integral part of the absolute value of a finite number.
    pub open spec fn magnitude(self) -> nat {
        if self.scale() >= 1075 {
            self.significand() * pow2((self.scale() - 1075) as nat)
        } else {
            self.significand() / pow2((1075 - self.scale()) as nat)
        }
    }

    /// A finite number without its fractional part.
    pub open spec fn truncated(self) -> int {
        if self.is_negative() {
            -(self.magnitude() as int)
        } else {
            self.magnitude() as int
        }
    }

    /// No fractional part is lost by `truncated`.
    pub open spec fn is_integral(self) -> bool {
        self.is_finite() && (self.scale() >= 1075 || self.significand() % pow2(
            (1075 - self.scale()) as nat,
        ) == 0)
    }

    /// The number is the integer `v`; a zero is the positive one.
    pub open spec fn represents(self, v: int) -> bool {
        &&& self.is_integral()
        &&& self.truncated() == v
        &&& self.is_negative() <==> v < 0
    }

    /// The `i32` that a cast gives: fractional parts are dropped, what is out of range ends at
    /// the nearest bound, and not-a-number gives zero.
    pub open spec fn as_i32(self) -> i32 {
        if self.is_nan() {
            0
        } else if !self.is_finite() {
            if self.is_negative() {
                i32::MIN
            } else {
                i32::MAX
            }
        } else {
            clamp_to_i32(self.truncated())
        }
    }
}

pub proof fn lemma_top_bit(n: nat)
    requires
        n > 0,
    ensures
        pow2(top_bit(n)) <= n < pow2(top_bit(n) + 1),
    decreases n,
{
    lemma2_to64();
    if n >= 2 {
        lemma_top_bit(n / 2);
        let t = top_bit(n / 2);
        lemma_pow2_adds(t, 1);
        lemma_pow2_adds(t + 1, 1);
        assert(pow2(t + 1) == pow2(t) * 2);
        assert(pow2(t + 2) == pow2(t + 1) * 2);
    }
}

/// A number put together from a sign, a normal biased exponent and a fraction has these parts.
proof fn lemma_layout(number: Double, negative: bool, exponent: nat, fraction: nat)
    requires
        0 < exponent < 2047,
        fraction < FRACTION_SPAN,
        number.bits == (if negative { SIGN_SPAN as int } else { 0 }) + exponent * FRACTION_SPAN
            + fraction,
    ensures
        number.is_negative() == negative,
        number.exponent() == exponent,
        number.fraction() == fraction,
{
    let high: int = (if negative { 2048int } else { 0 }) + exponent;
    assert(number.bits == high * FRACTION_SPAN + fraction);
    assert(number.bits as int / FRACTION_SPAN as int == high);
    assert(number.bits as int % FRACTION_SPAN as int == fraction);
}

/// A normal number whose significand, scaled up from its exponent, is `magnitude`.
proof fn lemma_exact(number: Double, negative: bool, magnitude: nat, top: nat)
    requires
        top <= 52,
        pow2(top) <= magnitude < pow2(top + 1),
        number.bits == (if negative { SIGN_SPAN as int } else { 0 }) + (1023 + top) * FRACTION_SPAN
            + (magnitude * pow2((52 - top) as nat) - FRACTION_SPAN),
    ensures
        FRACTION_SPAN <= magnitude * pow2((52 - top) as nat) < 2 * FRACTION_SPAN,
        number.represents(if negative { -(magnitude as int) } else { magnitude as int }),
{
    let unit = pow2((52 - top) as nat);
    lemma2_to64();
    lemma2_to64_rest();
    lemma_pow2_pos((52 - top) as nat);
    lemma_pow2_pos(top);
    lemma_pow2_adds(top, (52 - top) as nat);
    lemma_pow2_adds(top + 1, (52 - top) as nat);
    lemma_mul_inequality(pow2(top) as int, magnitude as int, unit as int);
    lemma_mul_strict_inequality(magnitude as int, pow2(top + 1) as int, unit as int);
    lemma_layout(number, negative, 1023 + top, (magnitude * unit - FRACTION_SPAN) as nat);
    lemma_div_multiples_vanish(magnitude as int, unit as int);
    lemma_mod_multiples_basic(magnitude as int, unit as int);
    lemma_mul_is_commutative(magnitude as int, unit as int);
    assert(number.significand() == magnitude * unit);
    if top == 52 {
        assert(number.significand() * pow2(0) == number.significand()) by (nonlinear_arith)
            requires
                pow2(0) == 1,
        ;
        assert(magnitude * unit == magnitude) by (nonlinear_arith)
            requires
                unit == 1,
        ;
    }
}

proof fn lemma_quotient_bounds(n: nat, unit: nat)
    requires
        unit > 0,
        unit * FRACTION_SPAN <= n < unit * (2 * FRACTION_SPAN),
    ensures
        FRACTION_SPAN <= n / unit < 2 * FRACTION_SPAN,
{
    lemma_fundamental_div_mod(n as int, unit as int);
    let q = n as int / unit as int;
    let r = n as int % unit as int;
    assert(q >= FRACTION_SPAN) by (nonlinear_arith)
        requires
            unit > 0,
            unit * FRACTION_SPAN <= n,
            n == unit * q + r,
            0 <= r < unit,
    ;
    assert(q < 2 * FRACTION_SPAN) by (nonlinear_arith)
        requires
            unit > 0,
            n < unit * (2 * FRACTION_SPAN),
            n == unit * q + r,
            0 <= r < unit,
    ;
}

/// A normal number whose significand counts multiples of a unit above one.
proof fn lemma_scaled(number: Double, negative: bool, significand: nat, top: nat)
    requires
        52 < top < 128,
        FRACTION_SPAN <= significand <= 2 * FRACTION_SPAN,
        number.bits == (if negative { SIGN_SPAN as int } else { 0 }) + (1023 + top) * FRACTION_SPAN
            + (significand - FRACTION_SPAN),
    ensures
        number.represents(
            if negative {
                -((significand * pow2((top - 52) as nat)) as int)
            } else {
                (significand * pow2((top - 52) as nat)) as int
            },
        ),
{
    let unit = pow2((top - 52) as nat);
    lemma_pow2_pos((top - 52) as nat);
    lemma_mul_strictly_positive(significand as int, unit as int);
    if significand < 2 * FRACTION_SPAN {
        lemma_layout(number, negative, 1023 + top, (significand - FRACTION_SPAN) as nat);
    } else {
        lemma_layout(number, negative, 1024 + top, 0);
        lemma2_to64();
        lemma_pow2_adds((top - 52) as nat, 1);
        assert(FRACTION_SPAN * (unit * 2) == (2 * FRACTION_SPAN) * unit) by (nonlinear_arith);
    }
}

proof fn lemma_large_magnitude(number: Double)
    requires
        1054 <= number.exponent() < 2047,
    ensures
        number.magnitude() >= 0x8000_0000,
{
    lemma2_to64();
    lemma2_to64_rest();
    let significand = number.significand();
    if number.exponent() >= 1075 {
        let unit = pow2((number.exponent() - 1075) as nat);
        lemma_pow2_pos((number.exponent() - 1075) as nat);
        lemma_mul_increases(unit as int, significand as int);
        lemma_mul_is_commutative(unit as int, significand as int);
    } else {
        let k = (1075 - number.exponent()) as nat;
        lemma_pow2_pos(k);
        if k < 21 {
            lemma_pow2_strictly_increases(k, 21);
        }
        lemma_div_is_ordered_by_denominator(significand as int, pow2(k) as int, pow2(21) as int);
    }
}

proof fn lemma_small_magnitude(number: Double)
    requires
        number.exponent() < 1023,
    ensures
        number.magnitude() == 0,
{
    lemma2_to64();
    lemma2_to64_rest();
    let k = (1075 - number.scale()) as nat;
    if k > 53 {
        lemma_pow2_strictly_increases(53, k);
    }
    lemma_basic_div(number.significand() as int, pow2(k) as int);
}

proof fn lemma_middle_magnitude(number: Double)
    requires
        1023 <= number.exponent() < 1054,
    ensures
        number.magnitude() < 0x8000_0000,
        pow2((1075 - number.exponent()) as nat) > 0,
{
    lemma2_to64();
    lemma2_to64_rest();
    let k = (1075 - number.exponent()) as nat;
    if k > 22 {
        lemma_pow2_strictly_increases(22, k);
    }
    lemma_div_is_ordered_by_denominator(number.significand() as int, pow2(22) as int, pow2(k) as int);
}

/// Integers of at most 53 bits are doubles.
pub proof fn lemma_small_is_nearest(v: int)
    requires
        -0x20_0000_0000_0000 < v < 0x20_0000_0000_0000,
    ensures
        nearest_double(v) == v,
{
    let n: nat = (if v < 0 { -v } else { v }) as nat;
    if n > 0 {
        lemma_top_bit(n);
        lemma2_to64();
        lemma2_to64_rest();
        if top_bit(n) > 53 {
            lemma_pow2_strictly_increases(53, top_bit(n));
        }
    }
}

/// A number that holds an `i32` gives it back when it is cast.
pub proof fn cast_gives_back(number: Double, value: i32)
    requires
        number.represents(value as int),
    ensures
        number.as_i32() == value,
{
}

proof fn lemma_zero_is_zero(number: Double)
    requires
        number.is_integral(),
        number.magnitude() == 0,
    ensures
        number.exponent() == 0,
        number.fraction() == 0,
{
    if number.scale() >= 1075 {
        let unit = pow2((number.scale() - 1075) as nat);
        lemma_pow2_pos((number.scale() - 1075) as nat);
        if number.significand() > 0 {
            lemma_mul_strictly_positive(number.significand() as int, unit as int);
        }
    } else {
        let unit = pow2((1075 - number.scale()) as nat);
        lemma_pow2_pos((1075 - number.scale()) as nat);
        lemma_fundamental_div_mod(number.significand() as int, unit as int);
        lemma_mul_basics(unit as int);
    }
}

proof fn lemma_parts_determine(a: Double, b: Double)
    requires
        a.is_negative() == b.is_negative(),
        a.exponent() == b.exponent(),
        a.fraction() == b.fraction(),
    ensures
        a == b,
{
    lemma_fundamental_div_mod(a.bits as int, FRACTION_SPAN as int);
    lemma_fundamental_div_mod(b.bits as int, FRACTION_SPAN as int);
}

/// What an integral number other than zero is between.
proof fn lemma_magnitude_range(number: Double)
    requires
        number.is_integral(),
        number.magnitude() > 0,
    ensures
        1023 <= number.exponent(),
        pow2((number.exponent() - 1023) as nat) <= number.magnitude(),
        number.magnitude() < pow2((number.exponent() - 1022) as nat),
        number.exponent() < 1075 ==> number.significand() == number.magnitude() * pow2(
            (1075 - number.exponent()) as nat,
        ),
{
    if number.exponent() < 1023 {
        lemma_small_magnitude(number);
    }
    lemma2_to64();
    lemma2_to64_rest();
    let e = number.exponent();
    let significand = number.significand();
    if e >= 1075 {
        let unit = pow2((e - 1075) as nat);
        lemma_pow2_pos((e - 1075) as nat);
        lemma_pow2_adds(52, (e - 1075) as nat);
        lemma_pow2_adds(53, (e - 1075) as nat);
        lemma_mul_inequality(pow2(52) as int, significand as int, unit as int);
        lemma_mul_strict_inequality(significand as int, pow2(53) as int, unit as int);
    } else {
        let unit = pow2((1075 - e) as nat);
        let magnitude = number.magnitude();
        lemma_pow2_pos((1075 - e) as nat);
        lemma_fundamental_div_mod(significand as int, unit as int);
        lemma_mul_is_commutative(unit as int, magnitude as int);
        lemma_pow2_adds((e - 1023) as nat, (1075 - e) as nat);
        lemma_pow2_adds((e - 1022) as nat, (1075 - e) as nat);
        lemma_mul_inequality_converse(pow2((e - 1023) as nat) as int, magnitude as int, unit as int);
        lemma_mul_strict_inequality_converse(
            magnitude as int,
            pow2((e - 1022) as nat) as int,
            unit as int,
        );
    }
}

/// Two doubles that represent the same integer are the same bit pattern.
pub proof fn represented_once(a: Double, b: Double, value: int)
    requires
        a.represents(value),
        b.represents(value),
    ensures
        a == b,
{
    if value == 0 {
        lemma_pow2_pos((1075 - a.scale()) as nat);
        lemma_pow2_pos((1075 - b.scale()) as nat);
        lemma_zero_is_zero(a);
        lemma_zero_is_zero(b);
    } else {
        lemma_magnitude_range(a);
        lemma_magnitude_range(b);
        if a.exponent() < b.exponent() {
            if a.exponent() + 1 < b.exponent() {
                lemma_pow2_strictly_increases(
                    (a.exponent() - 1022) as nat,
                    (b.exponent() - 1023) as nat,
                );
            }
        } else if b.exponent() < a.exponent() {
            if b.exponent() + 1 < a.exponent() {
                lemma_pow2_strictly_increases(
                    (b.exponent() - 1022) as nat,
                    (a.exponent() - 1023) as nat,
                );
            }
        }
        if a.exponent() >= 1075 {
            let unit = pow2((a.exponent() - 1075) as nat);
            lemma_pow2_pos((a.exponent() - 1075) as nat);
            lemma_mul_is_commutative(unit as int, a.significand() as int);
            lemma_mul_is_commutative(unit as int, b.significand() as int);
            lemma_mul_equality_converse(unit as int, a.significand() as int, b.significand() as int);
        }
    }
    lemma_parts_determine(a, b);
}

fn power_of_two(exponent: u32) -> (power: u128)
    requires
        exponent < 128,
    ensures
        power == pow2(exponent as nat),
{
    let mut power: u128 = 1;
    let mut done: u32 = 0;
    proof {
        lemma2_to64();
    }
    while done < exponent
        invariant
            done <= exponent < 128,
            power == pow2(done as nat),
        decreases exponent - done,
    {
        proof {
            lemma2_to64();
            lemma2_to64_rest();
            lemma_pow2_adds(done as nat, 1);
            lemma_pow2_adds(63, 64);
            if done + 1 < 127 {
                lemma_pow2_strictly_increases((done + 1) as nat, 127);
            }
        }
        power = power * 2;
        done = done + 1;
    }
    power
}

fn highest_bit(n: u128) -> (top: u32)
    ensures
        top == top_bit(n as nat),
        top < 128,
{
    let mut rest: u128 = n;
    let mut top: u32 = 0;
    proof {
        lemma2_to64();
        lemma_pow2_adds(64, 64);
    }
    while rest >= 2
        invariant
            top_bit(n as nat) == top + top_bit(rest as nat),
            rest < pow2((128 - top) as nat),
            top < 128,
        decreases rest,
    {
        proof {
            lemma2_to64();
            lemma_pow2_adds((127 - top) as nat, 1);
        }
        rest = rest / 2;
        top = top + 1;
    }
    top
}

impl Double {
    /// The double nearest to the integer with this sign and magnitude.
    pub fn from_parts(negative: bool, magnitude: u128) -> (number: Double)
        requires
            negative ==> magnitude > 0,
        ensures
            number.represents(
                if negative {
                    -(nearest_integer(magnitude as nat) as int)
                } else {
                    nearest_integer(magnitude as nat) as int
                },
            ),
    {
        if magnitude == 0 {
            let zero = Double { bits: 0 };
            proof {
                lemma_pow2_pos(1074);
                lemma_small_mod(0, pow2(1074));
                lemma_basic_div(0, pow2(1074) as int);
            }
            return zero;
        }
        let top = highest_bit(magnitude);
        proof {
            lemma_top_bit(magnitude as nat);
            lemma2_to64();
            lemma2_to64_rest();
        }
        let significand: u64;
        if top <= 52 {
            let unit = power_of_two(52 - top);
            proof {
                lemma_pow2_adds((top + 1) as nat, (52 - top) as nat);
                lemma_mul_strict_inequality(
                    magnitude as int,
                    pow2((top + 1) as nat) as int,
                    unit as int,
                );
                lemma_pow2_adds(top as nat, (52 - top) as nat);
                lemma_mul_inequality(pow2(top as nat) as int, magnitude as int, unit as int);
            }
            significand = (magnitude * unit) as u64;
        } else {
            let unit = power_of_two(top - 52);
            proof {
                lemma_pow2_pos((top - 52) as nat);
                lemma_pow2_adds((top - 52) as nat, 52);
                lemma_pow2_adds((top - 52) as nat, 53);
                lemma_pow2_adds((top - 53) as nat, 1);
                lemma_quotient_bounds(magnitude as nat, unit as nat);
            }
            let quotient = magnitude / unit;
            let rest = magnitude % unit;
            let half = unit / 2;
            let up = rest > half || (rest == half && quotient % 2 == 1);
            significand = if up { (quotient + 1) as u64 } else { quotient as u64 };
        }
        let bits = (1023 + top as u64) * FRACTION_SPAN + (significand - FRACTION_SPAN);
        let number = Double { bits: if negative { SIGN_SPAN + bits } else { bits } };
        proof {
            if top <= 52 {
                lemma_exact(number, negative, magnitude as nat, top as nat);
            } else {
                lemma_scaled(number, negative, significand as nat, top as nat);
            }
        }
        number
    }

    /// The double that a signed integer is cast to.
    pub fn from_i128(value: i128) -> (number: Double)
        ensures
            number.represents(nearest_double(value as int)),
    {
        if value >= 0 {
            Double::from_parts(false, value as u128)
        } else if value == i128::MIN {
            Double::from_parts(true, 0x8000_0000_0000_0000_0000_0000_0000_0000)
        } else {
            Double::from_parts(true, (-value) as u128)
        }
    }

    /// The double that an unsigned integer is cast to.
    pub fn from_u128(value: u128) -> (number: Double)
        ensures
            number.represents(nearest_double(value as int)),
    {
        Double::from_parts(false, value)
    }

    /// The double that is equal to `value`.
    pub fn from_i32(value: i32) -> (number: Double)
        ensures
            number.represents(value as int),
    {
        proof {
            lemma_small_is_nearest(value as int);
        }
        Double::from_i128(value as i128)
    }

    /// The double that is equal to `value`.
    pub fn from_u32(value: u32) -> (number: Double)
        ensures
            number.represents(value as int),
    {
        proof {
            lemma_small_is_nearest(value as int);
        }
        Double::from_u128(value as u128)
    }

    /// Casts to `i32`.
    pub fn to_i32(self) -> (value: i32)
        ensures
            value == self.as_i32(),
    {
        let negative = self.bits >= SIGN_SPAN;
        let exponent: u64 = (self.bits / FRACTION_SPAN) % 2048;
        let fraction: u64 = self.bits % FRACTION_SPAN;
        if exponent == 2047 && fraction != 0 {
            return 0;
        }
        if exponent >= 1054 {
            proof {
                if exponent < 2047 {
                    lemma_large_magnitude(self);
                }
            }
            return if negative { i32::MIN } else { i32::MAX };
        }
        if exponent < 1023 {
            proof {
                lemma_small_magnitude(self);
            }
            return 0;
        }
        let unit = power_of_two(1075 - exponent as u32);
        proof {
            lemma_middle_magnitude(self);
        }
        let magnitude: u128 = (FRACTION_SPAN + fraction) as u128 / unit;
        if negative {
            -(magnitude as i32)
        } else {
            magnitude as i32
        }
    }
}

} // verus!
