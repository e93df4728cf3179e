use vstd::arithmetic::div_mod::lemma_basic_div;
use vstd::arithmetic::div_mod::lemma_div_denominator;
use vstd::arithmetic::power2::lemma2_to64;
use vstd::arithmetic::power2::lemma_pow2_adds;
use vstd::arithmetic::power2::lemma_pow2_pos;
use vstd::arithmetic::power2::lemma_pow2_strictly_increases;
use vstd::arithmetic::power2::lemma_pow2_unfold;
use vstd::arithmetic::power2::pow2;
use vstd::bits::lemma_u64_shl_is_mul;
use vstd::bits::lemma_u64_shr_is_div;
use vstd::prelude::*;

verus! {

/// The pattern of positive zero.
pub const ZERO_BITS: u32 = 0;

/// The pattern of one.
pub const ONE_BITS: u32 = 0x3F80_0000;

/// Two to the power 23: the weight of the lowest exponent bit, and the
/// hidden leading bit of a normal significand.
pub const HIDDEN_BIT: u32 = 0x80_0000;

/// A number in the single-precision binary floating-point format, held as
/// its 32-bit pattern: from the top, one sign bit, eight exponent bits and
/// twenty-three fraction bits.
///
/// A pattern that is no NaN stands for `significand * 2^scale`, negated
/// where the sign bit is set. An exponent field of all ones with a zero
/// fraction is an infinity; it counts here as a magnitude beyond every
/// finite one, which is all that clamping and saturating conversions ask.
#[derive(Debug, Clone, Copy, PartialEq, Eq, Structural, Hash)]
pub struct Single {
    pub bits: u32,
}

/// How many low bits a natural number sheds to fit in twenty-four bits.
pub open spec fn excess_bits(n: nat) -> nat
    decreases n,
{
    if n < 0x100_0000 {
        0
    } else {
        1 + excess_bits(n / 2)
    }
}

/// `n / d` rounded to the nearest natural number, a tie going to the even
/// neighbour.
pub open spec fn round_half_even(n: nat, d: nat) -> nat {
    let q = n / d;
    let r = n % d;
    if 2 * r > d || (2 * r == d && q % 2 == 1) {
        q + 1
    } else {
        q
    }
}

/// The whole part of `significand * 2^scale`.
pub open spec fn whole_part(significand: nat, scale: int) -> nat {
    if scale >= 0 {
        significand * pow2(scale as nat)
    } else {
        significand / pow2((-scale) as nat)
    }
}

impl Single {
    /// Whether the sign bit is set.
    pub open spec fn sign(self) -> bool {
        self.bits >= 0x8000_0000
    }

    /// The eight exponent bits.
    pub open spec fn exponent_field(self) -> nat {
        (self.bits as nat / 0x80_0000) % 0x100
    }

    /// The twenty-three fraction bits.
    pub open spec fn fraction_field(self) -> nat {
        self.bits as nat % 0x80_0000
    }

    /// Whether the pattern is not a number.
    pub open spec fn is_nan(self) -> bool {
        self.exponent_field() == 0xFF && self.fraction_field() != 0
    }

    /// The integer that the scale multiplies: the fraction bits, under a
    /// leading one unless the exponent field is zero.
    pub open spec fn significand(self) -> nat {
        if self.exponent_field() == 0 {
            self.fraction_field()
        } else {
            0x80_0000 + self.fraction_field()
        }
    }

    /// The power of two that multiplies the significand.
    pub open spec fn scale(self) -> int {
        if self.exponent_field() == 0 {
            -149
        } else {
            self.exponent_field() - 150
        }
    }

    /// The magnitude in units of `2^-149`, the smallest positive magnitude
    /// of the format, so that it is a natural number.
    pub open spec fn magnitude(self) -> nat {
        self.significand() * pow2((self.scale() + 149) as nat)
    }

    /// Whether the number equals zero; both zeros do.
    pub open spec fn is_zero(self) -> bool {
        !self.is_nan() && self.magnitude() == 0
    }

    /// Whether the number is less than zero.
    pub open spec fn below_zero(self) -> bool {
        !self.is_nan() && self.sign() && self.magnitude() > 0
    }

    /// Whether the number is greater than zero.
    pub open spec fn above_zero(self) -> bool {
        !self.is_nan() && !self.sign() && self.magnitude() > 0
    }

    /// Whether the number equals one.
    pub open spec fn is_one(self) -> bool {
        !self.is_nan() && !self.sign() && self.magnitude() == pow2(149)
    }

    /// Whether the number is less than one.
    pub open spec fn below_one(self) -> bool {
        !self.is_nan() && (self.sign() || self.magnitude() < pow2(149))
    }

    /// Whether the number is greater than one.
    pub open spec fn above_one(self) -> bool {
        !self.is_nan() && !self.sign() && self.magnitude() > pow2(149)
    }

    /// The number brought into the range from zero to one: positive zero
    /// for a number below zero, one for a number above one, and otherwise
    /// the pattern itself, so that a NaN and a negative zero stay.
    pub open spec fn clamped(self) -> Single {
        if self.below_zero() {
            Single { bits: ZERO_BITS }
        } else if self.above_one() {
            Single { bits: ONE_BITS }
        } else {
            self
        }
    }

    /// Whether clamping leaves the pattern as it is.
    pub open spec fn is_clamped(self) -> bool {
        !self.below_zero() && !self.above_one()
    }

    /// The product with 255 as the format holds it, as a significand and a
    /// scale: the exact product `255 * significand * 2^scale`, rounded to
    /// twenty-four significant bits, a tie going to the even neighbour.
    pub open spec fn times_255(self) -> (nat, int) {
        let exact = 255 * self.significand();
        let shed = excess_bits(exact);
        (round_half_even(exact, pow2(shed)), self.scale() + shed)
    }

    /// The number as an eight-bit level: the product with 255, computed in
    /// the format, then cut to its whole part and held to the range of a
    /// byte. A NaN and every pattern with the sign bit give 0.
    pub open spec fn spec_level(self) -> u8 {
        if self.is_nan() || self.sign() {
            0
        } else {
            let (significand, scale) = self.times_255();
            let whole = whole_part(significand, scale);
            if whole >= 255 {
                255
            } else {
                whole as u8
            }
        }
    }

    /// The number cut to its whole part and held to the range of a 32-bit
    /// signed integer; a NaN gives 0.
    pub open spec fn truncated(self) -> i32 {
        let whole = whole_part(self.significand(), self.scale());
        if self.is_nan() {
            0
        } else if self.sign() {
            if whole >= 0x8000_0000 {
                i32::MIN
            } else {
                (-whole) as i32
            }
        } else {
            if whole >= 0x7FFF_FFFF {
                i32::MAX
            } else {
                whole as i32
            }
        }
    }

    /// The number with the given pattern.
    pub fn from_bits(bits: u32) -> (number: Single)
        ensures
            number.bits == bits,
    {
        Single { bits }
    }

    /// The pattern of the number.
    pub fn to_bits(self) -> (bits: u32)
        ensures
            bits == self.bits,
    {
        self.bits
    }

    /// Positive zero.
    pub fn zero() -> (number: Single)
        ensures
            number.bits == ZERO_BITS,
            number.is_zero(),
            number.is_clamped(),
    {
        let number = Single { bits: ZERO_BITS };
        proof {
            Single::lemma_patterns(number);
        }
        number
    }

    /// One.
    pub fn one() -> (number: Single)
        ensures
            number.bits == ONE_BITS,
            number.is_one(),
            number.is_clamped(),
    {
        let number = Single { bits: ONE_BITS };
        proof {
            Single::lemma_patterns(number);
        }
        number
    }

    /// How the predicates on the number read on the pattern: the patterns
    /// of the numbers that are not negative ascend with the numbers.
    pub proof fn lemma_patterns(number: Single)
        ensures
            number.is_nan() <==> number.bits % 0x8000_0000 > 0x7F80_0000,
            number.is_zero() <==> number.bits % 0x8000_0000 == 0,
            number.above_zero() <==> 0 < number.bits <= 0x7F80_0000,
            number.below_zero() <==> 0x8000_0000 < number.bits <= 0xFF80_0000,
            number.is_one() <==> number.bits == ONE_BITS,
            number.above_one() <==> ONE_BITS < number.bits <= 0x7F80_0000,
    {
        let e = number.exponent_field();
        let f = number.fraction_field();
        let low = (number.scale() + 149) as nat;
        lemma2_to64();
        lemma_pow2_adds(23, 126);
        lemma_pow2_pos(low);
        lemma_pow2_pos(126);
        assert(number.magnitude() == 0 <==> number.significand() == 0) by (nonlinear_arith)
            requires
                number.magnitude() == number.significand() * pow2(low),
                pow2(low) > 0,
        ;
        if e == 0 {
            assert(pow2(low) == 1);
            assert(number.magnitude() == f) by (nonlinear_arith)
                requires
                    number.magnitude() == f * pow2(low),
                    pow2(low) == 1,
            ;
            assert(pow2(149) >= 0x80_0000) by (nonlinear_arith)
                requires
                    pow2(149) == 0x80_0000 * pow2(126),
                    pow2(126) > 0,
            ;
        } else if e <= 126 {
            lemma_pow2_unfold(e);
            if e < 126 {
                lemma_pow2_strictly_increases(e, 126);
            }
            assert(number.magnitude() < pow2(149)) by (nonlinear_arith)
                requires
                    number.magnitude() == (0x80_0000 + f) * pow2(low),
                    f < 0x80_0000,
                    pow2(e) == 2 * pow2(low),
                    pow2(low) > 0,
                    pow2(e) <= pow2(126),
                    pow2(149) == 0x80_0000 * pow2(126),
            ;
        } else if e == 127 {
            assert(number.magnitude() > pow2(149) <==> f > 0) by (nonlinear_arith)
                requires
                    number.magnitude() == (0x80_0000 + f) * pow2(126),
                    pow2(149) == 0x80_0000 * pow2(126),
                    pow2(126) > 0,
            ;
            assert(number.magnitude() == pow2(149) <==> f == 0) by (nonlinear_arith)
                requires
                    number.magnitude() == (0x80_0000 + f) * pow2(126),
                    pow2(149) == 0x80_0000 * pow2(126),
                    pow2(126) > 0,
            ;
        } else {
            lemma_pow2_strictly_increases(126, low);
            assert(number.magnitude() > pow2(149)) by (nonlinear_arith)
                requires
                    number.magnitude() == (0x80_0000 + f) * pow2(low),
                    pow2(126) < pow2(low),
                    pow2(149) == 0x80_0000 * pow2(126),
            ;
        }
    }

    /// Zero has the level 0 and one the level 255.
    pub proof fn lemma_levels_of_zero_and_one()
        ensures
            (Single { bits: ZERO_BITS }).spec_level() == 0,
            (Single { bits: ONE_BITS }).spec_level() == 255,
    {
        lemma2_to64();
        let zero = Single { bits: ZERO_BITS };
        assert(zero.significand() == 0);
        assert(excess_bits(0) == 0);
        assert(zero.times_255() == (0nat, -149int));
        lemma_pow2_pos(149);
        lemma_basic_div(0, pow2(149) as int);
        let one = Single { bits: ONE_BITS };
        assert(one.exponent_field() == 127 && one.fraction_field() == 0);
        assert(one.significand() == 0x80_0000);
        reveal_with_fuel(excess_bits, 8);
        assert(excess_bits(255 * 0x80_0000) == 7);
        assert(round_half_even(255 * 0x80_0000, 0x80) == 0xFF_0000);
        assert(one.times_255() == (0xFF_0000nat, -16int));
        assert(0xFF_0000nat / 0x1_0000nat == 255);
    }

    /// Whether the number is not a number.
    pub fn nan(self) -> (yes: bool)
        ensures
            yes == self.is_nan(),
    {
        proof {
            Single::lemma_patterns(self);
        }
        self.bits % 0x8000_0000 > 0x7F80_0000
    }

    /// Whether the number equals zero.
    pub fn equals_zero(self) -> (yes: bool)
        ensures
            yes == self.is_zero(),
    {
        proof {
            Single::lemma_patterns(self);
        }
        self.bits % 0x8000_0000 == 0
    }

    /// Whether the number is greater than zero.
    pub fn exceeds_zero(self) -> (yes: bool)
        ensures
            yes == self.above_zero(),
    {
        proof {
            Single::lemma_patterns(self);
        }
        0 < self.bits && self.bits <= 0x7F80_0000
    }

    /// Whether the number equals one.
    pub fn equals_one(self) -> (yes: bool)
        ensures
            yes == self.is_one(),
    {
        proof {
            Single::lemma_patterns(self);
        }
        self.bits == ONE_BITS
    }

    /// The number brought into the range from zero to one.
    pub fn clamp_unit(self) -> (number: Single)
        ensures
            number == self.clamped(),
            number.is_clamped(),
    {
        proof {
            Single::lemma_patterns(self);
            Single::lemma_patterns(Single { bits: ZERO_BITS });
            Single::lemma_patterns(Single { bits: ONE_BITS });
        }
        if 0x8000_0000 < self.bits && self.bits <= 0xFF80_0000 {
            Single { bits: ZERO_BITS }
        } else if ONE_BITS < self.bits && self.bits <= 0x7F80_0000 {
            Single { bits: ONE_BITS }
        } else {
            self
        }
    }

    /// The number as an eight-bit level: what the format gives for the
    /// product with 255, cut to its whole part and held to a byte.
    pub fn level(self) -> (level: u8)
        ensures
            level == self.spec_level(),
    {
        proof {
            Single::lemma_patterns(self);
            lemma2_to64();
        }
        if self.bits >= 0x8000_0000 || self.bits > 0x7F80_0000 {
            return 0;
        }
        let e: u32 = self.bits / HIDDEN_BIT;
        let f: u32 = self.bits % HIDDEN_BIT;
        assert(e == self.exponent_field() && f == self.fraction_field());
        let significand: u64 = if e == 0 {
            f as u64
        } else {
            (HIDDEN_BIT + f) as u64
        };
        let scale: i32 = if e == 0 {
            -149
        } else {
            e as i32 - 150
        };
        let exact: u64 = 255 * significand;
        let mut shed: u32 = 0;
        let mut unit: u64 = 1;
        while shed < 8 && exact / unit >= 0x100_0000
            invariant
                exact < 0x1_0000_0000,
                shed <= 8,
                unit == pow2(shed as nat),
                0 < unit <= 0x100,
                shed > 0 ==> exact / unit >= 0x80_0000,
                excess_bits(exact as nat) == shed + excess_bits((exact / unit) as nat),
            decreases 8 - shed,
        {
            proof {
                lemma2_to64();
                lemma_pow2_unfold((shed + 1) as nat);
                if shed + 1 < 8 {
                    lemma_pow2_strictly_increases((shed + 1) as nat, 8);
                }
                lemma_div_denominator(exact as int, unit as int, 2);
            }
            unit = unit * 2;
            shed = shed + 1;
        }
        let quotient: u64 = exact / unit;
        let rest: u64 = exact % unit;
        let rounded: u64 = if 2 * rest > unit || (2 * rest == unit && quotient % 2 == 1) {
            quotient + 1
        } else {
            quotient
        };
        assert(quotient < 0x100_0000) by {
            lemma2_to64();
            assert(exact / 0x100 < 0x100_0000);
        }
        assert(excess_bits(quotient as nat) == 0);
        assert(rounded == round_half_even(exact as nat, pow2(shed as nat)));
        let scaled: i32 = scale + shed as i32;
        assert(self.times_255() == (rounded as nat, scaled as int));
        if scaled >= 0 {
            proof {
                lemma_pow2_pos(scaled as nat);
                assert(rounded * pow2(scaled as nat) >= 255) by (nonlinear_arith)
                    requires
                        rounded >= 0x80_0000,
                        pow2(scaled as nat) > 0,
                ;
            }
            255
        } else if scaled <= -32 {
            proof {
                lemma_pow2_strictly_increases(31, (-scaled) as nat);
                lemma_basic_div(rounded as int, pow2((-scaled) as nat) as int);
            }
            0
        } else {
            let down: u32 = (-scaled) as u32;
            proof {
                lemma_u64_shr_is_div(rounded, down as u64);
            }
            let whole: u64 = rounded >> down;
            if whole >= 255 {
                255
            } else {
                whole as u8
            }
        }
    }

    /// The number cut to its whole part, as a 32-bit signed integer: the
    /// nearest bound of that type where the whole part is beyond it, and 0
    /// for a NaN.
    pub fn truncate(self) -> (whole: i32)
        ensures
            whole == self.truncated(),
    {
        proof {
            Single::lemma_patterns(self);
            lemma2_to64();
        }
        let magnitude_bits: u32 = self.bits % 0x8000_0000;
        if magnitude_bits > 0x7F80_0000 {
            return 0;
        }
        let negative: bool = self.bits >= 0x8000_0000;
        let e: u32 = magnitude_bits / HIDDEN_BIT;
        let f: u32 = magnitude_bits % HIDDEN_BIT;
        assert(e == self.exponent_field() && f == self.fraction_field());
        if e < 127 {
            proof {
                let lowering = (-self.scale()) as nat;
                if lowering > 24 {
                    lemma_pow2_strictly_increases(24, lowering);
                }
                lemma_basic_div(self.significand() as int, pow2(lowering) as int);
            }
            return 0;
        }
        let significand: u64 = (HIDDEN_BIT + f) as u64;
        if e >= 158 {
            proof {
                let raising = (e - 150) as nat;
                if raising > 8 {
                    lemma_pow2_strictly_increases(8, raising);
                }
                assert(significand * pow2(raising) >= 0x8000_0000) by (nonlinear_arith)
                    requires
                        significand >= 0x80_0000,
                        pow2(raising) >= 0x100,
                ;
            }
            return if negative {
                i32::MIN
            } else {
                i32::MAX
            };
        }
        let whole: u64 = if e >= 150 {
            proof {
                let raising = (e - 150) as nat;
                if raising < 7 {
                    lemma_pow2_strictly_increases(raising, 7);
                }
                assert(significand * pow2(raising) < 0x8000_0000) by (nonlinear_arith)
                    requires
                        significand < 0x100_0000,
                        pow2(raising) <= 0x80,
                ;
                lemma_u64_shl_is_mul(significand, (e - 150) as u64);
            }
            significand << (e - 150)
        } else {
            proof {
                lemma_u64_shr_is_div(significand, (150 - e) as u64);
            }
            significand >> (150 - e)
        };
        assert(whole == whole_part(self.significand(), self.scale()));
        if negative {
            -(whole as i32)
        } else {
            whole as i32
        }
    }
}

} // verus!
