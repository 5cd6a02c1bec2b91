//! IEEE-754 binary64 numbers held by their bit patterns.
//!
//! Nothing in this crate rounds: sums, products, quotients and roots are the caller's
//! business. What the crate does with a number is decide on it (is it negative, is it
//! below a bound, which of two is nearer) and, for the image encoder, take its integer
//! part. Both are exact operations on the encoding, so a [`Scalar`] is simply the 64 bits
//! of a double: one sign bit, eleven exponent bits, fifty-two fraction bits.

use vstd::arithmetic::div_mod::lemma_basic_div;
use vstd::arithmetic::power2::{
    lemma2_to64, lemma2_to64_rest, lemma_pow2_adds, lemma_pow2_pos, lemma_pow2_strictly_increases,
    lemma_pow2_unfold, pow2,
};
use vstd::bits::{lemma_u64_shl_is_mul, lemma_u64_shr_is_div};
use vstd::prelude::*;

verus! {

/// The encoding with only the sign bit set: negative zero.
pub const SIGN_BIT: u64 = 0x8000_0000_0000_0000;

/// The encoding of positive infinity. Every larger magnitude is a NaN.
pub const INFINITY_BITS: u64 = 0x7ff0_0000_0000_0000;

/// Two to the fifty-second: the weight of the implicit leading bit of a normal number,
/// and the modulus that splits a magnitude into exponent field and fraction field.
pub const HIDDEN_BIT: u64 = 0x0010_0000_0000_0000;

/// The encoding of one.
pub const ONE_BITS: u64 = 0x3ff0_0000_0000_0000;

/// A binary64 number, stored as the 64 bits of its IEEE-754 encoding.
#[derive(Clone, Copy, Debug)]
pub struct Scalar {
    pub bits: u64,
}

impl Scalar {
    /// The encoding with the sign bit cleared.
    pub open spec fn magnitude(self) -> u64 {
        if self.bits >= SIGN_BIT {
            (self.bits - SIGN_BIT) as u64
        } else {
            self.bits
        }
    }

    /// Whether the sign bit is set. True of negative zero and of half the NaNs too.
    pub open spec fn sign(self) -> bool {
        self.bits >= SIGN_BIT
    }

    /// Not a number: the exponent field is all ones and the fraction is not zero.
    pub open spec fn spec_is_nan(self) -> bool {
        self.magnitude() > INFINITY_BITS
    }

    /// Neither infinite nor a NaN.
    pub open spec fn is_finite(self) -> bool {
        self.magnitude() < INFINITY_BITS
    }

    /// Positive or negative zero.
    pub open spec fn is_zero(self) -> bool {
        self.magnitude() == 0
    }

    /// The place of a number in the order of the doubles: the magnitude of the encoding,
    /// signed. Both zeros have rank 0; among numbers that are not NaN, one is smaller
    /// than another exactly when its rank is.
    pub open spec fn rank(self) -> int {
        if self.sign() {
            -(self.magnitude() as int)
        } else {
            self.magnitude() as int
        }
    }

    /// `self < other` as IEEE-754 has it: false whenever a NaN is involved.
    pub open spec fn spec_lt(self, other: Scalar) -> bool {
        !self.spec_is_nan() && !other.spec_is_nan() && self.rank() < other.rank()
    }

    /// `self <= other` as IEEE-754 has it: false whenever a NaN is involved.
    pub open spec fn spec_le(self, other: Scalar) -> bool {
        !self.spec_is_nan() && !other.spec_is_nan() && self.rank() <= other.rank()
    }

    /// `self > other`, which is `other < self`.
    pub open spec fn spec_gt(self, other: Scalar) -> bool {
        other.spec_lt(self)
    }

    /// `self >= other`, which is `other <= self`.
    pub open spec fn spec_ge(self, other: Scalar) -> bool {
        other.spec_le(self)
    }

    /// The number with its sign bit flipped.
    pub open spec fn spec_neg(self) -> Scalar {
        Scalar {
            bits: if self.bits >= SIGN_BIT {
                (self.bits - SIGN_BIT) as u64
            } else {
                (self.bits + SIGN_BIT) as u64
            },
        }
    }

    /// The number with its sign bit cleared.
    pub open spec fn spec_abs(self) -> Scalar {
        Scalar { bits: self.magnitude() }
    }

    /// The smaller of two numbers. A NaN loses to a number; of two equal numbers (the
    /// two zeros among them) the first is kept.
    pub open spec fn spec_min(self, other: Scalar) -> Scalar {
        if self.spec_is_nan() {
            other
        } else if other.spec_lt(self) {
            other
        } else {
            self
        }
    }

    /// The number held between two bounds: a bound where the number lies beyond it, the
    /// number itself otherwise. A NaN stays a NaN and negative zero stays negative zero.
    pub open spec fn spec_clamp(self, low: Scalar, high: Scalar) -> Scalar {
        if self.spec_lt(low) {
            low
        } else if self.spec_gt(high) {
            high
        } else {
            self
        }
    }

    /// The eleven exponent bits, as a number from 0 to 2047.
    pub open spec fn exponent_field(self) -> nat {
        (self.magnitude() / HIDDEN_BIT) as nat
    }

    /// The fifty-two fraction bits.
    pub open spec fn fraction_field(self) -> nat {
        (self.magnitude() % HIDDEN_BIT) as nat
    }

    /// The integer `m` in `|x| = m * 2^e`: the fraction bits, with the implicit leading
    /// bit on top unless the number is subnormal or zero.
    pub open spec fn significand(self) -> nat {
        if self.exponent_field() == 0 {
            self.fraction_field()
        } else {
            HIDDEN_BIT as nat + self.fraction_field()
        }
    }

    /// The integer `e` in `|x| = m * 2^e`.
    pub open spec fn exponent(self) -> int {
        if self.exponent_field() == 0 {
            -1074
        } else {
            self.exponent_field() - 1075
        }
    }

    /// The number itself, counted in units of 2^-1074, the smallest step between doubles:
    /// every finite double is a whole number of them.
    pub open spec fn units(self) -> int {
        let size = self.significand() * pow2((self.exponent() + 1074) as nat);
        if self.sign() {
            -size
        } else {
            size as int
        }
    }

    /// The integer part of `|x| * 2^k`, for a finite `x`.
    pub open spec fn floor_scaled(self, k: nat) -> nat {
        let e = self.exponent() + k;
        if e >= 0 {
            self.significand() * pow2(e as nat)
        } else {
            self.significand() / pow2((-e) as nat)
        }
    }

    /// What `x as u32` is in Rust: the integer part of `x`, with everything below zero
    /// (and NaN) taken to 0 and everything from 2^32 on taken to `u32::MAX`.
    pub open spec fn spec_truncate(self) -> u32 {
        if self.spec_is_nan() || self.sign() {
            0
        } else if self.floor_scaled(0) >= u32::MAX {
            u32::MAX
        } else {
            self.floor_scaled(0) as u32
        }
    }

    /// The double with the given encoding.
    pub fn from_bits(bits: u64) -> (s: Scalar)
        ensures
            s.bits == bits,
    {
        Scalar { bits }
    }

    /// The encoding of the double.
    pub fn to_bits(self) -> (bits: u64)
        ensures
            bits == self.bits,
    {
        self.bits
    }

    /// Positive zero.
    pub open spec fn spec_zero() -> Scalar {
        Scalar { bits: 0 }
    }

    /// One.
    pub open spec fn spec_one() -> Scalar {
        Scalar { bits: ONE_BITS }
    }

    /// Positive infinity.
    pub open spec fn spec_infinity() -> Scalar {
        Scalar { bits: INFINITY_BITS }
    }

    /// Positive zero.
    #[verifier::when_used_as_spec(spec_zero)]
    pub fn zero() -> (s: Scalar)
        ensures
            s == Self::spec_zero(),
    {
        Scalar { bits: 0 }
    }

    /// One.
    #[verifier::when_used_as_spec(spec_one)]
    pub fn one() -> (s: Scalar)
        ensures
            s == Self::spec_one(),
    {
        Scalar { bits: ONE_BITS }
    }

    /// Positive infinity.
    #[verifier::when_used_as_spec(spec_infinity)]
    pub fn infinity() -> (s: Scalar)
        ensures
            s == Self::spec_infinity(),
    {
        Scalar { bits: INFINITY_BITS }
    }

    fn magnitude_bits(self) -> (m: u64)
        ensures
            m == self.magnitude(),
    {
        if self.bits >= SIGN_BIT {
            self.bits - SIGN_BIT
        } else {
            self.bits
        }
    }

    /// Whether the number is a NaN.
    #[verifier::when_used_as_spec(spec_is_nan)]
    pub fn is_nan(self) -> (r: bool)
        ensures
            r == self.spec_is_nan(),
    {
        self.magnitude_bits() > INFINITY_BITS
    }

    /// `self < other`, as the doubles compare.
    #[verifier::when_used_as_spec(spec_lt)]
    pub fn lt(self, other: Scalar) -> (r: bool)
        ensures
            r == self.spec_lt(other),
    {
        if self.is_nan() || other.is_nan() {
            return false;
        }
        let a = self.magnitude_bits();
        let b = other.magnitude_bits();
        if self.bits >= SIGN_BIT {
            if other.bits >= SIGN_BIT {
                b < a
            } else {
                a != 0 || b != 0
            }
        } else {
            other.bits < SIGN_BIT && a < b
        }
    }

    /// `self <= other`, as the doubles compare.
    #[verifier::when_used_as_spec(spec_le)]
    pub fn le(self, other: Scalar) -> (r: bool)
        ensures
            r == self.spec_le(other),
    {
        if self.is_nan() || other.is_nan() {
            return false;
        }
        let a = self.magnitude_bits();
        let b = other.magnitude_bits();
        if self.bits >= SIGN_BIT {
            other.bits < SIGN_BIT || b <= a
        } else if other.bits >= SIGN_BIT {
            a == 0 && b == 0
        } else {
            a <= b
        }
    }

    /// `self > other`, as the doubles compare.
    #[verifier::when_used_as_spec(spec_gt)]
    pub fn gt(self, other: Scalar) -> (r: bool)
        ensures
            r == self.spec_gt(other),
    {
        other.lt(self)
    }

    /// `self >= other`, as the doubles compare.
    #[verifier::when_used_as_spec(spec_ge)]
    pub fn ge(self, other: Scalar) -> (r: bool)
        ensures
            r == self.spec_ge(other),
    {
        other.le(self)
    }

    /// The number with its sign bit flipped.
    #[verifier::when_used_as_spec(spec_neg)]
    pub fn neg(self) -> (r: Scalar)
        ensures
            r == self.spec_neg(),
    {
        if self.bits >= SIGN_BIT {
            Scalar { bits: self.bits - SIGN_BIT }
        } else {
            Scalar { bits: self.bits + SIGN_BIT }
        }
    }

    /// The number with its sign bit cleared.
    #[verifier::when_used_as_spec(spec_abs)]
    pub fn abs(self) -> (r: Scalar)
        ensures
            r == self.spec_abs(),
    {
        Scalar { bits: self.magnitude_bits() }
    }

    /// The smaller of two numbers, as [`Self::spec_min`] defines it.
    #[verifier::when_used_as_spec(spec_min)]
    pub fn min(self, other: Scalar) -> (r: Scalar)
        ensures
            r == self.spec_min(other),
    {
        if self.is_nan() {
            other
        } else if other.lt(self) {
            other
        } else {
            self
        }
    }

    /// The number held between two bounds, as [`Self::spec_clamp`] defines it.
    #[verifier::when_used_as_spec(spec_clamp)]
    pub fn clamp(self, low: Scalar, high: Scalar) -> (r: Scalar)
        ensures
            r == self.spec_clamp(low, high),
    {
        if self.lt(low) {
            low
        } else if self.gt(high) {
            high
        } else {
            self
        }
    }

    /// The integer part of `|self| * 2^k`, for numbers small enough that it fits.
    pub fn floor_times_pow2(self, k: u8) -> (r: u64)
        requires
            !self.is_nan(),
            self.exponent_field() + k <= 1085,
        ensures
            r == self.floor_scaled(k as nat),
    {
        let m = self.magnitude_bits();
        let field = m / HIDDEN_BIT;
        let fraction = m % HIDDEN_BIT;
        proof {
            lemma2_to64();
            lemma2_to64_rest();
        }
        if field == 0 {
            proof {
                let n = (1074 - k) as nat;
                lemma_pow2_strictly_increases(52, n);
                lemma_basic_div(fraction as int, pow2(n) as int);
            }
            0
        } else {
            let significand = HIDDEN_BIT + fraction;
            let raised = field + k as u64;
            if raised >= 1075 {
                let shift = raised - 1075;
                proof {
                    lemma_pow2_strictly_increases(shift as nat, 11);
                    assert(significand * pow2(shift as nat) <= u64::MAX) by (nonlinear_arith)
                        requires
                            significand < 0x20_0000_0000_0000,
                            pow2(shift as nat) < 0x800,
                    ;
                    lemma_u64_shl_is_mul(significand, shift);
                }
                significand << shift
            } else {
                let shift = 1075 - raised;
                if shift >= 64 {
                    proof {
                        lemma_pow2_strictly_increases(53, shift as nat);
                        lemma_basic_div(significand as int, pow2(shift as nat) as int);
                    }
                    0
                } else {
                    proof {
                        lemma_u64_shr_is_div(significand, shift);
                    }
                    significand >> shift
                }
            }
        }
    }

    /// The number as a `u32`, the way an `as` cast takes it there.
    #[verifier::when_used_as_spec(spec_truncate)]
    pub fn truncate(self) -> (r: u32)
        ensures
            r == self.spec_truncate(),
    {
        if self.is_nan() || self.bits >= SIGN_BIT {
            return 0;
        }
        let field = self.bits / HIDDEN_BIT;
        proof {
            lemma2_to64();
            lemma2_to64_rest();
        }
        if field >= 1055 {
            proof {
                let shift = (field - 1075) as int;
                if shift >= 0 {
                    lemma_pow2_pos(shift as nat);
                    assert(self.significand() * pow2(shift as nat) >= u32::MAX) by (nonlinear_arith)
                        requires
                            self.significand() >= 0x10_0000_0000_0000,
                            pow2(shift as nat) >= 1,
                    ;
                } else {
                    let down = (-shift) as nat;
                    lemma_pow2_adds(down, 32);
                    if down < 20 {
                        lemma_pow2_strictly_increases(down + 32, 52);
                    }
                    lemma_floor_at_least(self.significand() as int, pow2(down) as int, pow2(32) as int);
                }
            }
            u32::MAX
        } else {
            let whole = self.floor_times_pow2(0);
            proof {
                if field != 0 {
                    let shift = (1075 - field) as nat;
                    lemma_pow2_adds(shift, 32);
                    if shift > 21 {
                        lemma_pow2_strictly_increases(53, shift + 32);
                    }
                    lemma_floor_below(self.significand() as int, pow2(shift) as int, pow2(32) as int);
                } else {
                    lemma_pow2_strictly_increases(52, 1074);
                    lemma_basic_div(self.significand() as int, pow2(1074) as int);
                }
            }
            whole as u32
        }
    }
}

/// If `x` is at least `d * q`, then `x / d` is at least `q`.
pub proof fn lemma_floor_at_least(x: int, d: int, q: int)
    by (nonlinear_arith)
    requires
        d > 0,
        x >= d * q,
    ensures
        x / d >= q,
{
}

/// If `x` is below `d * q`, then `x / d` is below `q`.
pub proof fn lemma_floor_below(x: int, d: int, q: int)
    by (nonlinear_arith)
    requires
        d > 0,
        0 <= x < d * q,
    ensures
        x / d < q,
{
}

/// Among non-negative finite doubles, the larger encoding is the larger number.
proof fn lemma_magnitude_orders_units(a: Scalar, b: Scalar)
    requires
        !a.sign(),
        !b.sign(),
        a.is_finite(),
        b.is_finite(),
        a.bits < b.bits,
    ensures
        a.units() < b.units(),
{
    lemma2_to64();
    lemma2_to64_rest();
    let ea = a.exponent_field();
    let eb = b.exponent_field();
    let fa = a.fraction_field();
    let fb = b.fraction_field();
    assert(a.bits == ea * HIDDEN_BIT + fa && b.bits == eb * HIDDEN_BIT + fb);
    assert(ea <= eb);
    let pa = pow2((a.exponent() + 1074) as nat);
    let pb = pow2((b.exponent() + 1074) as nat);
    lemma_pow2_pos((a.exponent() + 1074) as nat);
    lemma_pow2_pos((b.exponent() + 1074) as nat);
    if ea == eb {
        assert(fa < fb);
        assert(a.significand() * pa < b.significand() * pa) by (nonlinear_arith)
            requires
                a.significand() < b.significand(),
                pa > 0,
        ;
    } else if ea == 0 {
        assert(pa == 1);
        assert(b.significand() * pb >= 0x10_0000_0000_0000) by (nonlinear_arith)
            requires
                b.significand() >= 0x10_0000_0000_0000,
                pb >= 1,
        ;
    } else {
        // Both are normal: `a` stays below the next power of two, which `b` has reached.
        let n = (ea - 1) as nat;
        let m = (eb - 1) as nat;
        lemma_pow2_unfold(n + 1);
        if n + 1 < m {
            lemma_pow2_strictly_increases(n + 1, m);
        }
        assert(a.significand() * pa < 0x10_0000_0000_0000 * pow2(n + 1)) by (nonlinear_arith)
            requires
                a.significand() < 0x20_0000_0000_0000,
                pa == pow2(n),
                pow2(n + 1) == 2 * pow2(n),
                pa > 0,
        ;
        assert(0x10_0000_0000_0000 * pow2(n + 1) <= b.significand() * pb) by (nonlinear_arith)
            requires
                b.significand() >= 0x10_0000_0000_0000,
                pb == pow2(m),
                pow2(n + 1) <= pow2(m),
                pow2(n + 1) > 0,
        ;
    }
}

impl Scalar {
    /// The order of the encodings is the order of the numbers: of two finite doubles,
    /// one has the smaller rank exactly when it is the smaller number, and the same rank
    /// exactly when it is the same number.
    pub proof fn lemma_rank_orders_units(a: Scalar, b: Scalar)
        requires
            a.is_finite(),
            b.is_finite(),
        ensures
            a.rank() < b.rank() <==> a.units() < b.units(),
            a.rank() == b.rank() <==> a.units() == b.units(),
    {
        let zero = Scalar { bits: 0 };
        let ma = a.abs();
        let mb = b.abs();
        assert(ma.significand() == a.significand() && ma.exponent() == a.exponent());
        assert(mb.significand() == b.significand() && mb.exponent() == b.exponent());
        assert(zero.exponent_field() == 0 && zero.fraction_field() == 0);
        assert(zero.units() == 0) by (nonlinear_arith)
            requires
                zero.significand() == 0,
                !zero.sign(),
                zero.units() == zero.significand() * pow2((zero.exponent() + 1074) as nat),
        ;
        if ma.bits < mb.bits {
            lemma_magnitude_orders_units(ma, mb);
        }
        if mb.bits < ma.bits {
            lemma_magnitude_orders_units(mb, ma);
        }
        if 0 < ma.bits {
            lemma_magnitude_orders_units(zero, ma);
        }
        if 0 < mb.bits {
            lemma_magnitude_orders_units(zero, mb);
        }
    }

    /// `<` is a strict order that NaN takes no part in, `<=` is `<` or equal in rank, and
    /// negation turns the order round.
    pub proof fn lemma_order(a: Scalar, b: Scalar, c: Scalar)
        ensures
            !a.lt(a),
            a.lt(b) ==> !b.lt(a),
            a.lt(b) && b.lt(c) ==> a.lt(c),
            a.le(b) <==> a.lt(b) || (!a.is_nan() && !b.is_nan() && a.rank() == b.rank()),
            !a.is_nan() && !b.is_nan() ==> a.lt(b) || b.le(a),
            a.lt(b) <==> b.neg().lt(a.neg()),
    {
    }
}

} // verus!
