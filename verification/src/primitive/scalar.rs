//! Binary64 numbers carried as their bit patterns.
//!
//! The renderer's arithmetic that rounds (sums, products, roots, trigonometry)
//! is done by the caller in hardware. What this module offers is the part of
//! IEEE 754 that is a function of the encoding alone: classification, sign
//! changes, the order, selection by the order, and conversion to integers.
//! A `Scalar` built with `to_bits` on the caller's side and read back with
//! `from_bits` is the same number.
use vstd::prelude::*;
use vstd::arithmetic::div_mod::lemma_fundamental_div_mod;
use vstd::arithmetic::power2::{lemma2_to64, lemma_pow2_pos, lemma_pow2_strictly_increases, pow2};
use vstd::bits::{lemma_u64_shl_is_mul, lemma_u64_shr_is_div};

verus! {

/// The sign bit of a binary64 pattern.
pub const SIGN_BIT: u64 = 0x8000_0000_0000_0000;

/// Everything but the sign bit.
pub const MAGNITUDE_MASK: u64 = 0x7fff_ffff_ffff_ffff;

/// The pattern of positive infinity; larger magnitudes are NaNs.
pub const INFINITY_BITS: u64 = 0x7ff0_0000_0000_0000;

/// A binary64 number, held as its IEEE 754 bit pattern.
#[derive(Clone, Copy, Debug)]
pub struct Scalar {
    pub bits: u64,
}

impl Scalar {
    /// The pattern with the sign bit cleared.
    pub open spec fn magnitude(self) -> int {
        self.bits as int % 0x8000_0000_0000_0000
    }

    /// Whether the sign bit is set.
    pub open spec fn negative(self) -> bool {
        self.bits >= 0x8000_0000_0000_0000
    }

    /// Whether the pattern encodes a NaN.
    pub open spec fn nan(self) -> bool {
        self.magnitude() > 0x7ff0_0000_0000_0000
    }

    /// Whether the pattern encodes a number that is neither NaN nor infinite.
    pub open spec fn finite(self) -> bool {
        self.magnitude() < 0x7ff0_0000_0000_0000
    }

    /// Position of a number in the order of the extended reals: for patterns
    /// that are not NaN, a number is smaller exactly when its rank is. Both
    /// zeros have rank 0.
    pub open spec fn rank(self) -> int {
        if self.negative() {
            -self.magnitude()
        } else {
            self.magnitude()
        }
    }

    /// `self < other` as IEEE 754 has it: false when either side is NaN.
    pub open spec fn less(self, other: Scalar) -> bool {
        !self.nan() && !other.nan() && self.rank() < other.rank()
    }

    /// `self <= other` as IEEE 754 has it.
    pub open spec fn at_most(self, other: Scalar) -> bool {
        !self.nan() && !other.nan() && self.rank() <= other.rank()
    }

    /// `self == other` as IEEE 754 has it: NaN equals nothing, and the two
    /// zeros are equal.
    pub open spec fn same(self, other: Scalar) -> bool {
        !self.nan() && !other.nan() && self.rank() == other.rank()
    }

    /// The smaller of two numbers, a NaN giving way to the other operand.
    /// Of two operands that compare equal the first is taken.
    pub open spec fn lesser(self, other: Scalar) -> Scalar {
        if self.nan() {
            other
        } else if other.less(self) {
            other
        } else {
            self
        }
    }

    /// The larger of two numbers, a NaN giving way to the other operand.
    /// Of two operands that compare equal the first is taken.
    pub open spec fn greater(self, other: Scalar) -> Scalar {
        if self.nan() {
            other
        } else if self.less(other) {
            other
        } else {
            self
        }
    }

    /// The same number with the opposite sign.
    pub open spec fn negated(self) -> Scalar {
        if self.negative() {
            Scalar { bits: (self.bits - 0x8000_0000_0000_0000) as u64 }
        } else {
            Scalar { bits: (self.bits + 0x8000_0000_0000_0000) as u64 }
        }
    }

    /// The biased exponent: the eleven bits under the sign.
    pub open spec fn exponent(self) -> int {
        self.magnitude() / 0x10_0000_0000_0000
    }

    /// The significand as a whole number of 53 bits: the fifty-two lowest
    /// bits, and the hidden bit above them unless the exponent is zero.
    pub open spec fn significand(self) -> int {
        if self.exponent() == 0 {
            self.magnitude() % 0x10_0000_0000_0000
        } else {
            0x10_0000_0000_0000 + self.magnitude() % 0x10_0000_0000_0000
        }
    }

    /// The power of two that the significand is to be multiplied by: a
    /// finite number's absolute value is `significand * 2^scale`.
    pub open spec fn scale(self) -> int {
        if self.exponent() == 0 {
            -1074
        } else {
            self.exponent() - 1075
        }
    }

    /// For a finite number, the whole part of its absolute value times
    /// `2^k`.
    pub open spec fn whole_of_scaled(self, k: int) -> int {
        let shift = self.scale() + k;
        if shift >= 0 {
            self.significand() * pow2(shift as nat)
        } else {
            self.significand() / (pow2((-shift) as nat) as int)
        }
    }

    /// For a finite number, whether it is a whole number.
    pub open spec fn integral(self) -> bool {
        let shift = self.scale();
        shift >= 0 || self.significand() % (pow2((-shift) as nat) as int) == 0
    }

    /// For a finite number, the greatest whole number that is not above it.
    pub open spec fn floored(self) -> int {
        if !self.negative() {
            self.whole_of_scaled(0)
        } else if self.integral() {
            -self.whole_of_scaled(0)
        } else {
            -self.whole_of_scaled(0) - 1
        }
    }

    /// The number times `2^k` as a whole number between 0 and `cap`, the way
    /// a conversion to an unsigned integer type gives it: the fraction is
    /// dropped, what lies outside the type becomes its nearest bound, and NaN
    /// becomes 0.
    pub open spec fn as_natural(self, k: int, cap: int) -> int {
        if self.nan() || self.negative() {
            0
        } else if !self.finite() || self.whole_of_scaled(k) > cap {
            cap
        } else {
            self.whole_of_scaled(k)
        }
    }

    /// The floor of the number as a whole number between `lo` and `hi`:
    /// what lies outside becomes the nearest bound, and NaN becomes 0.
    pub open spec fn floor_within(self, lo: int, hi: int) -> int {
        if self.nan() {
            0
        } else if !self.finite() {
            if self.negative() {
                lo
            } else {
                hi
            }
        } else if self.floored() < lo {
            lo
        } else if self.floored() > hi {
            hi
        } else {
            self.floored()
        }
    }

    pub fn from_bits(bits: u64) -> (s: Scalar)
        ensures
            s.bits == bits,
    {
        Scalar { bits }
    }

    pub fn to_bits(&self) -> (b: u64)
        ensures
            b == self.bits,
    {
        self.bits
    }

    /// Positive zero.
    pub fn zero() -> (s: Scalar)
        ensures
            s.bits == 0,
    {
        Scalar { bits: 0 }
    }

    /// The number one.
    pub fn one() -> (s: Scalar)
        ensures
            s.bits == 0x3ff0_0000_0000_0000,
    {
        Scalar { bits: 0x3ff0_0000_0000_0000 }
    }

    /// Positive infinity.
    pub fn infinity() -> (s: Scalar)
        ensures
            s.bits == INFINITY_BITS,
    {
        Scalar { bits: INFINITY_BITS }
    }

    /// Negative infinity.
    pub fn neg_infinity() -> (s: Scalar)
        ensures
            s.bits == 0xfff0_0000_0000_0000,
    {
        Scalar { bits: 0xfff0_0000_0000_0000 }
    }

    fn magnitude_bits(&self) -> (m: u64)
        ensures
            m == self.magnitude(),
            m <= MAGNITUDE_MASK,
    {
        let b: u64 = self.bits;
        assert(b & 0x7fff_ffff_ffff_ffff == b % 0x8000_0000_0000_0000) by (bit_vector);
        b & MAGNITUDE_MASK
    }

    pub fn is_sign_negative(&self) -> (r: bool)
        ensures
            r == self.negative(),
    {
        self.bits >= SIGN_BIT
    }

    pub fn is_nan(&self) -> (r: bool)
        ensures
            r == self.nan(),
    {
        self.magnitude_bits() > INFINITY_BITS
    }

    pub fn is_finite(&self) -> (r: bool)
        ensures
            r == self.finite(),
    {
        self.magnitude_bits() < INFINITY_BITS
    }

    /// The rank as a machine integer.
    fn key(&self) -> (k: i64)
        ensures
            k == self.rank(),
    {
        let m: u64 = self.magnitude_bits();
        let k: i64 = m as i64;
        if self.bits >= SIGN_BIT {
            -k
        } else {
            k
        }
    }

    /// `self < other`.
    pub fn lt(&self, other: &Scalar) -> (r: bool)
        ensures
            r == self.less(*other),
    {
        !self.is_nan() && !other.is_nan() && self.key() < other.key()
    }

    /// `self <= other`.
    pub fn le(&self, other: &Scalar) -> (r: bool)
        ensures
            r == self.at_most(*other),
    {
        !self.is_nan() && !other.is_nan() && self.key() <= other.key()
    }

    /// `self > other`.
    pub fn gt(&self, other: &Scalar) -> (r: bool)
        ensures
            r == other.less(*self),
    {
        other.lt(self)
    }

    /// `self >= other`.
    pub fn ge(&self, other: &Scalar) -> (r: bool)
        ensures
            r == other.at_most(*self),
    {
        other.le(self)
    }

    /// `self == other` by value.
    pub fn equals(&self, other: &Scalar) -> (r: bool)
        ensures
            r == self.same(*other),
    {
        !self.is_nan() && !other.is_nan() && self.key() == other.key()
    }

    /// The number with its sign flipped. A NaN stays a NaN.
    pub fn neg(&self) -> (r: Scalar)
        ensures
            r == self.negated(),
            r.magnitude() == self.magnitude(),
            r.negative() == !self.negative(),
    {
        let b: u64 = self.bits;
        assert(b ^ 0x8000_0000_0000_0000 == if b >= 0x8000_0000_0000_0000 {
            (b - 0x8000_0000_0000_0000) as u64
        } else {
            (b + 0x8000_0000_0000_0000) as u64
        }) by (bit_vector);
        Scalar { bits: b ^ SIGN_BIT }
    }

    /// The number with its sign cleared. A NaN stays a NaN.
    pub fn abs(&self) -> (r: Scalar)
        ensures
            r.bits == self.magnitude(),
            !r.negative(),
            r.magnitude() == self.magnitude(),
    {
        Scalar { bits: self.magnitude_bits() }
    }

    /// The smaller operand; if one operand is NaN, the other one.
    pub fn min(&self, other: &Scalar) -> (r: Scalar)
        ensures
            r == self.lesser(*other),
    {
        if self.is_nan() {
            *other
        } else if other.lt(self) {
            *other
        } else {
            *self
        }
    }

    /// The larger operand; if one operand is NaN, the other one.
    pub fn max(&self, other: &Scalar) -> (r: Scalar)
        ensures
            r == self.greater(*other),
    {
        if self.is_nan() {
            *other
        } else if self.lt(other) {
            *other
        } else {
            *self
        }
    }

    /// For a finite number and `k` up to 64: the whole part of its absolute
    /// value times `2^k`, held at the largest `u64` where it is beyond, and
    /// whether the number itself is whole.
    fn whole_part(&self, k: u64) -> (r: (u64, bool))
        requires
            self.finite(),
            k <= 64,
        ensures
            r.0 == if self.whole_of_scaled(k as int) > u64::MAX {
                u64::MAX as int
            } else {
                self.whole_of_scaled(k as int)
            },
            k == 0 ==> r.1 == self.integral(),
    {
        let m: u64 = self.magnitude_bits();
        assert(m >> 52 == m / 0x10_0000_0000_0000) by (bit_vector);
        assert(m & 0xf_ffff_ffff_ffff == m % 0x10_0000_0000_0000) by (bit_vector);
        let e: u64 = m >> 52;
        let f: u64 = m & 0xf_ffff_ffff_ffff;
        let sig: u64 = if e == 0 {
            f
        } else {
            f + 0x10_0000_0000_0000
        };
        let e1: u64 = if e == 0 {
            1
        } else {
            e
        };
        assert(sig == self.significand());
        assert(e1 - 1075 == self.scale());
        let up: u64 = e1 + k;
        proof {
            lemma2_to64();
        }
        if up >= 1075 {
            let sh: u64 = up - 1075;
            assert(e != 0);
            assert(sig >= 0x10_0000_0000_0000 && sig < 0x20_0000_0000_0000);
            if sh <= 11 {
                proof {
                    assert(pow2(sh as nat) <= 2048) by {
                        lemma2_to64();
                        if sh < 11 {
                            lemma_pow2_strictly_increases(sh as nat, 11);
                        }
                    }
                    assert(sig * pow2(sh as nat) <= u64::MAX) by (nonlinear_arith)
                        requires
                            sig < 0x20_0000_0000_0000,
                            pow2(sh as nat) <= 2048,
                    ;
                    lemma_u64_shl_is_mul(sig, sh);
                }
                (sig << sh, true)
            } else {
                proof {
                    assert(pow2(sh as nat) >= 4096) by {
                        lemma2_to64();
                        if sh > 12 {
                            lemma_pow2_strictly_increases(12, sh as nat);
                        }
                    }
                    assert(sig * pow2(sh as nat) > u64::MAX) by (nonlinear_arith)
                        requires
                            sig >= 0x10_0000_0000_0000,
                            pow2(sh as nat) >= 4096,
                    ;
                }
                (u64::MAX, true)
            }
        } else {
            let sh: u64 = 1075 - up;
            if sh >= 64 {
                proof {
                    assert(pow2(sh as nat) >= 0x1_0000_0000_0000_0000) by {
                        lemma2_to64();
                        if sh > 64 {
                            lemma_pow2_strictly_increases(64, sh as nat);
                        }
                    }
                    assert(sig as int / pow2(sh as nat) as int == 0) by (nonlinear_arith)
                        requires
                            0 <= sig < 0x20_0000_0000_0000,
                            pow2(sh as nat) >= 0x1_0000_0000_0000_0000,
                    ;
                    if sig != 0 {
                        assert(sig as int % pow2(sh as nat) as int == sig) by (nonlinear_arith)
                            requires
                                0 < sig < 0x20_0000_0000_0000,
                                pow2(sh as nat) >= 0x1_0000_0000_0000_0000,
                        ;
                    }
                }
                (0, sig == 0)
            } else {
                let w: u64 = sig >> sh;
                proof {
                    lemma_pow2_pos(sh as nat);
                    lemma_u64_shr_is_div(sig, sh);
                    lemma_fundamental_div_mod(sig as int, pow2(sh as nat) as int);
                    assert(w * pow2(sh as nat) <= sig) by (nonlinear_arith)
                        requires
                            sig == pow2(sh as nat) * w + (sig as int % pow2(sh as nat) as int),
                            0 <= sig as int % pow2(sh as nat) as int,
                    ;
                    lemma_u64_shl_is_mul(w, sh);
                    assert((w << sh == sig) <==> (sig as int % pow2(sh as nat) as int == 0))
                        by (nonlinear_arith)
                        requires
                            sig == pow2(sh as nat) * w + (sig as int % pow2(sh as nat) as int),
                            (w << sh) == w * pow2(sh as nat),
                    ;
                }
                (w, (w << sh) == sig)
            }
        }
    }

    /// The number times `2^k` as an unsigned integer of at most `cap`.
    fn to_natural(&self, k: u64, cap: u64) -> (n: u64)
        requires
            k <= 64,
        ensures
            n == self.as_natural(k as int, cap as int),
    {
        if self.is_nan() || self.is_sign_negative() {
            0
        } else if !self.is_finite() {
            cap
        } else {
            let (w, _) = self.whole_part(k);
            if w > cap {
                cap
            } else {
                w
            }
        }
    }

    /// The number as a `u32`, as a conversion of a binary64 number to that
    /// type gives it.
    pub fn to_u32(&self) -> (n: u32)
        ensures
            n == self.as_natural(0, u32::MAX as int),
    {
        self.to_natural(0, 0xffff_ffff) as u32
    }

    /// The number as a `usize`, as a conversion of a binary64 number to that
    /// type gives it.
    pub fn to_usize(&self) -> (n: usize)
        ensures
            n == self.as_natural(0, usize::MAX as int),
    {
        self.to_natural(0, usize::MAX as u64) as usize
    }

    /// 256 times the number as a `u8`: the byte that stands for an intensity
    /// between 0 and 1.
    pub fn to_byte(&self) -> (n: u8)
        ensures
            n == self.as_natural(8, 255),
    {
        self.to_natural(8, 255) as u8
    }

    /// The floor of the number as an `i32`, as a conversion of the floor to
    /// that type gives it.
    pub fn floor_i32(&self) -> (n: i32)
        ensures
            n == self.floor_within(i32::MIN as int, i32::MAX as int),
    {
        if self.is_nan() {
            0
        } else if !self.is_finite() {
            if self.is_sign_negative() {
                i32::MIN
            } else {
                i32::MAX
            }
        } else {
            let (w, whole) = self.whole_part(0);
            if !self.is_sign_negative() {
                if w > 0x7fff_ffff {
                    i32::MAX
                } else {
                    w as i32
                }
            } else if w >= 0x8000_0000 {
                i32::MIN
            } else {
                let k: i32 = w as i32;
                if whole {
                    -k
                } else {
                    -k - 1
                }
            }
        }
    }
}

} // verus!
