//! Single-precision numbers as bit patterns.
//!
//! Nothing can be proved of rounding, so this crate never adds or multiplies.
//! What it does with a number is compare it, take its sign away or flip it,
//! and carry it around. All of that is exact on the IEEE 754 binary32
//! encoding, which is therefore what a [`Scalar`] holds. Callers convert at
//! the border with `to_bits` and `from_bits` of their number type.
use vstd::arithmetic::power2::{
    lemma_pow2_pos, lemma_pow2_strictly_increases, lemma_pow2_unfold, pow2,
};
use vstd::prelude::*;

verus! {

/// The sign bit of the encoding.
pub const SIGN_BIT: u32 = 0x8000_0000;

/// The encoding of positive infinity; every larger magnitude is a NaN.
pub const INFINITY_BITS: u32 = 0x7f80_0000;

/// The encoding of `1.0`.
pub const ONE_BITS: u32 = 0x3f80_0000;

/// An IEEE 754 binary32 number, held as its encoding.
#[derive(Clone, Copy, Debug)]
pub struct Scalar {
    pub bits: u32,
}

impl Scalar {
    /// The sign bit is set. True of `-0.0` and of NaNs with the bit set.
    pub open spec fn negative(self) -> bool {
        self.bits >= SIGN_BIT
    }

    /// The encoding without its sign bit.
    pub open spec fn magnitude(self) -> int {
        if self.bits >= SIGN_BIT {
            self.bits - SIGN_BIT
        } else {
            self.bits as int
        }
    }

    /// Not a number: the exponent is all ones and the fraction is not zero.
    pub open spec fn nan(self) -> bool {
        self.magnitude() > INFINITY_BITS
    }

    /// The place of a number on the number line, as an integer: of two
    /// numbers the smaller has the smaller rank, and both zeros have rank 0.
    /// Meaningless for a NaN.
    pub open spec fn rank(self) -> int {
        if self.negative() {
            -self.magnitude()
        } else {
            self.magnitude()
        }
    }

    /// The place of an encoding in the total order of IEEE 754: negative NaNs
    /// first, then the numbers from the least up, negative zero before
    /// positive zero, then positive NaNs. Wherever `less` holds of two
    /// numbers, the total rank of the first is the smaller too.
    pub open spec fn total_rank(self) -> int {
        if self.negative() {
            -self.magnitude() - 1
        } else {
            self.magnitude()
        }
    }

    /// IEEE `<`: false as soon as either side is a NaN.
    pub open spec fn less(self, other: Scalar) -> bool {
        !self.nan() && !other.nan() && self.rank() < other.rank()
    }

    /// IEEE `>`.
    pub open spec fn greater(self, other: Scalar) -> bool {
        other.less(self)
    }

    /// IEEE `>=`: false as soon as either side is a NaN.
    pub open spec fn at_least(self, other: Scalar) -> bool {
        !self.nan() && !other.nan() && self.rank() >= other.rank()
    }

    /// IEEE `<=`.
    pub open spec fn at_most(self, other: Scalar) -> bool {
        other.at_least(self)
    }

    /// Neither a NaN nor negative zero: among such numbers two are the same
    /// number only if they are the same encoding.
    pub open spec fn plain(self) -> bool {
        !self.nan() && self.bits != SIGN_BIT
    }

    /// The number with its sign bit cleared.
    pub open spec fn absolute(self) -> Scalar {
        Scalar { bits: self.magnitude() as u32 }
    }

    /// The number with its sign bit flipped.
    pub open spec fn negated(self) -> Scalar {
        if self.bits >= SIGN_BIT {
            Scalar { bits: (self.bits - SIGN_BIT) as u32 }
        } else {
            Scalar { bits: (self.bits + SIGN_BIT) as u32 }
        }
    }

    /// Positive zero less the number: the number with its sign flipped, but
    /// positive zero for either zero. A NaN gives a NaN.
    pub open spec fn reversed(self) -> Scalar {
        if self.magnitude() == 0 {
            Scalar { bits: 0 }
        } else {
            self.negated()
        }
    }

    /// The larger of two numbers, a NaN losing to a number. Of two equal
    /// numbers (the two zeros) it is `self`.
    pub open spec fn larger(self, other: Scalar) -> Scalar {
        if self.nan() {
            other
        } else if other.nan() {
            self
        } else if self.rank() < other.rank() {
            other
        } else {
            self
        }
    }

    /// The smaller of two numbers, a NaN losing to a number. Of two equal
    /// numbers (the two zeros) it is `self`.
    pub open spec fn smaller(self, other: Scalar) -> Scalar {
        if self.nan() {
            other
        } else if other.nan() {
            self
        } else if other.rank() < self.rank() {
            other
        } else {
            self
        }
    }

    /// Positive zero.
    pub open spec fn zero_value() -> Scalar {
        Scalar { bits: 0 }
    }

    /// The number one.
    pub open spec fn one_value() -> Scalar {
        Scalar { bits: ONE_BITS }
    }

    pub fn from_bits(bits: u32) -> (r: Scalar)
        ensures
            r.bits == bits,
    {
        Scalar { bits }
    }

    pub fn to_bits(self) -> (r: u32)
        ensures
            r == self.bits,
    {
        self.bits
    }

    pub fn zero() -> (r: Scalar)
        ensures
            r == Scalar::zero_value(),
            !r.nan(),
            r.rank() == 0,
    {
        Scalar { bits: 0 }
    }

    pub fn one() -> (r: Scalar)
        ensures
            r == Scalar::one_value(),
            !r.nan(),
            r.rank() == ONE_BITS,
    {
        Scalar { bits: ONE_BITS }
    }

    fn magnitude_bits(self) -> (m: u32)
        ensures
            m == self.magnitude(),
    {
        if self.bits >= SIGN_BIT {
            self.bits - SIGN_BIT
        } else {
            self.bits
        }
    }

    fn signed_rank(self) -> (k: i64)
        ensures
            k == self.rank(),
    {
        let m: u32 = self.magnitude_bits();
        if self.bits >= SIGN_BIT {
            -(m as i64)
        } else {
            m as i64
        }
    }

    /// The place of the encoding in the total order, as an integer.
    pub fn total_key(self) -> (k: i64)
        ensures
            k == self.total_rank(),
    {
        let m: u32 = self.magnitude_bits();
        if self.bits >= SIGN_BIT {
            -(m as i64) - 1
        } else {
            m as i64
        }
    }

    pub fn is_nan(self) -> (r: bool)
        ensures
            r == self.nan(),
    {
        self.magnitude_bits() > INFINITY_BITS
    }

    pub fn is_sign_negative(self) -> (r: bool)
        ensures
            r == self.negative(),
    {
        self.bits >= SIGN_BIT
    }

    pub fn lt(self, other: Scalar) -> (r: bool)
        ensures
            r == self.less(other),
    {
        !self.is_nan() && !other.is_nan() && self.signed_rank() < other.signed_rank()
    }

    pub fn gt(self, other: Scalar) -> (r: bool)
        ensures
            r == self.greater(other),
    {
        other.lt(self)
    }

    pub fn ge(self, other: Scalar) -> (r: bool)
        ensures
            r == self.at_least(other),
    {
        !self.is_nan() && !other.is_nan() && self.signed_rank() >= other.signed_rank()
    }

    pub fn le(self, other: Scalar) -> (r: bool)
        ensures
            r == self.at_most(other),
    {
        other.ge(self)
    }

    pub fn abs(self) -> (r: Scalar)
        ensures
            r == self.absolute(),
            !r.negative(),
            r.nan() == self.nan(),
            r.rank() == self.magnitude(),
    {
        Scalar { bits: self.magnitude_bits() }
    }

    pub fn neg(self) -> (r: Scalar)
        ensures
            r == self.negated(),
            r.nan() == self.nan(),
            r.rank() == -self.rank(),
            r.negative() != self.negative(),
    {
        if self.bits >= SIGN_BIT {
            Scalar { bits: self.bits - SIGN_BIT }
        } else {
            Scalar { bits: self.bits + SIGN_BIT }
        }
    }

    /// Positive zero less the number. No rounding takes part in it.
    pub fn zero_minus(self) -> (r: Scalar)
        ensures
            r == self.reversed(),
            r.nan() == self.nan(),
            !self.nan() ==> r.rank() == -self.rank(),
    {
        if self.magnitude_bits() == 0 {
            Scalar { bits: 0 }
        } else {
            self.neg()
        }
    }

    pub fn max(self, other: Scalar) -> (r: Scalar)
        ensures
            r == self.larger(other),
    {
        if self.is_nan() {
            other
        } else if other.is_nan() {
            self
        } else if self.signed_rank() < other.signed_rank() {
            other
        } else {
            self
        }
    }

    pub fn min(self, other: Scalar) -> (r: Scalar)
        ensures
            r == self.smaller(other),
    {
        if self.is_nan() {
            other
        } else if other.is_nan() {
            self
        } else if other.signed_rank() < self.signed_rank() {
            other
        } else {
            self
        }
    }
}

/// The size of the number whose encoding, sign bit apart, is `magnitude`,
/// times two to the power of 149, which makes an integer of it: the
/// significand, shifted by the exponent. The leading bit of the significand
/// is implied wherever the exponent field is not zero.
pub open spec fn size_of(magnitude: int) -> int {
    let exponent = magnitude / 0x80_0000;
    let fraction = magnitude % 0x80_0000;
    if exponent == 0 {
        fraction
    } else {
        (0x80_0000 + fraction) * pow2((exponent - 1) as nat)
    }
}

impl Scalar {
    /// Neither infinite nor a NaN.
    pub open spec fn finite(self) -> bool {
        self.magnitude() < INFINITY_BITS
    }

    /// The number that a finite encoding stands for, times two to the power
    /// of 149.
    pub open spec fn scaled_value(self) -> int {
        if self.negative() {
            -size_of(self.magnitude())
        } else {
            size_of(self.magnitude())
        }
    }
}

/// Of two encodings of finite sizes the larger encoding stands for the
/// larger size.
pub proof fn lemma_size_grows(smaller: int, larger: int)
    requires
        0 <= smaller < larger < INFINITY_BITS,
    ensures
        0 <= size_of(smaller) < size_of(larger),
{
    let e1 = smaller / 0x80_0000;
    let f1 = smaller % 0x80_0000;
    let e2 = larger / 0x80_0000;
    let f2 = larger % 0x80_0000;
    assert(e1 <= e2);
    if e2 == 0 {
    } else {
        let s2 = (e2 - 1) as nat;
        let high_power = pow2(s2) as int;
        lemma_pow2_pos(s2);
        if e1 == 0 {
            assert((0x80_0000 + f2) * high_power >= 0x80_0000) by (nonlinear_arith)
                requires
                    f2 >= 0,
                    high_power >= 1,
            ;
        } else {
            let s1 = (e1 - 1) as nat;
            let low_power = pow2(s1) as int;
            lemma_pow2_pos(s1);
            if e1 == e2 {
                assert((0x80_0000 + f1) * low_power < (0x80_0000 + f2) * low_power) by (nonlinear_arith)
                    requires
                        f1 < f2,
                        low_power >= 1,
                ;
            } else {
                lemma_pow2_unfold((s1 + 1) as nat);
                if s1 + 1 < s2 {
                    lemma_pow2_strictly_increases((s1 + 1) as nat, s2);
                }
                assert(2 * low_power <= high_power);
                assert((0x80_0000 + f1) * low_power < (0x80_0000 + f2) * high_power) by (nonlinear_arith)
                    requires
                        0 <= f1 < 0x80_0000,
                        0 <= f2,
                        low_power >= 1,
                        2 * low_power <= high_power,
                ;
            }
            assert((0x80_0000 + f1) * low_power >= 0) by (nonlinear_arith)
                requires
                    f1 >= 0,
                    low_power >= 1,
            ;
        }
    }
}

/// The rank orders finite numbers as their values do: of two finite numbers
/// the one of smaller rank is the smaller number, and two of one rank are one
/// number.
pub proof fn lemma_rank_orders_values(a: Scalar, b: Scalar)
    requires
        a.finite(),
        b.finite(),
    ensures
        a.rank() < b.rank() <==> a.scaled_value() < b.scaled_value(),
        a.rank() == b.rank() <==> a.scaled_value() == b.scaled_value(),
{
    let m = a.magnitude();
    let n = b.magnitude();
    assert(size_of(0) == 0);
    if m < n {
        lemma_size_grows(m, n);
    } else if n < m {
        lemma_size_grows(n, m);
    }
    if m > 0 {
        lemma_size_grows(0, m);
    }
    if n > 0 {
        lemma_size_grows(0, n);
    }
}

} // verus!
