//! Single-precision scalars held as their IEEE 754 bit patterns.
//!
//! The tracer never does arithmetic on a scalar: it carries scalars through
//! and compares them. A comparison is decided on the bit pattern alone, and
//! is proved to agree with the order of the numbers that the patterns stand
//! for.

use vstd::arithmetic::power2::{lemma_pow2_pos, lemma_pow2_strictly_increases, lemma_pow2_unfold, pow2};
use vstd::prelude::*;

verus! {

/// The sign bit of a binary32 pattern.
pub const SIGN_BIT: u32 = 0x8000_0000;

/// The pattern of positive infinity: all exponent bits set, fraction zero.
pub const INFINITY_BITS: u32 = 0x7f80_0000;

/// The pattern of negative infinity.
pub const NEG_INFINITY_BITS: u32 = 0xff80_0000;

/// The pattern of 1.0.
pub const ONE_BITS: u32 = 0x3f80_0000;

/// Two to the power 23: the weight of the hidden bit, and the number of fractions per exponent.
pub const HIDDEN_BIT: u32 = 0x0080_0000;

/// A binary32 floating-point number, held as its bit pattern.
#[derive(Clone, Copy, Debug)]
pub struct Scalar {
    pub bits: u32,
}

/// The number that a finite magnitude (a pattern without its sign bit)
/// stands for, multiplied by two to the power 149. Every finite binary32
/// number is a whole multiple of two to the power -149, so nothing is lost.
pub open spec fn scaled_magnitude(magnitude: int) -> int {
    let exponent = magnitude / (HIDDEN_BIT as int);
    let fraction = magnitude % (HIDDEN_BIT as int);
    if exponent == 0 {
        fraction
    } else {
        (HIDDEN_BIT + fraction) * pow2((exponent - 1) as nat)
    }
}

impl Scalar {
    /// Whether the sign bit is set. True of -0.0 too.
    pub open spec fn negative(self) -> bool {
        self.bits >= SIGN_BIT
    }

    /// The pattern without its sign bit.
    pub open spec fn magnitude(self) -> int {
        if self.negative() {
            self.bits - SIGN_BIT
        } else {
            self.bits as int
        }
    }

    /// Not a number: exponent bits all set and a fraction that is not zero.
    pub open spec fn is_nan_spec(self) -> bool {
        self.magnitude() > INFINITY_BITS
    }

    /// Neither an infinity nor a NaN.
    pub open spec fn is_finite(self) -> bool {
        self.magnitude() < INFINITY_BITS
    }

    /// An integer that orders the scalars that are not NaN as their numbers
    /// are ordered: the magnitude, negated under a sign bit. Both zeros have
    /// rank 0.
    pub open spec fn rank(self) -> int {
        if self.negative() {
            -self.magnitude()
        } else {
            self.magnitude()
        }
    }

    /// The number that a finite scalar stands for, multiplied by two to the
    /// power 149.
    pub open spec fn scaled(self) -> int {
        if self.negative() {
            -scaled_magnitude(self.magnitude())
        } else {
            scaled_magnitude(self.magnitude())
        }
    }

    /// `self < other` as IEEE 754 defines it: false when either side is NaN.
    pub open spec fn lt_spec(self, other: Scalar) -> bool {
        !self.is_nan_spec() && !other.is_nan_spec() && self.rank() < other.rank()
    }

    /// `self > other` as IEEE 754 defines it: false when either side is NaN.
    pub open spec fn gt_spec(self, other: Scalar) -> bool {
        other.lt_spec(self)
    }

    /// `self` lies strictly inside the open interval from `low` to `high`.
    pub open spec fn within(self, low: Scalar, high: Scalar) -> bool {
        low.lt_spec(self) && self.lt_spec(high)
    }

    /// The scalar 0.0.
    pub open spec fn zero_spec() -> Scalar {
        Scalar { bits: 0 }
    }

    /// The scalar 1.0.
    pub open spec fn one_spec() -> Scalar {
        Scalar { bits: ONE_BITS }
    }

    pub fn from_bits(bits: u32) -> (s: Scalar)
        ensures
            s.bits == bits,
    {
        Scalar { bits }
    }

    pub fn to_bits(self) -> (bits: u32)
        ensures
            bits == self.bits,
    {
        self.bits
    }

    pub fn zero() -> (s: Scalar)
        ensures
            s == Scalar::zero_spec(),
    {
        Scalar { bits: 0 }
    }

    pub fn one() -> (s: Scalar)
        ensures
            s == Scalar::one_spec(),
    {
        Scalar { bits: ONE_BITS }
    }

    /// The pattern without its sign bit.
    fn magnitude_bits(self) -> (m: u32)
        ensures
            m == self.magnitude(),
    {
        if self.bits >= SIGN_BIT {
            self.bits - SIGN_BIT
        } else {
            self.bits
        }
    }

    pub fn is_nan(self) -> (r: bool)
        ensures
            r == self.is_nan_spec(),
    {
        self.magnitude_bits() > INFINITY_BITS
    }

    /// The rank as a machine integer.
    fn rank_value(self) -> (k: i64)
        ensures
            k == self.rank(),
    {
        let m: i64 = self.magnitude_bits() as i64;
        if self.bits >= SIGN_BIT {
            -m
        } else {
            m
        }
    }

    /// `self < other`.
    pub fn lt(self, other: Scalar) -> (r: bool)
        ensures
            r == self.lt_spec(other),
    {
        if self.is_nan() || other.is_nan() {
            false
        } else {
            self.rank_value() < other.rank_value()
        }
    }

    /// `self > other`.
    pub fn gt(self, other: Scalar) -> (r: bool)
        ensures
            r == self.gt_spec(other),
    {
        other.lt(self)
    }
}

/// A magnitude with exponent zero scales to itself. One with exponent
/// `e + 1` scales to at least `2^23 * 2^e` and to less than twice that, so
/// the ranges of two exponents do not overlap.
proof fn lemma_scaled_magnitude_bounds(magnitude: int)
    requires
        0 <= magnitude < INFINITY_BITS,
    ensures
        magnitude / (HIDDEN_BIT as int) == 0 ==> scaled_magnitude(magnitude) == magnitude,
        magnitude / (HIDDEN_BIT as int) > 0 ==> {
            let e = (magnitude / (HIDDEN_BIT as int) - 1) as nat;
            HIDDEN_BIT * pow2(e) <= scaled_magnitude(magnitude) < HIDDEN_BIT * pow2(e + 1)
        },
{
    let exponent = magnitude / (HIDDEN_BIT as int);
    let fraction = magnitude % (HIDDEN_BIT as int);
    if exponent > 0 {
        let e = (exponent - 1) as nat;
        let p = pow2(e) as int;
        lemma_pow2_pos(e);
        lemma_pow2_unfold(e + 1);
        assert(pow2(e + 1) == 2 * p);
        assert(HIDDEN_BIT * p <= (HIDDEN_BIT + fraction) * p < HIDDEN_BIT * (2 * p)) by (nonlinear_arith)
            requires
                0 <= fraction < HIDDEN_BIT,
                p > 0,
        ;
    }
}

/// An exponent that is not smaller gives a power of two that is not smaller.
proof fn lemma_pow2_monotonic(e1: nat, e2: nat)
    requires
        e1 <= e2,
    ensures
        pow2(e1) <= pow2(e2),
{
    if e1 < e2 {
        lemma_pow2_strictly_increases(e1, e2);
    }
}

/// The scaled magnitude is strictly increasing in the magnitude.
proof fn lemma_scaled_magnitude_increasing(m1: int, m2: int)
    requires
        0 <= m1 < m2 < INFINITY_BITS,
    ensures
        scaled_magnitude(m1) < scaled_magnitude(m2),
{
    let e1 = m1 / (HIDDEN_BIT as int);
    let e2 = m2 / (HIDDEN_BIT as int);
    let f1 = m1 % (HIDDEN_BIT as int);
    let f2 = m2 % (HIDDEN_BIT as int);
    lemma_scaled_magnitude_bounds(m1);
    lemma_scaled_magnitude_bounds(m2);
    if e1 == e2 {
        if e1 > 0 {
            let p = pow2((e1 - 1) as nat) as int;
            lemma_pow2_pos((e1 - 1) as nat);
            assert((HIDDEN_BIT + f1) * p < (HIDDEN_BIT + f2) * p) by (nonlinear_arith)
                requires
                    f1 < f2,
                    p > 0,
            ;
        }
    } else if e1 == 0 {
        lemma_pow2_pos((e2 - 1) as nat);
        assert(HIDDEN_BIT * 1 <= HIDDEN_BIT * pow2((e2 - 1) as nat)) by (nonlinear_arith)
            requires
                pow2((e2 - 1) as nat) >= 1,
        ;
    } else {
        lemma_pow2_monotonic(e1 as nat, (e2 - 1) as nat);
        assert(HIDDEN_BIT * pow2(e1 as nat) <= HIDDEN_BIT * pow2((e2 - 1) as nat)) by (nonlinear_arith)
            requires
                pow2(e1 as nat) <= pow2((e2 - 1) as nat),
        ;
    }
}

/// The rank orders the finite scalars exactly as their numbers are ordered,
/// and two finite scalars have the same rank exactly when they stand for the
/// same number. So `<` and `>` on finite scalars are `<` and `>` on the
/// numbers.
pub proof fn lemma_rank_follows_value(a: Scalar, b: Scalar)
    requires
        a.is_finite(),
        b.is_finite(),
    ensures
        a.rank() < b.rank() <==> a.scaled() < b.scaled(),
        a.rank() == b.rank() <==> a.scaled() == b.scaled(),
        a.lt_spec(b) <==> a.scaled() < b.scaled(),
        a.gt_spec(b) <==> a.scaled() > b.scaled(),
{
    let ma = a.magnitude();
    let mb = b.magnitude();
    lemma_scaled_magnitude_bounds(0);
    lemma_scaled_magnitude_bounds(ma);
    lemma_scaled_magnitude_bounds(mb);
    if ma < mb {
        lemma_scaled_magnitude_increasing(ma, mb);
    }
    if mb < ma {
        lemma_scaled_magnitude_increasing(mb, ma);
    }
    if 0 < ma {
        lemma_scaled_magnitude_increasing(0, ma);
    }
    if 0 < mb {
        lemma_scaled_magnitude_increasing(0, mb);
    }
}

/// The infinities bound every finite scalar, and no scalar that is not NaN
/// lies outside them.
pub proof fn lemma_infinities_are_extreme(a: Scalar)
    requires
        !a.is_nan_spec(),
    ensures
        !a.lt_spec(Scalar { bits: NEG_INFINITY_BITS }),
        !a.gt_spec(Scalar { bits: INFINITY_BITS }),
        a.is_finite() ==> a.gt_spec(Scalar { bits: NEG_INFINITY_BITS }) && a.lt_spec(Scalar { bits: INFINITY_BITS }),
{
}

} // verus!
