//! Floating point numbers as IEEE 754 double precision bit patterns.
//!
//! The library carries measured coordinates and grid spacings without
//! computing with them.  A [`Real`] holds the 64 bits of such a number; its
//! order and its integral part are functions of those bits.

use vstd::arithmetic::power2::*;
use vstd::bits::*;
use vstd::prelude::*;

verus! {

/// A double precision number.
#[derive(Debug, Clone, Copy, PartialEq, Eq, Structural)]
pub struct Real {
    pub bits: u64,
}

/// A number that is an integer or a [`Real`].
#[derive(Debug, Clone, Copy, PartialEq, Eq, Structural)]
pub enum Num {
    Int(i64),
    Real(Real),
}

impl Real {
    /// Whether the sign bit is set.
    pub open spec fn negative(self) -> bool {
        self.bits >= 0x8000_0000_0000_0000
    }

    /// The bits without the sign.
    pub open spec fn magnitude_bits(self) -> int {
        self.bits as int % 0x8000_0000_0000_0000
    }

    /// The biased exponent.
    pub open spec fn exponent(self) -> int {
        self.magnitude_bits() / 0x10_0000_0000_0000
    }

    /// The stored fraction.
    pub open spec fn fraction(self) -> int {
        self.magnitude_bits() % 0x10_0000_0000_0000
    }

    /// Whether this is not a number.
    pub open spec fn is_nan(self) -> bool {
        self.exponent() == 2047 && self.fraction() != 0
    }

    /// The magnitude is `significand * 2^(scale - 1075)`.
    pub open spec fn significand(self) -> int {
        if self.exponent() == 0 {
            self.fraction()
        } else {
            self.fraction() + 0x10_0000_0000_0000
        }
    }

    /// See [`Real::significand`].
    pub open spec fn scale(self) -> int {
        if self.exponent() == 0 {
            1
        } else {
            self.exponent()
        }
    }

    /// The integral part of the magnitude of a finite number.
    pub open spec fn integral_magnitude(self) -> int {
        if self.scale() >= 1075 {
            self.significand() * pow2((self.scale() - 1075) as nat)
        } else {
            self.significand() / (pow2((1075 - self.scale()) as nat) as int)
        }
    }

    /// The number rounded toward zero to an `i64`; out of range numbers go to
    /// the nearest bound, not-a-number goes to 0.
    pub open spec fn truncated(self) -> int {
        if self.is_nan() {
            0
        } else {
            let v = if self.exponent() == 2047 {
                0x8000_0000_0000_0000
            } else {
                self.integral_magnitude()
            };
            if self.negative() {
                if v >= 0x8000_0000_0000_0000 {
                    i64::MIN as int
                } else {
                    -v
                }
            } else {
                if v >= 0x8000_0000_0000_0000 {
                    i64::MAX as int
                } else {
                    v
                }
            }
        }
    }

    /// Position of a number in the numeric order; the two zeros coincide.
    pub open spec fn rank(self) -> int {
        if self.negative() {
            -self.magnitude_bits()
        } else {
            self.magnitude_bits()
        }
    }

    /// Whether `self` is less than `other`.
    pub open spec fn lt(self, other: Real) -> bool {
        !self.is_nan() && !other.is_nan() && self.rank() < other.rank()
    }

    /// Whether `self` is at most `other`.
    pub open spec fn le(self, other: Real) -> bool {
        !self.is_nan() && !other.is_nan() && self.rank() <= other.rank()
    }

    /// The number without its sign.
    pub open spec fn abs(self) -> Real {
        Real { bits: self.magnitude_bits() as u64 }
    }

    /// Whether the two numbers are numerically equal.
    pub open spec fn num_eq(self, other: Real) -> bool {
        !self.is_nan() && !other.is_nan() && self.rank() == other.rank()
    }

    /// The number with the given bits.
    pub fn from_bits(bits: u64) -> (r: Real)
        ensures
            r.bits == bits,
    {
        Real { bits }
    }

    /// Whether this is not a number.
    pub fn nan(&self) -> (r: bool)
        ensures
            r == self.is_nan(),
    {
        let m: u64 = self.bits % 0x8000_0000_0000_0000;
        m / 0x10_0000_0000_0000 == 2047 && m % 0x10_0000_0000_0000 != 0
    }

    fn order_key(&self) -> (r: i64)
        ensures
            r == self.rank(),
    {
        let m: u64 = self.bits % 0x8000_0000_0000_0000;
        if self.bits >= 0x8000_0000_0000_0000 {
            -(m as i64)
        } else {
            m as i64
        }
    }

    /// Whether `self` is less than `other`.
    pub fn less(&self, other: &Real) -> (r: bool)
        ensures
            r == self.lt(*other),
    {
        !self.nan() && !other.nan() && self.order_key() < other.order_key()
    }

    /// Whether `self` is at most `other`.
    pub fn at_most(&self, other: &Real) -> (r: bool)
        ensures
            r == self.le(*other),
    {
        !self.nan() && !other.nan() && self.order_key() <= other.order_key()
    }

    /// The number without its sign.
    pub fn magnitude(&self) -> (r: Real)
        ensures
            r == self.abs(),
    {
        Real { bits: self.bits % 0x8000_0000_0000_0000 }
    }

    /// Whether the two numbers are numerically equal.
    pub fn equals(&self, other: &Real) -> (r: bool)
        ensures
            r == self.num_eq(*other),
    {
        !self.nan() && !other.nan() && self.order_key() == other.order_key()
    }

    /// The number rounded toward zero to an `i64`.
    pub fn to_i64(&self) -> (r: i64)
        ensures
            r == self.truncated(),
    {
        if self.nan() {
            return 0;
        }
        let m: u64 = self.bits % 0x8000_0000_0000_0000;
        let e: u64 = m / 0x10_0000_0000_0000;
        let f: u64 = m % 0x10_0000_0000_0000;
        let negative: bool = self.bits >= 0x8000_0000_0000_0000;
        let v: u64 = if e >= 1086 {
            proof {
                if e < 2047 {
                    self.lemma_large();
                }
            }
            0x8000_0000_0000_0000
        } else if e < 1023 {
            proof {
                self.lemma_small();
            }
            0
        } else if e >= 1075 {
            let s: u64 = e - 1075;
            let w: u64 = f + 0x10_0000_0000_0000;
            proof {
                lemma_pow2_bound(s as nat);
                assert(w * pow2(s as nat) <= 0x1f_ffff_ffff_ffff * 0x400) by (nonlinear_arith)
                    requires
                        w <= 0x1f_ffff_ffff_ffff,
                        pow2(s as nat) <= 0x400,
                ;
                lemma_u64_shl_is_mul(w, s);
            }
            w << s
        } else {
            let s: u64 = 1075 - e;
            let w: u64 = f + 0x10_0000_0000_0000;
            proof {
                lemma_u64_shr_is_div(w, s);
                lemma_pow2_pos(s as nat);
                let wide = w as int;
                let p = pow2(s as nat) as int;
                assert(wide / p <= wide) by (nonlinear_arith)
                    requires
                        p >= 1,
                        wide >= 0,
                ;
            }
            w >> s
        };
        if negative {
            if v >= 0x8000_0000_0000_0000 {
                i64::MIN
            } else {
                -(v as i64)
            }
        } else {
            if v >= 0x8000_0000_0000_0000 {
                i64::MAX
            } else {
                v as i64
            }
        }
    }

    /// A truncated number is in the range of `i64`.
    pub proof fn lemma_truncated_in_range(self)
        ensures
            i64::MIN <= self.truncated() <= i64::MAX,
    {
        let w = self.significand();
        if self.scale() >= 1075 {
            let p = pow2((self.scale() - 1075) as nat) as int;
            assert(w * p >= 0) by (nonlinear_arith)
                requires
                    w >= 0,
                    p >= 0,
            ;
        } else {
            lemma_pow2_pos((1075 - self.scale()) as nat);
            let p = pow2((1075 - self.scale()) as nat) as int;
            assert(w / p >= 0) by (nonlinear_arith)
                requires
                    w >= 0,
                    p > 0,
            ;
        }
    }

    proof fn lemma_large(self)
        requires
            1086 <= self.exponent() < 2047,
        ensures
            self.integral_magnitude() >= 0x8000_0000_0000_0000,
    {
        let s = (self.exponent() - 1075) as nat;
        lemma_pow2_11_up(s);
        let w = self.significand();
        assert(w * pow2(s) >= 0x10_0000_0000_0000 * 0x800) by (nonlinear_arith)
            requires
                w >= 0x10_0000_0000_0000,
                pow2(s) >= 0x800,
        ;
    }

    proof fn lemma_small(self)
        requires
            self.exponent() < 1023,
        ensures
            self.integral_magnitude() == 0,
    {
        let s = (1075 - self.scale()) as nat;
        lemma_pow2_53_up(s);
        let w = self.significand();
        let p = pow2(s) as int;
        assert(w / p == 0) by (nonlinear_arith)
            requires
                0 <= w < p,
        ;
    }
}

proof fn lemma_pow2_bound(s: nat)
    requires
        s <= 10,
    ensures
        1 <= pow2(s) <= 0x400,
{
    lemma2_to64();
}

proof fn lemma_pow2_11_up(s: nat)
    requires
        s >= 11,
    ensures
        pow2(s) >= 0x800,
{
    lemma2_to64();
    if s > 11 {
        lemma_pow2_strictly_increases(11, s);
    }
}

proof fn lemma_pow2_53_up(s: nat)
    requires
        s >= 53,
    ensures
        pow2(s) >= 0x20_0000_0000_0000,
{
    lemma2_to64();
    lemma2_to64_rest();
    if s > 53 {
        lemma_pow2_strictly_increases(53, s);
    }
}

/// A number is rounded toward zero: the integer is the greatest one whose
/// magnitude is not above that of the number, and it has its sign.
pub proof fn numbers_are_rounded_toward_zero(r: Real)
    requires
        r.exponent() < 1075,
    ensures
        ({
            let t = r.truncated();
            let m = if t < 0 {
                -t
            } else {
                t
            };
            let unit = pow2((1075 - r.scale()) as nat) as int;
            &&& m * unit <= r.significand() < (m + 1) * unit
            &&& r.negative() ==> t <= 0
            &&& !r.negative() ==> t >= 0
        }),
{
    let s = (1075 - r.scale()) as nat;
    lemma_pow2_pos(s);
    let unit = pow2(s) as int;
    let w = r.significand();
    let q = w / unit;
    vstd::arithmetic::div_mod::lemma_fundamental_div_mod(w, unit);
    assert(q * unit <= w < (q + 1) * unit) by (nonlinear_arith)
        requires
            w == unit * q + w % unit,
            0 <= w % unit < unit,
    ;
    assert(0 <= q <= w) by (nonlinear_arith)
        requires
            q * unit <= w < (q + 1) * unit,
            unit >= 1,
            w >= 0,
    ;
    assert(w < 0x20_0000_0000_0000);
}

/// The order of the numbers: of two of them one is less or they are equal, a
/// number with a sign is below every number without one unless both are zero,
/// and what is not a number is not ordered.
pub proof fn numbers_are_ordered(a: Real, b: Real)
    ensures
        a.is_nan() || b.is_nan() ==> !a.lt(b) && !a.le(b) && !a.num_eq(b),
        !a.is_nan() && !b.is_nan() ==> (a.lt(b) || b.lt(a) || a.num_eq(b)),
        a.lt(b) ==> !b.lt(a) && !a.num_eq(b),
        a.le(b) <==> a.lt(b) || a.num_eq(b),
        !a.is_nan() && !b.is_nan() && a.negative() && !b.negative() ==> a.le(b) && (a.num_eq(b) <==> a.abs().bits == 0
            && b.bits == 0),
        !a.is_nan() && !b.is_nan() && !a.negative() && !b.negative() ==> (a.lt(b) <==> a.bits < b.bits),
        !a.is_nan() && !b.is_nan() && a.negative() && b.negative() ==> (a.lt(b) <==> a.bits > b.bits),
        !a.abs().negative(),
{
}

/// A number from `2^52` on is an integer, and is kept where an `i64` can hold
/// it; one that is out of reach, and an infinite one, goes to the nearest bound,
/// and what is not a number to zero.
pub proof fn large_numbers_go_to_the_nearest_bound(r: Real)
    ensures
        1075 <= r.exponent() < 1086 ==> ({
            let n = r.significand() * pow2((r.exponent() - 1075) as nat);
            r.truncated() == (if r.negative() {
                -n
            } else {
                n
            })
        }),
        1086 <= r.exponent() && !r.is_nan() ==> r.truncated() == (if r.negative() {
            i64::MIN as int
        } else {
            i64::MAX as int
        }),
        r.is_nan() ==> r.truncated() == 0,
{
    let w = r.significand();
    if 1075 <= r.exponent() < 1086 {
        let s = (r.exponent() - 1075) as nat;
        lemma_pow2_bound(s);
        let p = pow2(s) as int;
        assert(0 <= w * p < 0x8000_0000_0000_0000) by (nonlinear_arith)
            requires
                0 <= w < 0x20_0000_0000_0000,
                1 <= p <= 0x400,
        ;
    } else if 1086 <= r.exponent() < 2047 {
        r.lemma_large();
    }
}

} // verus!
