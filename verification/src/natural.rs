//! Natural numbers of any size.

use vstd::arithmetic::power2::*;
use vstd::prelude::*;
use vstd::slice::*;

verus! {

/// What a limb counts to.
pub const LIMB: u64 = 0x1_0000_0000;

/// A natural number.
#[derive(Debug)]
pub struct Natural {
    /// Limbs of 32 bits, the lowest first.
    limbs: Vec<u32>,
}

/// The limb with the given index, zero behind the last one.
spec fn limb(s: Seq<u32>, i: int) -> nat {
    if 0 <= i < s.len() {
        s[i] as nat
    } else {
        0
    }
}

/// What the limb with the given index counts.
spec fn unit(i: int) -> nat
    decreases i,
{
    if i <= 0 {
        1
    } else {
        LIMB as nat * unit(i - 1)
    }
}

/// The number that the lowest `n` limbs hold.
spec fn low_value(s: Seq<u32>, n: int) -> nat
    decreases n,
{
    if n <= 0 {
        0
    } else {
        low_value(s, n - 1) + limb(s, n - 1) * unit(n - 1)
    }
}

impl View for Natural {
    type V = nat;

    closed spec fn view(&self) -> nat {
        low_value(self.limbs@, self.limbs@.len() as int)
    }
}

proof fn lemma_same_limbs(s: Seq<u32>, t: Seq<u32>, n: int)
    requires
        forall|i: int| 0 <= i < n ==> limb(s, i) == limb(t, i),
    ensures
        low_value(s, n) == low_value(t, n),
    decreases n,
{
    if n > 0 {
        lemma_same_limbs(s, t, n - 1);
        assert(limb(s, n - 1) == limb(t, n - 1));
    }
}

proof fn lemma_upper_limbs(s: Seq<u32>, n: int)
    requires
        s.len() <= n,
    ensures
        low_value(s, n) == low_value(s, s.len() as int),
    decreases n,
{
    if n > s.len() {
        lemma_upper_limbs(s, n - 1);
        assert(limb(s, n - 1) * unit(n - 1) == 0) by (nonlinear_arith)
            requires
                limb(s, n - 1) == 0,
        ;
    }
}

proof fn lemma_low_bound(s: Seq<u32>, n: int)
    ensures
        low_value(s, n) < unit(n),
    decreases n,
{
    if n > 0 {
        lemma_low_bound(s, n - 1);
        let u = unit(n - 1);
        let d = limb(s, n - 1);
        assert(d * u <= (LIMB - 1) * u) by (nonlinear_arith)
            requires
                d <= LIMB - 1,
                u >= 0,
        ;
        assert((LIMB - 1) * u + u == LIMB * u) by (nonlinear_arith);
    }
}

proof fn lemma_unit(i: int)
    requires
        i >= 0,
    ensures
        unit(i) == pow2((32 * i) as nat),
    decreases i,
{
    lemma2_to64();
    if i > 0 {
        lemma_unit(i - 1);
        lemma_pow2_adds(32, (32 * (i - 1)) as nat);
    }
}

impl Natural {
    /// The given number.
    pub fn from_u64(n: u64) -> (r: Natural)
        ensures
            r@ == n,
    {
        let mut r = Natural { limbs: Vec::new() };
        r.mul_add(0, n);
        assert(low_value(Seq::<u32>::empty(), 0) * 0 == 0);
        r
    }

    /// The same number.
    pub fn copy(&self) -> (r: Natural)
        ensures
            r@ == self@,
    {
        Natural { limbs: slice_to_vec(self.limbs.as_slice()) }
    }

    /// A number of bits that can hold the number.
    pub fn bits(&self) -> (r: u128)
        ensures
            self@ < pow2(r as nat),
            r <= 0x1_0000_0000_0000_0000_0000,
    {
        let n: usize = self.limbs.len();
        proof {
            lemma_low_bound(self.limbs@, n as int);
            lemma_unit(n as int);
        }
        32 * n as u128
    }

    /// Whether the number is zero.
    pub fn is_zero(&self) -> (r: bool)
        ensures
            r == (self@ == 0),
    {
        Natural::from_u64(0).minus(self).is_some()
    }

    fn limb_at(&self, i: usize) -> (r: u64)
        ensures
            r == limb(self.limbs@, i as int),
            r < LIMB,
    {
        if i < self.limbs.len() {
            self.limbs[i] as u64
        } else {
            0
        }
    }

    /// Multiply by `m`, then add `a`.
    pub fn mul_add(&mut self, m: u64, a: u64)
        ensures
            final(self)@ == old(self)@ * m + a,
    {
        let ghost start = self.limbs@;
        let n: usize = self.limbs.len();
        let mut carry: u64 = a;
        let mut i: usize = 0;
        assert(carry * unit(0) == carry && low_value(start, 0) * m == 0) by (nonlinear_arith)
            requires
                unit(0) == 1,
                low_value(start, 0) == 0,
        ;
        while i < n
            invariant
                i <= n,
                self.limbs@.len() == n,
                start.len() == n,
                forall|j: int| i <= j < n ==> self.limbs@[j] == start[j],
                low_value(self.limbs@, i as int) + carry * unit(i as int) == low_value(start, i as int) * m + a,
            decreases n - i,
        {
            let ghost before = self.limbs@;
            let ghost held = carry;
            let digit: u64 = self.limbs[i] as u64;
            assert(digit * m + carry <= 0x1_0000_0000 * 0xffff_ffff_ffff_ffff) by (nonlinear_arith)
                requires
                    digit <= 0xffff_ffff,
                    m <= 0xffff_ffff_ffff_ffff,
                    carry <= 0xffff_ffff_ffff_ffff,
            ;
            assert(digit * m >= 0) by (nonlinear_arith)
                requires
                    digit >= 0,
                    m >= 0,
            ;
            let t: u128 = digit as u128 * m as u128 + carry as u128;
            let kept: u32 = (t % LIMB as u128) as u32;
            self.limbs[i] = kept;
            carry = (t / LIMB as u128) as u64;
            proof {
                let u = unit(i as int);
                lemma_same_limbs(before, self.limbs@, i as int);
                assert(low_value(self.limbs@, i + 1) == low_value(before, i as int) + kept * u);
                assert(low_value(start, i + 1) == low_value(start, i as int) + digit * u);
                assert(kept + LIMB * carry == digit * m + held);
                lemma_step(
                    low_value(before, i as int) as int,
                    low_value(start, i as int) as int,
                    u as int,
                    kept as int,
                    carry as int,
                    digit as int,
                    held as int,
                    m as int,
                    a as int,
                );
            }
            i = i + 1;
        }
        while carry > 0
            invariant
                low_value(self.limbs@, self.limbs@.len() as int) + carry * unit(self.limbs@.len() as int) == low_value(
                    start,
                    start.len() as int,
                ) * m + a,
            decreases carry,
        {
            let ghost before = self.limbs@;
            let ghost held = carry;
            let low: u32 = (carry % LIMB) as u32;
            self.limbs.push(low);
            carry = carry / LIMB;
            proof {
                let k = before.len() as int;
                let u = unit(k);
                lemma_same_limbs(before, self.limbs@, k);
                assert(limb(self.limbs@, k) == low);
                assert(low * u + carry * (LIMB * u) == held * u) by (nonlinear_arith)
                    requires
                        held == low + LIMB * carry,
                ;
            }
        }
        assert(carry * unit(self.limbs@.len() as int) == 0) by (nonlinear_arith)
            requires
                carry == 0,
        ;
    }

    /// The difference; `None` when `other` is greater.
    pub fn minus(&self, other: &Natural) -> (r: Option<Natural>)
        ensures
            match r {
                Some(d) => self@ == other@ + d@,
                None => self@ < other@,
            },
    {
        let n: usize = if self.limbs.len() < other.limbs.len() {
            other.limbs.len()
        } else {
            self.limbs.len()
        };
        let mut out: Vec<u32> = Vec::new();
        let mut borrow: u64 = 0;
        let mut i: usize = 0;
        while i < n
            invariant
                i <= n,
                out@.len() == i,
                borrow <= 1,
                low_value(self.limbs@, i as int) + borrow * unit(i as int) == low_value(other.limbs@, i as int)
                    + low_value(out@, i as int),
            decreases n - i,
        {
            let ghost before = out@;
            let ghost held = borrow;
            let x: u64 = self.limb_at(i);
            let y: u64 = other.limb_at(i) + borrow;
            let d: u64 = if x >= y {
                borrow = 0;
                x - y
            } else {
                borrow = 1;
                x + LIMB - y
            };
            out.push(d as u32);
            proof {
                let u = unit(i as int);
                let z = limb(other.limbs@, i as int);
                lemma_same_limbs(before, out@, i as int);
                assert(limb(out@, i as int) == d);
                assert(x * u + borrow * (LIMB * u) == z * u + held * u + d * u) by (nonlinear_arith)
                    requires
                        x + LIMB * borrow == z + held + d,
                ;
            }
            i = i + 1;
        }
        proof {
            lemma_upper_limbs(self.limbs@, n as int);
            lemma_upper_limbs(other.limbs@, n as int);
            lemma_low_bound(out@, n as int);
            assert(borrow == 0 ==> borrow * unit(n as int) == 0) by (nonlinear_arith);
            assert(borrow == 1 ==> borrow * unit(n as int) == unit(n as int)) by (nonlinear_arith);
        }
        if borrow == 0 {
            Some(Natural { limbs: out })
        } else {
            None
        }
    }
}

proof fn lemma_step(low: int, first: int, u: int, kept: int, carry: int, digit: int, held: int, m: int, a: int)
    requires
        low + held * u == first * m + a,
        kept + LIMB * carry == digit * m + held,
    ensures
        low + kept * u + carry * (LIMB * u) == (first + digit * u) * m + a,
{
    assert(low + kept * u + carry * (LIMB * u) == low + (kept + LIMB * carry) * u) by (nonlinear_arith);
    assert((digit * m + held) * u == (digit * u) * m + held * u) by (nonlinear_arith);
    assert((first + digit * u) * m == first * m + (digit * u) * m) by (nonlinear_arith);
}

} // verus!
