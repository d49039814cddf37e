//! Decimal texts of floating point numbers.
//!
//! A text writes a sign, digits with an optional point, and an optional power
//! of ten; or infinity, or not-a-number.  The double precision number that it
//! stands for is the nearest one, with 53 significant bits.

use vstd::arithmetic::div_mod::*;
use vstd::arithmetic::power2::*;
use vstd::prelude::*;
use vstd::slice::*;
use vstd::string::*;

use crate::natural::Natural;
use crate::number;
use crate::text;

verus! {

/// The lowest number of 53 bits.
pub const LEADING_BIT: u64 = 0x10_0000_0000_0000;

/// The number `m * 2^e`.
pub struct Binary {
    pub m: nat,
    pub e: int,
}

/// The integer nearest to `num / den`, the even one of two.
pub open spec fn half_even(num: nat, den: nat) -> nat {
    let q = num / den;
    let r = num % den;
    if 2 * r > den || (2 * r == den && q % 2 == 1) {
        q + 1
    } else {
        q
    }
}

/// The number of 53 bits that is nearest to `num / den`, the even one of two.
pub open spec fn nearest(num: nat, den: nat) -> Binary
    decreases
            (if den <= num < 2 * den {
                0int
            } else {
                1
            }),
            (if num < den {
                den - num
            } else {
                num - den
            }),
{
    if num == 0 || den == 0 {
        Binary { m: 0, e: 0 }
    } else if num >= 2 * den {
        let b = nearest(num, 2 * den);
        Binary { m: b.m, e: b.e + 1 }
    } else if num < den {
        let b = nearest(2 * num, den);
        Binary { m: b.m, e: b.e - 1 }
    } else {
        Binary { m: half_even(num * LEADING_BIT as nat, den), e: -52 }
    }
}

/// Whether a number is at most half a unit of its last bit from `num / den`.
pub open spec fn within_half_a_unit(b: Binary, num: nat, den: nat) -> bool {
    let (got, wanted, unit) = if b.e >= 0 {
        (b.m * pow2(b.e as nat) * den, num as int, pow2(b.e as nat) * den)
    } else {
        (b.m * den, num * pow2((-b.e) as nat) as int, den)
    };
    -(unit as int) <= 2 * (got - wanted) <= unit
}

/// The nearest number has 53 bits and is at most half a unit of its last bit
/// from the given one.
pub proof fn nearest_is_within_half_a_unit(num: nat, den: nat)
    requires
        num > 0,
        den > 0,
    ensures
        LEADING_BIT <= nearest(num, den).m <= 2 * LEADING_BIT,
        within_half_a_unit(nearest(num, den), num, den),
    decreases
            (if den <= num < 2 * den {
                0int
            } else {
                1
            }),
            (if num < den {
                den - num
            } else {
                num - den
            }),
{
    let b = nearest(num, den);
    lemma2_to64();
    if num >= 2 * den {
        nearest_is_within_half_a_unit(num, 2 * den);
        let lower = nearest(num, 2 * den);
        lemma_double_den(lower, num, den);
    } else if num < den {
        nearest_is_within_half_a_unit(2 * num, den);
        let upper = nearest(2 * num, den);
        lemma_double_num(upper, num, den);
    } else {
        let wide = num * LEADING_BIT as nat;
        let q = wide / den;
        let r = wide % den;
        lemma2_to64_rest();
        lemma_fundamental_div_mod(wide as int, den as int);
        assert(den * q == q * den && (q + 1) * den == q * den + den) by (nonlinear_arith);
        assert(LEADING_BIT <= q < 2 * LEADING_BIT) by (nonlinear_arith)
            requires
                wide == num * LEADING_BIT,
                den <= num < 2 * den,
                wide == q * den + r,
                0 <= r < den,
                den > 0,
        ;
    }
}

proof fn lemma_double_den(lower: Binary, num: nat, den: nat)
    requires
        within_half_a_unit(lower, num, 2 * den),
    ensures
        within_half_a_unit(Binary { m: lower.m, e: lower.e + 1 }, num, den),
{
    let m = lower.m;
    lemma2_to64();
    if lower.e >= 0 {
        let p = pow2(lower.e as nat);
        lemma_pow2_unfold((lower.e + 1) as nat);
        assert(m * (2 * p) * den == m * p * (2 * den)) by (nonlinear_arith);
        assert((2 * p) * den == p * (2 * den)) by (nonlinear_arith);
    } else {
        let q = pow2((-lower.e - 1) as nat);
        lemma_pow2_unfold((-lower.e) as nat);
        assert(m * (2 * den) == 2 * (m * den)) by (nonlinear_arith);
        assert(num * (2 * q) == 2 * (num * q)) by (nonlinear_arith);
        if lower.e == -1 {
            assert(m * pow2(0) * den == m * den && pow2(0) * den == den && num * q == num) by (nonlinear_arith)
                requires
                    pow2(0) == 1,
                    q == 1,
            ;
        }
    }
}

proof fn lemma_double_num(upper: Binary, num: nat, den: nat)
    requires
        within_half_a_unit(upper, 2 * num, den),
    ensures
        within_half_a_unit(Binary { m: upper.m, e: upper.e - 1 }, num, den),
{
    let m = upper.m;
    lemma2_to64();
    if upper.e >= 1 {
        let p = pow2((upper.e - 1) as nat);
        lemma_pow2_unfold(upper.e as nat);
        assert(m * (2 * p) * den == 2 * (m * p * den)) by (nonlinear_arith);
        assert((2 * p) * den == 2 * (p * den)) by (nonlinear_arith);
    } else if upper.e == 0 {
        assert(m * pow2(0) * den == m * den && pow2(0) * den == den && num * pow2(1) == 2 * num) by (nonlinear_arith)
            requires
                pow2(0) == 1,
                pow2(1) == 2,
        ;
    } else {
        let q = pow2((-upper.e) as nat);
        lemma_pow2_unfold((-upper.e + 1) as nat);
        assert(num * (2 * q) == (2 * num) * q) by (nonlinear_arith);
    }
}

/// Divide a number between `den` and twice `den` to 53 bits.
fn divide(num: &Natural, den: &Natural) -> (r: u64)
    requires
        den@ <= num@ < 2 * den@,
    ensures
        r == half_even(num@ * LEADING_BIT as nat, den@),
        LEADING_BIT <= r <= 2 * LEADING_BIT,
{
    let mut rest = match num.minus(den) {
        Some(rest) => rest,
        None => Natural::from_u64(0),
    };
    let mut q: u64 = 1;
    let mut j: u64 = 0;
    proof {
        lemma2_to64();
        assert(num@ * pow2(0) == q * den@ + rest@) by (nonlinear_arith)
            requires
                pow2(0) == 1,
                q == 1,
                num@ == den@ + rest@,
        ;
    }
    while j < 52
        invariant
            j <= 52,
            rest@ < den@,
            num@ * pow2(j as nat) == q * den@ + rest@,
            pow2(j as nat) <= q < 2 * pow2(j as nat),
            pow2(j as nat) <= LEADING_BIT,
        decreases 52 - j,
    {
        let ghost p = pow2(j as nat);
        let ghost before = q;
        let ghost left = rest@;
        proof {
            lemma_pow2_unfold((j + 1) as nat);
            if j + 1 < 52 {
                lemma_pow2_strictly_increases((j + 1) as nat, 52);
            }
            lemma2_to64_rest();
        }
        rest.mul_add(2, 0);
        q = 2 * q;
        if let Some(less) = rest.minus(den) {
            rest = less;
            q = q + 1;
        }
        proof {
            let bit = q - 2 * before;
            assert(num@ * (2 * p) == q * den@ + rest@) by (nonlinear_arith)
                requires
                    num@ * p == before * den@ + left,
                    q == 2 * before + bit,
                    2 * left == bit * den@ + rest@,
            ;
        }
        j = j + 1;
    }
    let ghost wide = num@ * LEADING_BIT as nat;
    proof {
        lemma2_to64_rest();
        assert(wide == q * den@ + rest@);
        lemma_fundamental_div_mod_converse(wide as int, den@ as int, q as int, rest@ as int);
    }
    let mut twice = rest.copy();
    twice.mul_add(2, 0);
    match twice.minus(den) {
        None => q,
        Some(over) => if !over.is_zero() || q % 2 == 1 {
            q + 1
        } else {
            q
        },
    }
}

/// The number of 53 bits that is nearest to `num / den`, as its bits and its
/// power of two.
fn nearest_of(num: &Natural, den: &Natural) -> (r: (u64, i128))
    requires
        den@ > 0,
        num@ > 0,
    ensures
        nearest(num@, den@) == (Binary { m: r.0 as nat, e: r.1 as int }),
        LEADING_BIT <= r.0 <= 2 * LEADING_BIT,
        -0x2_0000_0000_0000_0000_0000 <= r.1 <= 0x2_0000_0000_0000_0000_0000,
{
    let mut n = num.copy();
    let mut d = den.copy();
    let mut e: i128 = -52;
    let num_bits: u128 = num.bits();
    let den_bits: u128 = den.bits();
    let ghost whole = nearest(num@, den@);
    let mut more = true;
    assert(whole == raised(nearest(n@, d@), 0));
    proof {
        lemma2_to64();
        assert(d@ == den@ * pow2(0)) by (nonlinear_arith)
            requires
                d@ == den@,
                pow2(0) == 1,
        ;
    }
    while more
        invariant
            n@ == num@,
            d@ > 0,
            den@ > 0,
            e >= -52,
            d@ == den@ * pow2((e + 52) as nat),
            d@ <= n@ || e == -52,
            num@ < pow2(num_bits as nat),
            num_bits <= 0x1_0000_0000_0000_0000_0000,
            e <= num_bits,
            whole == raised(nearest(n@, d@), e + 52),
            !more ==> n@ < 2 * d@,
        decreases (if more { 1int } else { 0 }), n@ - d@,
    {
        let mut next = d.copy();
        next.mul_add(2, 0);
        match n.minus(&next) {
            Some(_) => {
                proof {
                    let k = (e + 53) as nat;
                    lemma_pow2_unfold(k);
                    assert(next@ == den@ * pow2(k)) by (nonlinear_arith)
                        requires
                            next@ == 2 * (den@ * pow2((k - 1) as nat)),
                            pow2(k) == 2 * pow2((k - 1) as nat),
                    ;
                    assert(pow2(k) <= next@) by (nonlinear_arith)
                        requires
                            next@ == den@ * pow2(k),
                            den@ >= 1,
                    ;
                    if k >= num_bits {
                        if k > num_bits {
                            lemma_pow2_strictly_increases(num_bits as nat, k);
                        }
                        assert(false);
                    }
                }
                d = next;
                e = e + 1;
            },
            None => {
                more = false;
            },
        }
    }
    assert(n@ < d@ ==> d@ == den@) by {
        if n@ < d@ {
            lemma2_to64();
            assert(den@ * pow2(0) == den@) by (nonlinear_arith)
                requires
                    pow2(0) == 1,
            ;
        }
    }
    let mut down: i128 = 0;
    proof {
        lemma2_to64();
        assert(n@ == num@ * pow2(0)) by (nonlinear_arith)
            requires
                n@ == num@,
                pow2(0) == 1,
        ;
    }
    let mut less = n.minus(&d).is_none();
    while less
        invariant
            less == (n@ < d@),
            n@ < 2 * d@,
            n@ > 0,
            d@ > 0,
            num@ > 0,
            down >= 0,
            n@ == num@ * pow2(down as nat),
            n@ < d@ ==> d@ == den@,
            den@ < pow2(den_bits as nat),
            den_bits <= 0x1_0000_0000_0000_0000_0000,
            down <= den_bits,
            whole == raised(nearest(n@, d@), e + 52 - down),
        decreases (if less { 1int } else { 0 }), d@ - n@,
    {
        proof {
            let k = down as nat;
            assert(pow2(k) <= n@) by (nonlinear_arith)
                requires
                    n@ == num@ * pow2(k),
                    num@ >= 1,
            ;
            if k >= den_bits {
                if k > den_bits {
                    lemma_pow2_strictly_increases(den_bits as nat, k);
                }
                assert(false);
            }
            lemma_pow2_unfold(k + 1);
            assert(2 * n@ == num@ * pow2(k + 1)) by (nonlinear_arith)
                requires
                    n@ == num@ * pow2(k),
                    pow2(k + 1) == 2 * pow2(k),
            ;
        }
        n.mul_add(2, 0);
        down = down + 1;
        less = n.minus(&d).is_none();
    }
    (divide(&n, &d), e - down)
}

/// A number times a power of two.
pub open spec fn raised(b: Binary, k: int) -> Binary {
    Binary { m: b.m, e: b.e + k }
}

// ---------------------------------------------------------------------
// texts
// ---------------------------------------------------------------------

/// What a text writes, without its sign.
pub enum Written {
    NotANumber,
    Infinite,
    /// Digits, times a power of ten.
    Finite { digits: Seq<char>, exponent: int },
}

/// The digits of a text with an optional point, and the power of ten that
/// counts those behind it.
pub open spec fn mantissa(s: Seq<char>) -> Option<(Seq<char>, int)> {
    let (whole, fraction) = match text::cut(s, '.') {
        Some(parts) => parts,
        None => (s, Seq::empty()),
    };
    if (whole + fraction).len() > 0 && number::all_digits(whole + fraction) {
        Some((whole + fraction, -(fraction.len() as int)))
    } else {
        None
    }
}

/// The digits and the power of ten of a text in lower case.
pub open spec fn scientific(s: Seq<char>) -> Option<(Seq<char>, int)> {
    match text::cut(s, 'e') {
        None => mantissa(s),
        Some((head, power)) => match (mantissa(head), number::signed_value(power)) {
            (Some((digits, exponent)), Some(p)) => Some((digits, exponent + p)),
            _ => None,
        },
    }
}

/// What a text writes, and whether it has a minus sign; the case of letters
/// does not matter.
pub open spec fn written(s: Seq<char>) -> Option<(bool, Written)> {
    let signed = s.len() > 0 && (s[0] == '-' || s[0] == '+');
    let negative = s.len() > 0 && s[0] == '-';
    let body = text::lower(
        if signed {
            s.skip(1)
        } else {
            s
        },
    );
    if body == text::lower("inf"@) || body == text::lower("infinity"@) {
        Some((negative, Written::Infinite))
    } else if body == text::lower("nan"@) {
        Some((negative, Written::NotANumber))
    } else {
        match scientific(body) {
            Some((digits, exponent)) => Some((negative, Written::Finite { digits, exponent })),
            None => None,
        }
    }
}

// ---------------------------------------------------------------------
// double precision
// ---------------------------------------------------------------------

/// The magnitude of a double precision number.
pub enum Double {
    NotANumber,
    Infinite,
    Finite(Binary),
}

/// Ten to the power of `n`.
pub open spec fn ten_to(n: int) -> nat
    decreases n,
{
    if n <= 0 {
        1
    } else {
        10 * ten_to(n - 1)
    }
}

/// The number of 53 bits that is nearest to `n * 10^exponent`.
pub open spec fn decimal_nearest(n: nat, exponent: int) -> Binary {
    if exponent >= 0 {
        nearest(n * ten_to(exponent), 1)
    } else {
        nearest(n, ten_to(-exponent))
    }
}

/// Whether a number of 53 bits is `2^1024` or more.
pub open spec fn overflows(b: Binary) -> bool {
    b.e > 971 || (b.e == 971 && b.m >= 2 * LEADING_BIT)
}

/// The double precision number that is nearest to what is written.  A number
/// below `10^-400` is zero, and one above `10^400` infinite.
pub open spec fn magnitude(w: Written) -> Double {
    match w {
        Written::NotANumber => Double::NotANumber,
        Written::Infinite => Double::Infinite,
        Written::Finite { digits, exponent } => {
            let n = number::digits_value(digits) as nat;
            let b = decimal_nearest(n, exponent);
            if n == 0 || digits.len() + exponent < -400 {
                Double::Finite(Binary { m: 0, e: 0 })
            } else if exponent > 400 || overflows(b) {
                Double::Infinite
            } else {
                Double::Finite(b)
            }
        },
    }
}

/// Ten to the given power, at most the third, in double precision.  It is zero
/// where its reciprocal is infinite.
pub open spec fn power_of_ten(power: int) -> Binary {
    if power < -308 {
        Binary { m: 0, e: 0 }
    } else {
        decimal_nearest(1, power)
    }
}

/// The product of two numbers, rounded to 53 bits.
pub open spec fn product(a: Binary, b: Binary) -> Binary {
    if a.m == 0 || b.m == 0 {
        Binary { m: 0, e: 0 }
    } else {
        raised(nearest(a.m * b.m, 1), a.e + b.e)
    }
}

/// The integral part of a number.
pub open spec fn integral(b: Binary) -> nat {
    if b.e >= 0 {
        b.m * pow2(b.e as nat)
    } else {
        b.m / pow2((-b.e) as nat)
    }
}

/// What `2^63` is.
pub const I64_REACH: u64 = 0x8000_0000_0000_0000;

/// A magnitude with a sign, moved into the range of an `i64`.
pub open spec fn limited(negative: bool, n: nat) -> int {
    if negative {
        if n >= I64_REACH {
            i64::MIN as int
        } else {
            -n
        }
    } else if n >= I64_REACH {
        i64::MAX as int
    } else {
        n as int
    }
}

/// The number that a text writes times a power of ten, at most the third, both
/// factors and the product in double precision; rounded toward zero and moved
/// into the range of an `i64`.  Not-a-number is zero.
pub open spec fn scaled(s: Seq<char>, power: int) -> Option<int> {
    let factor = power_of_ten(power);
    match written(s) {
        None => None,
        Some((negative, w)) => Some(
            limited(
                negative,
                match magnitude(w) {
                    Double::NotANumber => 0,
                    Double::Infinite => if factor.m == 0 {
                        0
                    } else {
                        I64_REACH as nat
                    },
                    Double::Finite(b) => integral(product(b, factor)),
                },
            ),
        ),
    }
}

// ---------------------------------------------------------------------
// reading
// ---------------------------------------------------------------------

proof fn lemma_ten_to(n: int)
    ensures
        ten_to(n) > 0,
    decreases n,
{
    if n > 0 {
        lemma_ten_to(n - 1);
    }
}

/// `n` times ten to the power of `exponent`.
fn times_ten_to(n: &Natural, exponent: u128) -> (r: Natural)
    ensures
        r@ == n@ * ten_to(exponent as int),
{
    let mut r = n.copy();
    let mut i: u128 = 0;
    assert(n@ * ten_to(0) == n@) by (nonlinear_arith)
        requires
            ten_to(0) == 1,
    ;
    while i < exponent
        invariant
            i <= exponent,
            r@ == n@ * ten_to(i as int),
        decreases exponent - i,
    {
        r.mul_add(10, 0);
        assert(10 * (n@ * ten_to(i as int)) == n@ * ten_to(i + 1)) by (nonlinear_arith)
            requires
                ten_to(i + 1) == 10 * ten_to(i as int),
        ;
        i = i + 1;
    }
    r
}

fn nearest_decimal(n: &Natural, exponent: i128) -> (r: (u64, i128))
    requires
        n@ > 0,
        exponent > i128::MIN,
    ensures
        decimal_nearest(n@, exponent as int) == (Binary { m: r.0 as nat, e: r.1 as int }),
        LEADING_BIT <= r.0 <= 2 * LEADING_BIT,
        -0x2_0000_0000_0000_0000_0000 <= r.1 <= 0x2_0000_0000_0000_0000_0000,
{
    let one = Natural::from_u64(1);
    if exponent >= 0 {
        let num = times_ten_to(n, exponent as u128);
        proof {
            lemma_ten_to(exponent as int);
            assert(n@ * ten_to(exponent as int) > 0) by (nonlinear_arith)
                requires
                    n@ > 0,
                    ten_to(exponent as int) > 0,
            ;
        }
        nearest_of(&num, &one)
    } else {
        let den = times_ten_to(&one, (-exponent) as u128);
        proof {
            lemma_ten_to(-exponent as int);
            assert(1 * ten_to(-exponent as int) == ten_to(-exponent as int));
        }
        nearest_of(n, &den)
    }
}

fn only_digits(s: &[char]) -> (r: bool)
    ensures
        r == number::all_digits(s@),
{
    let mut i: usize = 0;
    while i < s.len()
        invariant
            i <= s@.len(),
            forall|j: int| 0 <= j < i ==> number::is_digit(#[trigger] s@[j]),
        decreases s@.len() - i,
    {
        if !('0' <= s[i] && s[i] <= '9') {
            assert(!number::is_digit(s@[i as int]));
            return false;
        }
        i = i + 1;
    }
    true
}

fn read_digits(s: &[char]) -> (r: Natural)
    requires
        number::all_digits(s@),
    ensures
        r@ == number::digits_value(s@),
{
    let mut r = Natural::from_u64(0);
    let mut i: usize = 0;
    while i < s.len()
        invariant
            i <= s@.len(),
            number::all_digits(s@),
            r@ == number::digits_value(s@.take(i as int)),
        decreases s@.len() - i,
    {
        assert(number::is_digit(s@[i as int]));
        let ghost next = s@.take(i + 1);
        assert(next.drop_last() =~= s@.take(i as int));
        r.mul_add(10, s[i] as u64 - 48);
        i = i + 1;
    }
    assert(s@.take(i as int) =~= s@);
    r
}

/// Whether a power of ten can stand for another: they are equal, or both are
/// farther from zero than `far`.
spec fn stands_for(a: int, b: int, far: int) -> bool {
    ||| a == b
    ||| a > far && b > far
    ||| a < -far && b < -far
}

/// The number that a run of digits writes, or a number out of reach for one.
fn read_natural_power(s: &[char]) -> (r: i128)
    requires
        number::all_digits(s@),
    ensures
        stands_for(r as int, number::digits_value(s@), 0x8_0000_0000_0000_0000),
        0 <= r <= 0x100_0000_0000_0000_0000,
        number::digits_value(s@) >= 0,
{
    let mut r: i128 = 0;
    let mut i: usize = 0;
    while i < s.len()
        invariant
            i <= s@.len(),
            number::all_digits(s@),
            0 <= r <= 0x100_0000_0000_0000_0000,
            number::digits_value(s@.take(i as int)) >= 0,
            r == number::digits_value(s@.take(i as int)) || (r >= 0x10_0000_0000_0000_0000 && number::digits_value(
                s@.take(i as int),
            ) >= 0x10_0000_0000_0000_0000),
        decreases s@.len() - i,
    {
        assert(number::is_digit(s@[i as int]));
        let ghost next = s@.take(i + 1);
        assert(next.drop_last() =~= s@.take(i as int));
        if r < 0x10_0000_0000_0000_0000 {
            r = 10 * r + (s[i] as i128 - 48);
        }
        i = i + 1;
    }
    assert(s@.take(i as int) =~= s@);
    r
}

/// The power of ten behind an `e`, or one out of reach for it.
fn read_power(s: &[char]) -> (r: Option<i128>)
    ensures
        match r {
            Some(p) => {
                &&& number::signed_value(s@) is Some
                &&& stands_for(p as int, number::signed_value(s@)->0, 0x8_0000_0000_0000_0000)
                &&& -0x100_0000_0000_0000_0000 <= p <= 0x100_0000_0000_0000_0000
            },
            None => number::signed_value(s@) is None,
        },
{
    let n: usize = s.len();
    let signed = n > 0 && (s[0] == '-' || s[0] == '+');
    let digits = slice_subrange(
        s,
        if signed {
            1
        } else {
            0
        },
        n,
    );
    proof {
        if signed {
            assert(digits@ =~= s@.skip(1));
        } else {
            assert(digits@ =~= s@);
        }
    }
    if digits.len() == 0 || !only_digits(digits) {
        return None;
    }
    let p: i128 = read_natural_power(digits);
    if n > 0 && s[0] == '-' {
        Some(-p)
    } else {
        Some(p)
    }
}

/// The digits of a text with an optional point, and how many are behind it.
fn read_mantissa(s: &[char]) -> (r: Option<(Vec<char>, usize)>)
    ensures
        match r {
            Some((digits, behind)) => mantissa(s@) == Some((digits@, -(behind as int))) && number::all_digits(digits@),
            None => mantissa(s@) is None,
        },
{
    let (whole, fraction) = match text::cut_at(s, '.') {
        Some(parts) => parts,
        None => {
            let n: usize = s.len();
            let none = slice_subrange(s, n, n);
            assert(none@ =~= Seq::<char>::empty());
            (s, none)
        },
    };
    let mut digits: Vec<char> = slice_to_vec(whole);
    let mut rest: Vec<char> = slice_to_vec(fraction);
    let behind: usize = rest.len();
    digits.append(&mut rest);
    assert(digits@ =~= whole@ + fraction@);
    if digits.len() == 0 || !only_digits(digits.as_slice()) {
        return None;
    }
    Some((digits, behind))
}

/// A double precision number: `None` for infinity, else its bits and its power
/// of two.
spec fn is_double(r: Option<(u64, i128)>, d: Double) -> bool {
    match r {
        None => d is Infinite,
        Some((m, e)) => {
            &&& d == Double::Finite(Binary { m: m as nat, e: e as int })
            &&& is_wide(m, e)
        },
    }
}

/// Whether the bits are zero or 53, and the power of two is in reach.
spec fn is_wide(m: u64, e: i128) -> bool {
    &&& m == 0 || LEADING_BIT <= m <= 2 * LEADING_BIT
    &&& -0x2_0000_0000_0000_0000_0000 <= e <= 0x2_0000_0000_0000_0000_0000
}

fn read_magnitude(digits: &[char], exponent: i128, Ghost(meant): Ghost<int>) -> (r: Option<(u64, i128)>)
    requires
        number::all_digits(digits@),
        stands_for(exponent as int, meant, 0x4_0000_0000_0000_0000),
        -0x1000_0000_0000_0000_0000 <= exponent <= 0x1000_0000_0000_0000_0000,
    ensures
        is_double(r, magnitude(Written::Finite { digits: digits@, exponent: meant })),
{
    let n = read_digits(digits);
    let count: i128 = digits.len() as i128;
    if n.is_zero() || count + exponent < -400 {
        return Some((0, 0));
    }
    if exponent > 400 {
        return None;
    }
    let (m, e) = nearest_decimal(&n, exponent);
    if e > 971 || (e == 971 && m >= 2 * LEADING_BIT) {
        None
    } else {
        Some((m, e))
    }
}

fn power_of(power: i64) -> (r: (u64, i128))
    ensures
        power_of_ten(power as int) == (Binary { m: r.0 as nat, e: r.1 as int }),
        is_wide(r.0, r.1),
{
    if power < -308 {
        (0, 0)
    } else {
        nearest_decimal(&Natural::from_u64(1), power as i128)
    }
}

fn product_of(a: (u64, i128), b: (u64, i128)) -> (r: (u64, i128))
    requires
        is_wide(a.0, a.1),
        is_wide(b.0, b.1),
    ensures
        product(Binary { m: a.0 as nat, e: a.1 as int }, Binary { m: b.0 as nat, e: b.1 as int }) == (Binary {
            m: r.0 as nat,
            e: r.1 as int,
        }),
        r.0 == 0 || LEADING_BIT <= r.0 <= 2 * LEADING_BIT,
        -0x8_0000_0000_0000_0000_0000 <= r.1 <= 0x8_0000_0000_0000_0000_0000,
{
    if a.0 == 0 || b.0 == 0 {
        return (0, 0);
    }
    let mut wide = Natural::from_u64(a.0);
    wide.mul_add(b.0, 0);
    assert(a.0 * b.0 > 0) by (nonlinear_arith)
        requires
            a.0 > 0,
            b.0 > 0,
    ;
    let (m, e) = nearest_of(&wide, &Natural::from_u64(1));
    (m, e + a.1 + b.1)
}

/// The integral part of a number, at most [`I64_REACH`].
fn integral_of(m: u64, e: i128) -> (r: u64)
    requires
        m == 0 || LEADING_BIT <= m <= 2 * LEADING_BIT,
        e > i128::MIN,
    ensures
        ({
            let whole = integral(Binary { m: m as nat, e: e as int });
            r == (if whole >= I64_REACH {
                I64_REACH as nat
            } else {
                whole
            })
        }),
{
    proof {
        lemma2_to64();
        lemma2_to64_rest();
    }
    if e >= 0 {
        if m == 0 {
            assert(0 * pow2(e as nat) == 0);
            return 0;
        }
        if e >= 11 {
            proof {
                if e > 11 {
                    lemma_pow2_strictly_increases(11, e as nat);
                }
                assert(m * pow2(e as nat) >= I64_REACH) by (nonlinear_arith)
                    requires
                        m >= LEADING_BIT,
                        pow2(e as nat) >= 0x800,
                ;
            }
            return I64_REACH;
        }
        let mut t: u64 = m;
        let mut i: i128 = 0;
        assert(m * pow2(0) == m);
        while i < e
            invariant
                0 <= i <= e,
                e <= 10,
                m <= 2 * LEADING_BIT,
                t == m * pow2(i as nat),
            decreases e - i,
        {
            proof {
                lemma2_to64();
                lemma_pow2_unfold((i + 1) as nat);
                if i < 9 {
                    lemma_pow2_strictly_increases(i as nat, 9);
                }
                assert(m * pow2(i as nat) <= 2 * LEADING_BIT * 0x200) by (nonlinear_arith)
                    requires
                        m <= 2 * LEADING_BIT,
                        pow2(i as nat) <= 0x200,
                ;
                assert(2 * (m * pow2(i as nat)) == m * pow2((i + 1) as nat)) by (nonlinear_arith)
                    requires
                        pow2((i + 1) as nat) == 2 * pow2(i as nat),
                ;
            }
            t = 2 * t;
            i = i + 1;
        }
        proof {
            if e < 10 {
                lemma_pow2_strictly_increases(e as nat, 10);
            }
            assert(m * pow2(e as nat) <= I64_REACH) by (nonlinear_arith)
                requires
                    m <= 2 * LEADING_BIT,
                    pow2(e as nat) <= 0x400,
            ;
        }
        t
    } else {
        let down: i128 = -e;
        if down >= 54 {
            proof {
                if down > 54 {
                    lemma_pow2_strictly_increases(54, down as nat);
                }
                lemma_basic_div(m as int, pow2(down as nat) as int);
            }
            return 0;
        }
        let mut t: u64 = m;
        let mut i: i128 = 0;
        assert(m as nat / pow2(0) == m) by (nonlinear_arith)
            requires
                pow2(0) == 1,
        ;
        while i < down
            invariant
                0 <= i <= down,
                down < 54,
                t <= m,
                t == m as nat / pow2(i as nat),
            decreases down - i,
        {
            proof {
                lemma_pow2_unfold((i + 1) as nat);
                lemma_pow2_pos(i as nat);
                lemma_div_denominator(m as int, pow2(i as nat) as int, 2);
                assert(pow2((i + 1) as nat) == pow2(i as nat) * 2);
            }
            t = t / 2;
            i = i + 1;
        }
        t
    }
}

fn signed_of(negative: bool, n: u64) -> (r: i64)
    requires
        n <= I64_REACH,
    ensures
        r == limited(negative, n as nat),
{
    if negative {
        (-(n as i128)) as i64
    } else if n >= I64_REACH {
        i64::MAX
    } else {
        n as i64
    }
}

/// The number that a text writes times a power of ten; see [`scaled`].
pub fn scaled_of(s: &[char], power: i64) -> (r: Option<i64>)
    requires
        power <= 3,
    ensures
        r matches Some(n) ==> scaled(s@, power as int) == Some(n as int),
        r is None ==> scaled(s@, power as int) is None,
{
    let n: usize = s.len();
    let signed = n > 0 && (s[0] == '-' || s[0] == '+');
    let negative = n > 0 && s[0] == '-';
    let rest = slice_subrange(
        s,
        if signed {
            1
        } else {
            0
        },
        n,
    );
    proof {
        if signed {
            assert(rest@ =~= s@.skip(1));
        } else {
            assert(rest@ =~= s@);
        }
    }
    let (factor, shift) = power_of(power);
    if text::same_ignoring_case(rest, "inf") || text::same_ignoring_case(rest, "infinity") {
        return Some(
            signed_of(
                negative,
                if factor == 0 {
                    0
                } else {
                    I64_REACH
                },
            ),
        );
    }
    if text::same_ignoring_case(rest, "nan") {
        return Some(signed_of(negative, 0));
    }
    let body = text::to_lower(rest);
    let (head, power_text) = match text::cut_at(body.as_slice(), 'e') {
        Some((head, tail)) => (head, Some(tail)),
        None => (body.as_slice(), None),
    };
    let (digits, behind) = match read_mantissa(head) {
        Some(m) => m,
        None => {
            return None;
        },
    };
    let written_power: i128 = match power_text {
        None => 0,
        Some(tail) => match read_power(tail) {
            Some(p) => p,
            None => {
                return None;
            },
        },
    };
    let ghost meant = match scientific(body@) {
        Some((_, x)) => x,
        None => 0,
    };
    let exponent: i128 = written_power - behind as i128;
    let whole: u64 = match read_magnitude(digits.as_slice(), exponent, Ghost(meant)) {
        None => if factor == 0 {
            0
        } else {
            I64_REACH
        },
        Some(value) => {
            let (m, e) = product_of(value, (factor, shift));
            integral_of(m, e)
        },
    };
    Some(signed_of(negative, whole))
}

// ---------------------------------------------------------------------
// small numbers
// ---------------------------------------------------------------------

/// Doubling both terms of a fraction changes nothing.
proof fn lemma_same_fraction(num: nat, den: nat)
    requires
        num > 0,
        den > 0,
    ensures
        nearest(2 * num, 2 * den) == nearest(num, den),
    decreases
            (if den <= num < 2 * den {
                0int
            } else {
                1
            }),
            (if num < den {
                den - num
            } else {
                num - den
            }),
{
    if num >= 2 * den {
        lemma_same_fraction(num, 2 * den);
    } else if num < den {
        lemma_same_fraction(2 * num, den);
    } else {
        let wide = num * LEADING_BIT as nat;
        let q = wide / den;
        let r = wide % den;
        lemma_fundamental_div_mod(wide as int, den as int);
        assert(2 * num * LEADING_BIT == q * (2 * den) + 2 * r) by (nonlinear_arith)
            requires
                num * LEADING_BIT == den * q + r,
        ;
        lemma_fundamental_div_mod_converse((2 * num) * LEADING_BIT, 2 * den as int, q as int, 2 * r as int);
    }
}

/// Twice a number has twice the nearest number.
proof fn lemma_doubled(num: nat, den: nat)
    requires
        num > 0,
        den > 0,
    ensures
        nearest(2 * num, den) == raised(nearest(num, den), 1),
{
    if num >= den {
        lemma_same_fraction(num, den);
    }
}

proof fn lemma_raised(num: nat, k: nat)
    requires
        num > 0,
    ensures
        nearest(num * pow2(k), 1) == raised(nearest(num, 1), k as int),
    decreases k,
{
    lemma2_to64();
    if k == 0 {
        assert(num * pow2(0) == num) by (nonlinear_arith)
            requires
                pow2(0) == 1,
        ;
    } else {
        let p = pow2((k - 1) as nat);
        lemma_raised(num, (k - 1) as nat);
        lemma_pow2_unfold(k);
        lemma_pow2_pos((k - 1) as nat);
        assert(num * (2 * p) == 2 * (num * p) && num * p > 0) by (nonlinear_arith)
            requires
                num > 0,
                p > 0,
        ;
        lemma_doubled(num * p, 1);
    }
}

/// A number of at most 53 bits is its own nearest number.
proof fn lemma_exact(n: nat, j: nat) -> (c: nat)
    requires
        pow2(j) <= n < 2 * LEADING_BIT,
        j <= 52,
    ensures
        nearest(n, pow2(j)) == (Binary { m: n * pow2(c), e: -c - j }),
        n * pow2(c) < 2 * LEADING_BIT,
    decreases 52 - j,
{
    lemma2_to64_rest();
    lemma_pow2_pos(j);
    if n >= 2 * pow2(j) {
        lemma_pow2_unfold(j + 1);
        if j == 52 {
            assert(false);
        }
        lemma_exact(n, j + 1)
    } else {
        let c = (52 - j) as nat;
        lemma_pow2_adds(c, j);
        let q = n * pow2(c);
        assert(n * LEADING_BIT == q * pow2(j)) by (nonlinear_arith)
            requires
                LEADING_BIT == pow2(c) * pow2(j),
                q == n * pow2(c),
        ;
        lemma_fundamental_div_mod_converse(n * LEADING_BIT, pow2(j) as int, q as int, 0);
        lemma_pow2_pos(c);
        assert(q < 2 * LEADING_BIT) by (nonlinear_arith)
            requires
                q == n * pow2(c),
                n < 2 * pow2(j),
                LEADING_BIT == pow2(c) * pow2(j),
                pow2(c) > 0,
        ;
        c
    }
}

/// The product of two numbers is exact as long as it has at most 53 bits.
proof fn lemma_exact_product(a: nat, b: nat)
    requires
        0 < a,
        0 < b,
        a * b < 2 * LEADING_BIT,
    ensures
        integral(product(nearest(a, 1), nearest(b, 1))) == a * b,
        nearest(a, 1).e <= 0,
{
    lemma2_to64();
    assert(a <= a * b && b <= a * b && a * b > 0) by (nonlinear_arith)
        requires
            0 < a,
            0 < b,
    ;
    let i = lemma_exact(a, 0);
    let j = lemma_exact(b, 0);
    let k = lemma_exact(a * b, 0);
    lemma_pow2_adds(i, j);
    lemma_pow2_pos(i);
    lemma_pow2_pos(j);
    lemma_pow2_pos(k);
    assert((a * pow2(i)) * (b * pow2(j)) == (a * b) * (pow2(i) * pow2(j))) by (nonlinear_arith);
    assert(a * pow2(i) > 0 && b * pow2(j) > 0) by (nonlinear_arith)
        requires
            a > 0,
            b > 0,
            pow2(i) > 0,
            pow2(j) > 0,
    ;
    lemma_raised(a * b, i + j);
    lemma_fundamental_div_mod_converse(((a * b) * pow2(k)) as int, pow2(k) as int, (a * b) as int, 0);
    if k == 0 {
        assert((a * b) * pow2(0) == a * b && ((a * b) * pow2(0)) * pow2(0) == a * b) by (nonlinear_arith)
            requires
                pow2(0) == 1,
        ;
    }
}

/// A number of 53 bits is the same when it is multiplied by one.
proof fn lemma_times_one(b: Binary)
    requires
        LEADING_BIT <= b.m < 2 * LEADING_BIT,
    ensures
        product(b, power_of_ten(0)) == b,
{
    lemma2_to64();
    lemma2_to64_rest();
    assert(ten_to(0) == 1 && 1 * ten_to(0) == 1);
    assert(nearest(1, 1) == (Binary { m: LEADING_BIT as nat, e: -52 })) by {
        lemma_fundamental_div_mod_converse(1 * LEADING_BIT, 1, LEADING_BIT as int, 0);
    }
    lemma_raised(b.m, 52);
    let c = lemma_exact(b.m, 0);
    if c > 0 {
        lemma_pow2_unfold(c);
        lemma_pow2_pos((c - 1) as nat);
        assert(b.m * pow2(c) >= 2 * LEADING_BIT) by (nonlinear_arith)
            requires
                b.m >= LEADING_BIT,
                pow2(c) >= 2,
        ;
    }
    assert(b.m * pow2(0) == b.m) by (nonlinear_arith)
        requires
            pow2(0) == 1,
    ;
}

/// A number that is not scaled is rounded toward zero.
pub proof fn unscaled_numbers_are_truncated(s: Seq<char>, negative: bool, w: Written, b: Binary)
    requires
        written(s) == Some((negative, w)),
        magnitude(w) == Double::Finite(b),
        LEADING_BIT <= b.m < 2 * LEADING_BIT,
    ensures
        scaled(s, 0) == Some(limited(negative, integral(b))),
{
    lemma_times_one(b);
}

/// Digits write themselves.
proof fn lemma_digits_written(s: Seq<char>)
    requires
        s.len() > 0,
        number::all_digits(s),
    ensures
        written(s) == Some((false, Written::Finite { digits: s, exponent: 0 })),
{
    reveal_strlit("inf");
    reveal_strlit("infinity");
    reveal_strlit("nan");
    assert(number::is_digit(s[0]));
    let body = text::lower(s);
    assert(body =~= s) by {
        assert forall|i: int| 0 <= i < s.len() implies #[trigger] body[i] == s[i] by {
            assert(number::is_digit(s[i]));
        }
    }
    assert(text::lower("inf"@)[0] == 'i');
    assert(text::lower("infinity"@)[0] == 'i');
    assert(text::lower("nan"@)[0] == 'n');
    assert(s[0] != 'i' && s[0] != 'n');
    let e = text::first_from(s, 'e', 0);
    let point = text::first_from(s, '.', 0);
    text::lemma_first_from(s, 'e', 0);
    text::lemma_first_from(s, '.', 0);
    if e < s.len() {
        assert(number::is_digit(s[e]));
    }
    if point < s.len() {
        assert(number::is_digit(s[point]));
    }
    assert(s + Seq::<char>::empty() =~= s);
}

/// Digits times a small power of ten are exact.
pub proof fn digits_are_scaled_exactly(s: Seq<char>, power: int)
    requires
        s.len() > 0,
        number::all_digits(s),
        0 <= power,
        number::digits_value(s) >= 0,
        number::digits_value(s) * ten_to(power) < 2 * LEADING_BIT,
    ensures
        scaled(s, power) == Some((number::digits_value(s) * ten_to(power)) as int),
{
    lemma_digits_written(s);
    let n = number::digits_value(s) as nat;
    lemma_ten_to(power);
    assert(n * ten_to(0) == n && 1 * ten_to(power) == ten_to(power)) by (nonlinear_arith)
        requires
            ten_to(0) == 1,
    ;
    if n > 0 {
        lemma_exact_product(n, ten_to(power));
    } else {
        assert(n * ten_to(power) == 0) by (nonlinear_arith)
            requires
                n == 0,
        ;
        lemma2_to64();
        assert(0 * pow2(0) == 0);
    }
}

/// Rounding goes to the nearest integer, and to the even one where two are
/// equally near.
pub proof fn ties_go_to_the_even_integer(num: nat, den: nat)
    requires
        den > 0,
    ensures
        -(den as int) <= 2 * (half_even(num, den) * den - num) <= den,
        2 * (half_even(num, den) * den - num) == den || 2 * (half_even(num, den) * den - num) == -(den as int)
            ==> half_even(num, den) % 2 == 0,
{
    let q = num / den;
    let r = num % den;
    vstd::arithmetic::div_mod::lemma_fundamental_div_mod(num as int, den as int);
    assert(num == q * den + r && r < den) by (nonlinear_arith)
        requires
            num as int == den as int * (num as int / den as int) + num as int % den as int,
            q == num / den,
            r == num % den,
            den > 0,
    ;
    assert((q + 1) * den == q * den + den) by (nonlinear_arith);
}

/// The digits before and behind a point are one number, with as many decimal
/// places as there are digits behind it; a power of ten moves the point, and a
/// sign in front is read by itself.
pub proof fn decimals_are_read(whole: Seq<char>, fraction: Seq<char>, power: int)
    requires
        whole.len() > 0,
        number::all_digits(whole),
        number::all_digits(fraction),
    ensures
        ({
            let plain = whole + seq!['.'] + fraction;
            let moved = plain + seq!['e'] + number::signed_decimal(power);
            let places = fraction.len() as int;
            let digits = whole + fraction;
            &&& written(plain) == Some((false, Written::Finite { digits, exponent: -places }))
            &&& written(moved) == Some((false, Written::Finite { digits, exponent: power - places }))
            &&& written(seq!['-'] + plain) == Some((true, Written::Finite { digits, exponent: -places }))
            &&& written(seq!['+'] + plain) == Some((false, Written::Finite { digits, exponent: -places }))
        }),
{
    let plain = whole + seq!['.'] + fraction;
    let tail = number::signed_decimal(power);
    let moved = plain + seq!['e'] + tail;
    assert(number::is_digit(whole[0]));
    assert forall|i: int| 0 <= i < plain.len() implies (number::is_digit(#[trigger] plain[i]) || plain[i] == '.') by {
        if i < whole.len() {
            assert(plain[i] == whole[i]);
        } else if i > whole.len() {
            assert(plain[i] == fraction[i - whole.len() - 1]);
        }
    }
    assert forall|i: int| 0 <= i < moved.len() implies (number::is_digit(#[trigger] moved[i]) || moved[i] == '.'
        || moved[i] == 'e' || moved[i] == '-') by {
        if i < plain.len() {
            assert(moved[i] == plain[i]);
        } else if i > plain.len() {
            assert(moved[i] == tail[i - plain.len() - 1]);
            number::lemma_signed_chars(power, i - plain.len() - 1);
        }
    }
    assert(text::lower(plain) =~= plain);
    assert(text::lower(moved) =~= moved);
    lemma_mantissa_read(whole, fraction);
    assert(!plain.contains('e')) by {
        if plain.contains('e') {
            let i = choose|i: int| 0 <= i < plain.len() && plain[i] == 'e';
            assert(number::is_digit(plain[i]) || plain[i] == '.');
        }
    }
    text::the_first_separator_cuts(plain, 'e', tail);
    number::signed_numbers_read_back(power);
    lemma_no_word(plain);
    lemma_no_word(moved);
    assert((seq!['-'] + plain).skip(1) =~= plain);
    assert((seq!['+'] + plain).skip(1) =~= plain);
    assert(plain[0] == whole[0] && moved[0] == whole[0]);
}

proof fn lemma_mantissa_read(whole: Seq<char>, fraction: Seq<char>)
    requires
        whole.len() > 0,
        number::all_digits(whole),
        number::all_digits(fraction),
    ensures
        mantissa(whole + seq!['.'] + fraction) == Some((whole + fraction, -(fraction.len() as int))),
{
    assert(!whole.contains('.')) by {
        if whole.contains('.') {
            let i = choose|i: int| 0 <= i < whole.len() && whole[i] == '.';
            assert(number::is_digit(whole[i]));
        }
    }
    text::the_first_separator_cuts(whole, '.', fraction);
    let digits = whole + fraction;
    assert forall|i: int| 0 <= i < digits.len() implies number::is_digit(#[trigger] digits[i]) by {
        if i < whole.len() {
            assert(digits[i] == whole[i]);
        } else {
            assert(digits[i] == fraction[i - whole.len()]);
        }
    }
}

proof fn lemma_no_word(s: Seq<char>)
    requires
        s.len() > 0,
        number::is_digit(s[0]),
    ensures
        s != text::lower("inf"@),
        s != text::lower("infinity"@),
        s != text::lower("nan"@),
{
    reveal_strlit("inf");
    reveal_strlit("infinity");
    reveal_strlit("nan");
    assert(text::lower("inf"@)[0] == 'i');
    assert(text::lower("infinity"@)[0] == 'i');
    assert(text::lower("nan"@)[0] == 'n');
}

} // verus!
