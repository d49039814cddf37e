//! Decimal integers: rendering and parsing.

use vstd::prelude::*;
use vstd::slice::*;
use vstd::string::*;

verus! {

/// The character of a decimal digit.
pub open spec fn digit_char(d: int) -> char {
    ((48 + d) as u32) as char
}

/// Decimal digits of `n`, without leading zeros.
pub open spec fn decimal(n: nat) -> Seq<char>
    decreases n,
{
    if n < 10 {
        seq![digit_char(n as int)]
    } else {
        decimal(n / 10).push(digit_char((n % 10) as int))
    }
}

/// Decimal digits of `i`, with a leading minus sign for a negative number.
pub open spec fn signed_decimal(i: int) -> Seq<char> {
    if i < 0 {
        seq!['-'] + decimal((-i) as nat)
    } else {
        decimal(i as nat)
    }
}

/// Append the decimal digits of `n`.
pub fn push_decimal(out: &mut String, n: u64)
    ensures
        final(out)@ == old(out)@ + decimal(n as nat),
    decreases n,
{
    if n >= 10 {
        push_decimal(out, n / 10);
    }
    let d: u8 = (n % 10) as u8;
    out.push((48 + d) as char);
    assert(out@ =~= old(out)@ + decimal(n as nat));
}

/// Append the decimal digits of `i`, signed.
pub fn push_signed(out: &mut String, i: i64)
    ensures
        final(out)@ == old(out)@ + signed_decimal(i as int),
{
    if i < 0 {
        out.push('-');
        let magnitude: i128 = -(i as i128);
        push_decimal(out, magnitude as u64);
        assert(out@ =~= old(out)@ + signed_decimal(i as int));
    } else {
        push_decimal(out, i as u64);
    }
}

/// Decimal digits of `n`.
pub fn decimal_text(n: u64) -> (r: String)
    ensures
        r@ == decimal(n as nat),
{
    let mut out: String = String::new();
    push_decimal(&mut out, n);
    assert(out@ =~= decimal(n as nat));
    out
}

/// Decimal digits of `i`, signed.
pub fn signed_text(i: i64) -> (r: String)
    ensures
        r@ == signed_decimal(i as int),
{
    let mut out: String = String::new();
    push_signed(&mut out, i);
    assert(out@ =~= signed_decimal(i as int));
    out
}

/// The digits of a natural number, with zeros in front up to `width`.
pub open spec fn padded(n: nat, width: int) -> Seq<char> {
    let digits = decimal(n);
    if digits.len() < width {
        Seq::new((width - digits.len()) as nat, |i: int| '0') + digits
    } else {
        digits
    }
}

/// A number with zeros in front up to `width`, the sign included.
pub open spec fn signed_padded(v: int, width: int) -> Seq<char> {
    if v < 0 {
        seq!['-'] + padded((-v) as nat, width - 1)
    } else {
        padded(v as nat, width)
    }
}

/// Append a number with zeros in front up to `width`.
pub fn push_padded(out: &mut String, v: i64, width: usize)
    requires
        1 <= width,
    ensures
        final(out)@ == old(out)@ + signed_padded(v as int, width as int),
{
    let magnitude: u64 = if v < 0 {
        (-(v as i128)) as u64
    } else {
        v as u64
    };
    let digits = decimal_text(magnitude);
    let mut rest: usize = width;
    let ghost start = out@;
    let ghost mut sign = Seq::<char>::empty();
    if v < 0 {
        out.push('-');
        rest = width - 1;
        proof {
            sign = seq!['-'];
        }
    }
    let have: usize = digits.as_str().unicode_len();
    let missing: usize = if have < rest {
        rest - have
    } else {
        0
    };
    let mut i: usize = 0;
    assert(out@ =~= start + sign + Seq::new(0, |j: int| '0'));
    while i < missing
        invariant
            i <= missing,
            out@ == start + sign + Seq::new(i as nat, |j: int| '0'),
        decreases missing - i,
    {
        out.push('0');
        i = i + 1;
        assert(out@ =~= start + sign + Seq::new(i as nat, |j: int| '0'));
    }
    out.append(digits.as_str());
    assert(out@ =~= start + signed_padded(v as int, width as int));
}

/// `a / b` rounded toward zero, for positive `b`.
pub open spec fn quotient(a: int, b: int) -> int {
    if a >= 0 {
        a / b
    } else {
        -((-a) / b)
    }
}

/// `a / b` rounded toward zero.
pub fn divide(a: i128, b: i128) -> (r: i128)
    requires
        b > 0,
        a > i128::MIN,
    ensures
        r == quotient(a as int, b as int),
        a >= 0 ==> 0 <= r <= a,
        a < 0 ==> a <= r <= 0,
{
    proof {
        let m = if a >= 0 { a as int } else { -a };
        let d = b as int;
        assert(0 <= m / d <= m) by (nonlinear_arith)
            requires
                m >= 0,
                d > 0,
        ;
    }
    if a >= 0 {
        a / b
    } else {
        -((-a) / b)
    }
}

// ---------------------------------------------------------------------
// parsing
// ---------------------------------------------------------------------

/// Whether `c` is a decimal digit.
pub open spec fn is_digit(c: char) -> bool {
    '0' <= c && c <= '9'
}

/// The value of a decimal digit.
pub open spec fn digit_value(c: char) -> int {
    c as u32 - 48
}

/// Whether every character is a decimal digit.
pub open spec fn all_digits(s: Seq<char>) -> bool {
    forall|i: int| 0 <= i < s.len() ==> is_digit(#[trigger] s[i])
}

/// The number written by the digits `s`.
pub open spec fn digits_value(s: Seq<char>) -> int
    decreases s.len(),
{
    if s.len() == 0 {
        0
    } else {
        10 * digits_value(s.drop_last()) + digit_value(s.last())
    }
}

/// The number that a non-empty run of digits writes.
pub open spec fn natural(s: Seq<char>) -> Option<int> {
    if s.len() > 0 && all_digits(s) {
        Some(digits_value(s))
    } else {
        None
    }
}

/// The number that `s` writes: digits with an optional plus sign.
pub open spec fn unsigned_value(s: Seq<char>) -> Option<int> {
    if s.len() > 0 && s[0] == '+' {
        natural(s.skip(1))
    } else {
        natural(s)
    }
}

/// The number that `s` writes: digits with an optional sign.
pub open spec fn signed_value(s: Seq<char>) -> Option<int> {
    if s.len() > 0 && s[0] == '-' {
        match natural(s.skip(1)) {
            Some(v) => Some(-v),
            None => None,
        }
    } else {
        unsigned_value(s)
    }
}

/// The number when it lies between `lo` and `hi`.
pub open spec fn within(v: Option<int>, lo: int, hi: int) -> Option<int> {
    match v {
        Some(n) => if lo <= n <= hi {
            Some(n)
        } else {
            None
        },
        None => None,
    }
}

proof fn lemma_digits_grow(s: Seq<char>, k: int)
    requires
        all_digits(s),
        0 <= k <= s.len(),
    ensures
        0 <= digits_value(s.take(k)) <= digits_value(s),
    decreases s.len(),
{
    if s.len() == 0 {
        assert(s.take(k) =~= s);
    } else if k == s.len() {
        assert(s.take(k) =~= s);
        assert(s.take(k - 1) =~= s.drop_last().take(k - 1));
        lemma_digits_grow(s.drop_last(), k - 1);
        assert(is_digit(s.last()));
    } else {
        assert(s.take(k) =~= s.drop_last().take(k));
        lemma_digits_grow(s.drop_last(), k);
        assert(is_digit(s.last()));
    }
}

/// The number that a run of digits writes, when it is at most `max`.
pub fn parse_natural(s: &[char], max: u64) -> (r: Option<u64>)
    ensures
        r matches Some(v) ==> within(natural(s@), 0, max as int) == Some(v as int),
        r is None ==> within(natural(s@), 0, max as int) is None,
{
    if s.len() == 0 {
        return None;
    }
    let mut acc: u64 = 0;
    let mut i: usize = 0;
    while i < s.len()
        invariant
            i <= s@.len(),
            acc <= max,
            all_digits(s@.take(i as int)),
            acc == digits_value(s@.take(i as int)),
        decreases s@.len() - i,
    {
        let c: char = s[i];
        if !('0' <= c && c <= '9') {
            assert(!is_digit(s@[i as int]));
            return None;
        }
        let d: u64 = (c as u64) - 48;
        let ghost next = s@.take(i + 1);
        assert(next.drop_last() =~= s@.take(i as int));
        assert(next.last() == c);
        let wide: u128 = (acc as u128) * 10 + d as u128;
        assert(wide == digits_value(next));
        if wide > max as u128 {
            proof {
                if all_digits(s@) {
                    lemma_digits_grow(s@, i + 1);
                }
            }
            return None;
        }
        acc = wide as u64;
        assert(all_digits(next)) by {
            assert forall|j: int| 0 <= j < next.len() implies is_digit(#[trigger] next[j]) by {
                if j < i {
                    assert(s@.take(i as int)[j] == next[j]);
                }
            }
        }
        i = i + 1;
    }
    assert(s@.take(i as int) =~= s@);
    Some(acc)
}

/// The unsigned number that `s` writes, when it is at most `max`.
pub fn parse_unsigned(s: &[char], max: u64) -> (r: Option<u64>)
    ensures
        r matches Some(v) ==> within(unsigned_value(s@), 0, max as int) == Some(v as int),
        r is None ==> within(unsigned_value(s@), 0, max as int) is None,
{
    if s.len() > 0 && s[0] == '+' {
        let rest = slice_subrange(s, 1, s.len());
        assert(rest@ =~= s@.skip(1));
        parse_natural(rest, max)
    } else {
        parse_natural(s, max)
    }
}

proof fn lemma_natural_nonnegative(s: Seq<char>)
    ensures
        natural(s) matches Some(v) ==> v >= 0,
{
    if s.len() > 0 && all_digits(s) {
        lemma_digits_grow(s, 0);
    }
}

/// A number written without a minus sign is not negative.
pub proof fn lemma_unsigned_is_not_negative(s: Seq<char>)
    ensures
        unsigned_value(s) matches Some(v) ==> v >= 0,
        s.len() == 0 || s[0] != '-' ==> (signed_value(s) matches Some(v) ==> v >= 0),
{
    lemma_natural_nonnegative(s);
    lemma_natural_nonnegative(s.skip(1));
}

/// The signed number that `s` writes, when an `i64` can hold it.
pub fn parse_signed(s: &[char]) -> (r: Option<i64>)
    ensures
        r matches Some(v) ==> within(signed_value(s@), i64::MIN as int, i64::MAX as int) == Some(v as int),
        r is None ==> within(signed_value(s@), i64::MIN as int, i64::MAX as int) is None,
{
    if s.len() > 0 && s[0] == '-' {
        let rest = slice_subrange(s, 1, s.len());
        assert(rest@ =~= s@.skip(1));
        proof {
            lemma_natural_nonnegative(rest@);
        }
        match parse_natural(rest, 9223372036854775808) {
            Some(v) => {
                let negative: i128 = -(v as i128);
                Some(negative as i64)
            },
            None => None,
        }
    } else {
        proof {
            lemma_natural_nonnegative(s@);
            lemma_natural_nonnegative(s@.skip(1));
        }
        match parse_unsigned(s, 9223372036854775807) {
            Some(v) => Some(v as i64),
            None => None,
        }
    }
}

/// Rendered digits are all digits, and reading them back gives the number.
pub proof fn lemma_decimal_reads_back(n: nat)
    ensures
        decimal(n).len() > 0,
        natural(decimal(n)) == Some(n as int),
    decreases n,
{
    if n < 10 {
        assert(decimal(n).drop_last() =~= Seq::<char>::empty());
        assert(digits_value(Seq::<char>::empty()) == 0);
    } else {
        lemma_decimal_reads_back(n / 10);
        let d = decimal(n);
        assert(d.drop_last() =~= decimal(n / 10));
        assert forall|i: int| 0 <= i < d.len() implies is_digit(#[trigger] d[i]) by {
            if i < d.len() - 1 {
                assert(decimal(n / 10)[i] == d[i]);
            }
        }
    }
}

pub proof fn lemma_signed_chars(v: int, i: int)
    requires
        0 <= i < signed_decimal(v).len(),
    ensures
        is_digit(signed_decimal(v)[i]) || (i == 0 && v < 0 && signed_decimal(v)[i] == '-'),
        signed_decimal(v).len() > 0,
        v >= 0 ==> is_digit(signed_decimal(v)[i]),
        v < 0 ==> signed_decimal(v)[0] == '-',
{
    let m = (if v < 0 {
        -v
    } else {
        v
    }) as nat;
    lemma_decimal_reads_back(m);
    if v < 0 && i > 0 {
        assert(signed_decimal(v)[i] == decimal(m)[i - 1]);
    }
}

/// Different numbers are written differently.
pub proof fn lemma_signed_decimal_injective(v: int, w: int)
    requires
        signed_decimal(v) == signed_decimal(w),
    ensures
        v == w,
{
    let m = (if v < 0 {
        -v
    } else {
        v
    }) as nat;
    let n = (if w < 0 {
        -w
    } else {
        w
    }) as nat;
    lemma_decimal_reads_back(m);
    lemma_decimal_reads_back(n);
    lemma_signed_chars(v, 0);
    lemma_signed_chars(w, 0);
    if v < 0 {
        assert(decimal(m) =~= signed_decimal(v).skip(1));
        assert(decimal(n) =~= signed_decimal(w).skip(1));
    }
}

/// A number behind a text that ends with an equals sign can be told from that
/// text.
pub proof fn lemma_trailing_decimals(a: Seq<char>, b: Seq<char>, v: int, w: int)
    requires
        a.len() > 0,
        b.len() > 0,
        a.last() == '=',
        b.last() == '=',
        a + signed_decimal(v) == b + signed_decimal(w),
    ensures
        a == b,
        v == w,
{
    let x = a + signed_decimal(v);
    let y = b + signed_decimal(w);
    assert(x.len() == a.len() + signed_decimal(v).len());
    assert(y.len() == b.len() + signed_decimal(w).len());
    if a.len() < b.len() {
        lemma_signed_chars(v, b.len() - 1 - a.len());
        assert(x[b.len() - 1] == y[b.len() - 1]);
    } else if b.len() < a.len() {
        lemma_signed_chars(w, a.len() - 1 - b.len());
        assert(x[a.len() - 1] == y[a.len() - 1]);
    }
    assert(a =~= x.take(a.len() as int));
    assert(b =~= y.take(b.len() as int));
    assert(signed_decimal(v) =~= x.skip(a.len() as int));
    assert(signed_decimal(w) =~= y.skip(b.len() as int));
    lemma_signed_decimal_injective(v, w);
}

/// A quotient is the greatest whole number of times that the divisor goes into
/// the magnitude, with the sign of the dividend.
pub proof fn quotients_are_rounded_toward_zero(a: int, b: int)
    requires
        b > 0,
    ensures
        a >= 0 ==> quotient(a, b) * b <= a < (quotient(a, b) + 1) * b && quotient(a, b) >= 0,
        a <= 0 ==> (quotient(a, b) - 1) * b < a <= quotient(a, b) * b && quotient(a, b) <= 0,
{
    let m = if a >= 0 {
        a
    } else {
        -a
    };
    let q = m / b;
    vstd::arithmetic::div_mod::lemma_fundamental_div_mod(m, b);
    assert(q * b <= m < (q + 1) * b && q >= 0) by (nonlinear_arith)
        requires
            m == b * q + m % b,
            0 <= m % b < b,
            m >= 0,
            b > 0,
    ;
    if a < 0 {
        assert((-q) * b == -(q * b) && (-q - 1) * b == -((q + 1) * b)) by (nonlinear_arith);
    } else if a == 0 {
        assert(q == 0) by (nonlinear_arith)
            requires
                q * b <= 0,
                q >= 0,
                b > 0,
        ;
        assert((0 - 1) * b == -b && 0 * b == 0) by (nonlinear_arith);
    }
}

/// Ten to the power of `n`.
pub open spec fn ten_to(n: int) -> int
    decreases n,
{
    if n <= 0 {
        1
    } else {
        10 * ten_to(n - 1)
    }
}

/// The digits of a number, one run after the other.
pub proof fn lemma_digits_joined(a: Seq<char>, b: Seq<char>)
    ensures
        digits_value(a + b) == digits_value(a) * ten_to(b.len() as int) + digits_value(b),
    decreases b.len(),
{
    if b.len() == 0 {
        assert(a + b =~= a);
    } else {
        let s = a + b;
        assert(s.drop_last() =~= a + b.drop_last());
        lemma_digits_joined(a, b.drop_last());
        let x = digits_value(a);
        let t = ten_to(b.len() - 1);
        assert(10 * (x * t) == x * (10 * t)) by (nonlinear_arith);
    }
}

proof fn lemma_zeros(n: nat)
    ensures
        digits_value(Seq::new(n, |i: int| '0')) == 0,
    decreases n,
{
    let s = Seq::new(n, |i: int| '0');
    if n > 0 {
        assert(s.drop_last() =~= Seq::new((n - 1) as nat, |i: int| '0'));
        lemma_zeros((n - 1) as nat);
    }
}

proof fn lemma_decimal_length(n: nat, width: int)
    requires
        n < ten_to(width),
        width >= 1,
    ensures
        decimal(n).len() <= width,
    decreases n,
{
    if n >= 10 {
        if width == 1 {
            reveal_with_fuel(ten_to, 2);
        } else {
            assert(n / 10 < ten_to(width - 1));
            lemma_decimal_length(n / 10, width - 1);
        }
    }
}

/// A number that fits is written with exactly as many digits as asked for, and
/// reads back as it was.
pub proof fn padded_numbers_read_back(n: nat, width: int)
    requires
        width >= 1,
        n < ten_to(width),
    ensures
        signed_padded(n as int, width).len() == width,
        all_digits(signed_padded(n as int, width)),
        digits_value(signed_padded(n as int, width)) == n,
{
    lemma_decimal_length(n, width);
    lemma_decimal_reads_back(n);
    let digits = decimal(n);
    if digits.len() < width {
        let zeros = Seq::new((width - digits.len()) as nat, |i: int| '0');
        let s = zeros + digits;
        lemma_zeros((width - digits.len()) as nat);
        lemma_digits_joined(zeros, digits);
        assert forall|i: int| 0 <= i < s.len() implies is_digit(#[trigger] s[i]) by {
            if i >= zeros.len() {
                assert(s[i] == digits[i - zeros.len()]);
            }
        }
    }
}

/// A number reads back from its text, and with a plus sign in front of it when
/// it is not negative; a text with anything but digits behind the sign is no
/// number.
pub proof fn signed_numbers_read_back(v: int)
    ensures
        signed_value(signed_decimal(v)) == Some(v),
        v >= 0 ==> unsigned_value(signed_decimal(v)) == Some(v),
        v >= 0 ==> signed_value(seq!['+'] + signed_decimal(v)) == Some(v),
        v < 0 ==> unsigned_value(signed_decimal(v)) is None,
{
    let s = signed_decimal(v);
    if v < 0 {
        lemma_decimal_reads_back((-v) as nat);
        assert(s.skip(1) =~= decimal((-v) as nat));
        assert(s[0] == '-' && !is_digit(s[0]));
    } else {
        lemma_decimal_reads_back(v as nat);
        assert(s =~= decimal(v as nat));
        assert(is_digit(s[0])) by {
            lemma_signed_chars(v, 0);
        }
        assert((seq!['+'] + s).skip(1) =~= s);
    }
}

} // verus!
