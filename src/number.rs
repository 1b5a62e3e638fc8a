//! Numbers as the prime protocol reads them: decimal and floating-point
//! literals, primality by trial division, and natural numbers of any size
//! held as base 2^32 digits and computed on by `num`.
use vstd::arithmetic::div_mod::{lemma_fundamental_div_mod, lemma_mod_mod, lemma_mod_multiples_basic};
use vstd::prelude::*;

verus! {

/// `n` is prime: at least 2, and no number from 2 to `n - 1` divides it.
pub open spec fn is_prime_spec(n: nat) -> bool {
    n >= 2 && forall|d: nat| 2 <= d < n ==> #[trigger] (n % d) != 0
}

/// An even number divides only even numbers.
proof fn lemma_even_divisor(x: int, d: int)
    requires
        x >= 0,
        d > 0,
        d % 2 == 0,
        x % d == 0,
    ensures
        x % 2 == 0,
{
    let k = d / 2;
    lemma_fundamental_div_mod(d, 2);
    assert(d == 2 * k);
    lemma_mod_mod(x, 2, k);
}

/// A number with no divisor from 2 up to below `n`, where `n * n` exceeds
/// it, is prime.
proof fn lemma_prime_by_trial(x: nat, n: nat)
    requires
        x >= 2,
        n >= 2,
        n * n > x,
        forall|d: nat| 2 <= d < n ==> #[trigger] (x % d) != 0,
    ensures
        is_prime_spec(x),
{
    assert forall|d: nat| 2 <= d < x implies #[trigger] (x % d) != 0 by {
        if d >= n && x % d == 0 {
            let e = x / d;
            lemma_fundamental_div_mod(x as int, d as int);
            assert(x == d * e);
            if e == 0 {
                assert(d * 0 == 0);
            } else if e == 1 {
                assert(d * 1 == d);
            } else {
                if e >= n {
                    assert(d * e >= n * n) by (nonlinear_arith)
                        requires
                            d >= n,
                            e >= n,
                            n >= 0,
                    ;
                } else {
                    lemma_mod_multiples_basic(d as int, e as int);
                    assert(d * e == e * d) by (nonlinear_arith);
                    assert(x % e == 0);
                }
            }
        }
    }
}

/// Relation between a bound `n <= x / n` and the square of `n`.
proof fn lemma_square_bound(x: int, n: int)
    requires
        x >= 0,
        n > 0,
    ensures
        n <= x / n ==> n * n <= x,
        n > x / n ==> n * n > x,
{
    lemma_fundamental_div_mod(x, n);
    let q = x / n;
    let r = x % n;
    assert(0 <= r < n);
    if n <= q {
        assert(n * n <= n * q) by (nonlinear_arith)
            requires
                n <= q,
                n > 0,
        ;
    } else {
        assert(n * n >= n * (q + 1)) by (nonlinear_arith)
            requires
                n >= q + 1,
                n > 0,
        ;
        assert(n * (q + 1) == n * q + n) by (nonlinear_arith);
    }
}

/// Whether `x` is prime, by trial division with odd numbers up to its
/// square root.
pub fn is_prime(x: u128) -> (r: bool)
    ensures
        r == is_prime_spec(x as nat),
{
    if x <= 1 {
        return false;
    }
    if x % 2 == 0 {
        if x != 2 {
            assert((x as nat) % 2nat == 0);
        }
        return x == 2;
    }
    let mut n: u128 = 3;
    while n <= x / n
        invariant
            3 <= n,
            n % 2 == 1,
            x % 2 == 1,
            x >= 3,
            n <= x + 2,
            forall|d: nat| 2 <= d < n ==> #[trigger] ((x as nat) % d) != 0,
        decreases x + 2 - n,
    {
        proof {
            lemma_square_bound(x as int, n as int);
            if n >= 0x1_0000_0000_0000_0000 {
                assert(n * n >= 0x1_0000_0000_0000_0000 * 0x1_0000_0000_0000_0000) by (nonlinear_arith)
                    requires
                        n >= 0x1_0000_0000_0000_0000,
                ;
            }
        }
        if x % n == 0 {
            assert(n * n >= 3 * n) by (nonlinear_arith)
                requires
                    n >= 3,
            ;
            assert((x as nat) % (n as nat) == 0);
            return n == x;
        }
        proof {
            if (x as nat) % ((n + 1) as nat) == 0 {
                lemma_even_divisor(x as int, (n + 1) as int);
            }
        }
        n = n + 2;
    }
    proof {
        lemma_square_bound(x as int, n as int);
        lemma_prime_by_trial(x as nat, n as nat);
    }
    true
}

/// The value of little-endian base 2^32 digits.
pub open spec fn digits_value(d: Seq<u32>) -> nat
    decreases d.len(),
{
    if d.len() == 0 {
        0
    } else {
        d[0] as nat + 0x1_0000_0000 * digits_value(d.drop_first())
    }
}

/// A natural number of any size, as its base 2^32 digits, least
/// significant first.
pub struct BigNat {
    digits: Vec<u32>,
}

impl View for BigNat {
    type V = nat;

    closed spec fn view(&self) -> nat {
        digits_value(self.digits@)
    }
}

/// Relies on `num::BigUint::from(u32)`: the number `k`.
#[verifier::external_body]
fn big_from_u32(k: u32) -> (r: BigNat)
    ensures
        r@ == k as nat,
{
    BigNat { digits: num::BigUint::from(k).to_u32_digits() }
}

/// Relies on `num::Integer::mod_floor` for `BigUint`: the remainder of `a` by `b`.
#[verifier::external_body]
fn big_mod_floor(a: &BigNat, b: &BigNat) -> (r: BigNat)
    requires
        b@ > 0,
    ensures
        r@ == a@ % b@,
{
    let x = num::BigUint::new(a.digits.clone());
    let y = num::BigUint::new(b.digits.clone());
    BigNat { digits: num::Integer::mod_floor(&x, &y).to_u32_digits() }
}

/// Relies on `num::Zero::is_zero` for `BigUint`: whether `a` is zero.
#[verifier::external_body]
fn big_is_zero(a: &BigNat) -> (r: bool)
    ensures
        r == (a@ == 0),
{
    num::Zero::is_zero(&num::BigUint::new(a.digits.clone()))
}

/// Relies on `num::BigUint::sqrt`: the truncated square root of `a`.
#[verifier::external_body]
fn big_sqrt(a: &BigNat) -> (r: BigNat)
    ensures
        r@ * r@ <= a@ < (r@ + 1) * (r@ + 1),
{
    BigNat { digits: num::BigUint::new(a.digits.clone()).sqrt().to_u32_digits() }
}

/// Relies on `PartialOrd` for `num::BigUint`: whether `a` is at most `b`.
#[verifier::external_body]
fn big_le(a: &BigNat, b: &BigNat) -> (r: bool)
    ensures
        r == (a@ <= b@),
{
    num::BigUint::new(a.digits.clone()) <= num::BigUint::new(b.digits.clone())
}

/// Relies on `PartialEq` for `num::BigUint`: whether `a` equals `b`.
#[verifier::external_body]
fn big_eq(a: &BigNat, b: &BigNat) -> (r: bool)
    ensures
        r == (a@ == b@),
{
    num::BigUint::new(a.digits.clone()) == num::BigUint::new(b.digits.clone())
}

/// Relies on `AddAssign<u8>` for `num::BigUint`: `a` plus `k`.
#[verifier::external_body]
fn big_add_u8(a: &BigNat, k: u8) -> (r: BigNat)
    ensures
        r@ == a@ + k as nat,
{
    let mut x = num::BigUint::new(a.digits.clone());
    x += k;
    BigNat { digits: x.to_u32_digits() }
}

/// Relies on `num::BigUint::parse_bytes` in base 10: the value of a decimal
/// literal, an optional `+` and then digits.
#[verifier::external_body]
fn big_parse_decimal(s: &str) -> (r: Option<BigNat>)
    ensures
        plain_decimal(s@) ==> r is Some && r->Some_0@ == decimal_value(s@),
{
    match num::BigUint::parse_bytes(s.as_bytes(), 10) {
        Some(n) => Some(BigNat { digits: n.to_u32_digits() }),
        None => None,
    }
}

/// The value of a decimal literal, if it is one.
pub fn parse_big(s: &str) -> (r: Option<BigNat>)
    ensures
        plain_decimal(s@) ==> r is Some && r->Some_0@ == decimal_value(s@),
        !plain_decimal(s@) ==> r is None,
{
    if !is_plain_decimal(s) {
        return None;
    }
    big_parse_decimal(s)
}

/// Whether `x` is prime, by trial division with odd numbers up to its
/// square root. Small numbers go to [`is_prime`].
pub fn is_prime_big_int(x: BigNat) -> (r: bool)
    requires
        x@ >= 3,
    ensures
        r == is_prime_spec(x@),
{
    let two = big_from_u32(2);
    if big_is_zero(&big_mod_floor(&x, &two)) {
        assert(x@ % 2nat == 0);
        return false;
    }
    let limit = big_sqrt(&x);
    let mut next = big_from_u32(3);
    while big_le(&next, &limit)
        invariant
            3 <= next@,
            next@ % 2 == 1,
            x@ % 2 == 1,
            x@ >= 3,
            limit@ * limit@ <= x@ < (limit@ + 1) * (limit@ + 1),
            next@ <= limit@ + 2,
            forall|d: nat| 2 <= d < next@ ==> #[trigger] (x@ % d) != 0,
        decreases limit@ + 2 - next@,
    {
        let rem = big_mod_floor(&x, &next);
        if big_is_zero(&rem) {
            assert(next@ * next@ <= limit@ * limit@) by (nonlinear_arith)
                requires
                    next@ <= limit@,
            ;
            assert(next@ * next@ >= 3 * next@) by (nonlinear_arith)
                requires
                    next@ >= 3,
            ;
            return big_eq(&next, &x);
        }
        proof {
            if x@ % (next@ + 1) == 0 {
                lemma_even_divisor(x@ as int, (next@ + 1) as int);
            }
        }
        next = big_add_u8(&next, 2);
    }
    proof {
        assert(next@ * next@ >= (limit@ + 1) * (limit@ + 1)) by (nonlinear_arith)
            requires
                next@ >= limit@ + 1,
                limit@ >= 0,
        ;
        lemma_prime_by_trial(x@, next@);
    }
    true
}

/// An ASCII digit.
pub open spec fn is_digit(c: char) -> bool {
    '0' <= c <= '9'
}

/// Where the digits of a literal start: after a leading `sign`, if there is one.
pub open spec fn after_sign(s: Seq<char>, minus_too: bool) -> int {
    if s.len() > 0 && (s[0] == '+' || (minus_too && s[0] == '-')) {
        1
    } else {
        0
    }
}

/// All characters of `s` from `lo` up to `hi` are digits.
pub open spec fn digits_in(s: Seq<char>, lo: int, hi: int) -> bool {
    forall|i: int| lo <= i < hi ==> is_digit(#[trigger] s[i])
}

/// An optional `+` and then one or more digits.
pub open spec fn plain_decimal(s: Seq<char>) -> bool {
    after_sign(s, false) < s.len() && digits_in(s, after_sign(s, false), s.len() as int)
}

/// The value of the digits of `t`.
pub open spec fn digits_number(t: Seq<char>) -> nat
    decreases t.len(),
{
    if t.len() == 0 {
        0
    } else {
        digits_number(t.drop_last()) * 10 + ((t.last() as int) - ('0' as int)) as nat
    }
}

/// The value of a decimal literal: its digits after the optional `+`.
pub open spec fn decimal_value(s: Seq<char>) -> nat {
    digits_number(s.subrange(after_sign(s, false), s.len() as int))
}

/// Relies on `str::parse::<u128>`: the value of an optional `+` and then
/// digits, when it fits; nothing for any other text.
#[verifier::external_body]
pub(crate) fn parse_u128(s: &str) -> (r: Option<u128>)
    ensures
        plain_decimal(s@) && decimal_value(s@) <= u128::MAX ==> r == Some(
            decimal_value(s@) as u128,
        ),
        !(plain_decimal(s@) && decimal_value(s@) <= u128::MAX) ==> r is None,
{
    s.parse::<u128>().ok()
}

/// The first position from `lo` up to `hi` that holds `a` or `b`, or `hi`.
pub open spec fn find_either(s: Seq<char>, lo: int, hi: int, a: char, b: char) -> int
    decreases hi - lo,
{
    if lo >= hi {
        hi
    } else if s[lo] == a || s[lo] == b {
        lo
    } else {
        find_either(s, lo + 1, hi, a, b)
    }
}

/// Digits with at most one `.` among them, and at least one digit.
pub open spec fn mantissa(s: Seq<char>, lo: int, hi: int) -> bool {
    let d = find_either(s, lo, hi, '.', '.');
    digits_in(s, lo, d) && if d == hi {
        hi - lo >= 1
    } else {
        digits_in(s, d + 1, hi) && hi - lo >= 2
    }
}

/// An optional sign and then one or more digits, from `i` to the end.
pub open spec fn exponent(s: Seq<char>, i: int) -> bool {
    let j = if i < s.len() && (s[i] == '+' || s[i] == '-') {
        i + 1
    } else {
        i
    };
    j < s.len() && digits_in(s, j, s.len() as int)
}

/// `s` from `lo` on is the word `lower`, letter by letter in lower or upper case.
pub open spec fn word_at(s: Seq<char>, lo: int, lower: Seq<char>, upper: Seq<char>) -> bool {
    &&& s.len() - lo == lower.len()
    &&& forall|i: int|
        0 <= i < lower.len() ==> #[trigger] s[lo + i] == lower[i] || s[lo + i] == upper[i]
}

/// What `str::parse` accepts as a floating-point number: an optional sign,
/// then `inf`, `infinity` or `nan` in any case, or digits with at most one
/// `.` and at least one digit, followed by an optional exponent (`e` or
/// `E`, an optional sign, digits).
pub open spec fn float_literal(s: Seq<char>) -> bool {
    let lo = after_sign(s, true);
    let k = find_either(s, lo, s.len() as int, 'e', 'E');
    ||| word_at(s, lo, seq!['i', 'n', 'f'], seq!['I', 'N', 'F'])
    ||| word_at(
        s,
        lo,
        seq!['i', 'n', 'f', 'i', 'n', 'i', 't', 'y'],
        seq!['I', 'N', 'F', 'I', 'N', 'I', 'T', 'Y'],
    )
    ||| word_at(s, lo, seq!['n', 'a', 'n'], seq!['N', 'A', 'N'])
    ||| (mantissa(s, lo, k) && (k == s.len() || exponent(s, k + 1)))
}

/// Whether the characters of `v` from `lo` up to `hi` are all digits.
fn all_digits(v: &Vec<char>, lo: usize, hi: usize) -> (r: bool)
    requires
        lo <= hi <= v@.len(),
    ensures
        r == digits_in(v@, lo as int, hi as int),
{
    let mut i = lo;
    while i < hi
        invariant
            lo <= i <= hi,
            hi <= v@.len(),
            digits_in(v@, lo as int, i as int),
        decreases hi - i,
    {
        if !('0' <= v[i] && v[i] <= '9') {
            return false;
        }
        i = i + 1;
    }
    true
}

/// The first position from `lo` up to `hi` that holds `a` or `b`, or `hi`.
fn find_in(v: &Vec<char>, lo: usize, hi: usize, a: char, b: char) -> (r: usize)
    requires
        lo <= hi <= v@.len(),
    ensures
        r == find_either(v@, lo as int, hi as int, a, b),
        lo <= r <= hi,
{
    let mut i = lo;
    while i < hi
        invariant
            lo <= i <= hi,
            hi <= v@.len(),
            find_either(v@, lo as int, hi as int, a, b) == find_either(v@, i as int, hi as int, a, b),
        decreases hi - i,
    {
        if v[i] == a || v[i] == b {
            return i;
        }
        i = i + 1;
    }
    i
}

/// Whether the characters of `v` from `lo` on spell `lower` in either case.
fn is_word_at(v: &Vec<char>, lo: usize, lower: &[char], upper: &[char]) -> (r: bool)
    requires
        lo <= v@.len(),
        lower@.len() == upper@.len(),
    ensures
        r == word_at(v@, lo as int, lower@, upper@),
{
    if v.len() - lo != lower.len() {
        return false;
    }
    let mut i: usize = 0;
    while i < lower.len()
        invariant
            lo <= v@.len(),
            v@.len() - lo == lower@.len(),
            lower@.len() == upper@.len(),
            i <= lower@.len(),
            forall|j: int| 0 <= j < i ==> #[trigger] v@[lo + j] == lower@[j] || v@[lo + j] == upper@[j],
        decreases lower@.len() - i,
    {
        let n = v.len();
        assert(lo + i < n);
        if v[lo + i] != lower[i] && v[lo + i] != upper[i] {
            return false;
        }
        i = i + 1;
    }
    true
}

/// Whether `s` is a floating-point literal as [`float_literal`] says.
pub fn is_float_literal(s: &str) -> (r: bool)
    ensures
        r == float_literal(s@),
{
    let v = crate::text::chars_of(s);
    let lo: usize = if v.len() > 0 && (v[0] == '+' || v[0] == '-') {
        1
    } else {
        0
    };
    let inf_lower = ['i', 'n', 'f'];
    let inf_upper = ['I', 'N', 'F'];
    let infinity_lower = ['i', 'n', 'f', 'i', 'n', 'i', 't', 'y'];
    let infinity_upper = ['I', 'N', 'F', 'I', 'N', 'I', 'T', 'Y'];
    let nan_lower = ['n', 'a', 'n'];
    let nan_upper = ['N', 'A', 'N'];
    assert(inf_lower@ == seq!['i', 'n', 'f']);
    assert(inf_upper@ == seq!['I', 'N', 'F']);
    assert(infinity_lower@ == seq!['i', 'n', 'f', 'i', 'n', 'i', 't', 'y']);
    assert(infinity_upper@ == seq!['I', 'N', 'F', 'I', 'N', 'I', 'T', 'Y']);
    assert(nan_lower@ == seq!['n', 'a', 'n']);
    assert(nan_upper@ == seq!['N', 'A', 'N']);
    if is_word_at(&v, lo, &inf_lower, &inf_upper) || is_word_at(
        &v,
        lo,
        &infinity_lower,
        &infinity_upper,
    ) || is_word_at(&v, lo, &nan_lower, &nan_upper) {
        return true;
    }
    let k = find_in(&v, lo, v.len(), 'e', 'E');
    let d = find_in(&v, lo, k, '.', '.');
    let mantissa_ok = all_digits(&v, lo, d) && if d == k {
        k - lo >= 1
    } else {
        all_digits(&v, d + 1, k) && k - lo >= 2
    };
    if !mantissa_ok {
        return false;
    }
    if k == v.len() {
        return true;
    }
    let j = if k + 1 < v.len() && (v[k + 1] == '+' || v[k + 1] == '-') {
        k + 2
    } else {
        k + 1
    };
    j < v.len() && all_digits(&v, j, v.len())
}

/// Whether `s` is an optional `+` and then one or more digits.
pub fn is_plain_decimal(s: &str) -> (r: bool)
    ensures
        r == plain_decimal(s@),
{
    let v = crate::text::chars_of(s);
    let lo: usize = if v.len() > 0 && v[0] == '+' {
        1
    } else {
        0
    };
    lo < v.len() && all_digits(&v, lo, v.len())
}

} // verus!
