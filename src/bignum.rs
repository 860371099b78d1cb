//! Unsigned integers of any size, held as base-2^32 digits; the arithmetic
//! is num's `BigUint`.

use num::BigUint;
use vstd::arithmetic::div_mod::{
    lemma_mod_add_multiples_vanish, lemma_mul_mod_noop_left, lemma_mul_mod_noop_right, lemma_small_mod,
};
use vstd::arithmetic::power::{
    lemma_pow1, lemma_pow_adds, lemma_pow_mod_noop, lemma_pow_multiplies, lemma_square_is_pow2, pow,
};
use vstd::prelude::*;

verus! {

/// The value of base-2^32 digits, the least significant first.
pub open spec fn digits_value(d: Seq<u32>) -> nat
    decreases d.len(),
{
    if d.len() == 0 {
        0
    } else {
        d[0] as nat + 0x1_0000_0000 * digits_value(d.drop_first())
    }
}

/// The value of decimal digit values, the most significant first.
pub open spec fn decimal_value(d: Seq<u8>) -> nat
    decreases d.len(),
{
    if d.len() == 0 {
        0
    } else {
        decimal_value(d.drop_last()) * 10 + d.last() as nat
    }
}

/// Whether every entry is a decimal digit value.
pub open spec fn all_decimal(d: Seq<u8>) -> bool {
    forall|i: int| 0 <= i < d.len() ==> #[trigger] d[i] < 10
}

/// An unsigned integer.
pub struct BigNum {
    digits: Vec<u32>,
}

impl View for BigNum {
    type V = nat;

    closed spec fn view(&self) -> nat {
        digits_value(self.digits@)
    }
}

/// Relies on the `*` of num's BigUint: the product.
#[verifier::external_body]
fn big_mul(a: &BigNum, b: &BigNum) -> (r: BigNum)
    ensures
        r@ == a@ * b@,
{
    let p = BigUint::new(a.digits.clone()) * BigUint::new(b.digits.clone());
    BigNum { digits: p.to_u32_digits() }
}

/// Relies on the `%` of num's BigUint: the remainder; it panics on a zero
/// divisor.
#[verifier::external_body]
fn big_rem(a: &BigNum, m: &BigNum) -> (r: BigNum)
    requires
        m@ > 0,
    ensures
        r@ == a@ % m@,
{
    let p = BigUint::new(a.digits.clone()) % BigUint::new(m.digits.clone());
    BigNum { digits: p.to_u32_digits() }
}

/// Relies on the `+` of num's BigUint: the sum.
#[verifier::external_body]
fn big_add(a: &BigNum, b: &BigNum) -> (r: BigNum)
    ensures
        r@ == a@ + b@,
{
    let p = BigUint::new(a.digits.clone()) + BigUint::new(b.digits.clone());
    BigNum { digits: p.to_u32_digits() }
}

/// Relies on the `-` of num's BigUint: the difference; it panics where it
/// would be negative.
#[verifier::external_body]
fn big_sub(a: &BigNum, b: &BigNum) -> (r: BigNum)
    requires
        b@ <= a@,
    ensures
        r@ == a@ - b@,
{
    let p = BigUint::new(a.digits.clone()) - BigUint::new(b.digits.clone());
    BigNum { digits: p.to_u32_digits() }
}

/// Relies on the `>>` of num's BigUint: a shift right by one bit halves.
#[verifier::external_body]
fn big_half(a: &BigNum) -> (r: BigNum)
    ensures
        r@ == a@ / 2,
{
    let p = BigUint::new(a.digits.clone()) >> 1usize;
    BigNum { digits: p.to_u32_digits() }
}

/// Relies on the `==` of num's BigUint: equal values.
#[verifier::external_body]
fn big_eq(a: &BigNum, b: &BigNum) -> (r: bool)
    ensures
        r == (a@ == b@),
{
    BigUint::new(a.digits.clone()) == BigUint::new(b.digits.clone())
}

/// Relies on num's RandBigInt::gen_biguint_range, with the thread-local
/// generator of rand: a value in `[low, high)`; it panics on an empty range.
#[verifier::external_body]
fn big_random_range(low: &BigNum, high: &BigNum) -> (r: BigNum)
    requires
        low@ < high@,
    ensures
        low@ <= r@ < high@,
{
    let lo = BigUint::new(low.digits.clone());
    let hi = BigUint::new(high.digits.clone());
    let p = num::bigint::RandBigInt::gen_biguint_range(&mut rand::thread_rng(), &lo, &hi);
    BigNum { digits: p.to_u32_digits() }
}

/// Relies on num's BigUint::to_radix_be: the decimal digit values, the most
/// significant first, at least one.
#[verifier::external_body]
fn big_to_decimal(a: &BigNum) -> (r: Vec<u8>)
    ensures
        r@.len() >= 1,
        all_decimal(r@),
        decimal_value(r@) == a@,
{
    BigUint::new(a.digits.clone()).to_radix_be(10)
}

/// Relies on num's BigUint::from_radix_be: the number that decimal digit
/// values spell, the most significant first; nothing where one is not a
/// decimal digit value.
#[verifier::external_body]
fn big_from_decimal(d: &[u8]) -> (r: Option<BigNum>)
    ensures
        all_decimal(d@) ==> r.is_some() && r.unwrap()@ == decimal_value(d@),
        !all_decimal(d@) ==> r.is_none(),
{
    match BigUint::from_radix_be(d, 10) {
        Some(p) => Some(BigNum { digits: p.to_u32_digits() }),
        None => None,
    }
}

/// The ASCII code of a decimal digit.
pub open spec fn ascii_digit(d: u8) -> u8 {
    (d + 48) as u8
}

/// Whether a byte is an ASCII decimal digit.
pub open spec fn is_ascii_digit(c: u8) -> bool {
    48 <= c <= 57
}

/// Whether `t` is decimal text: one ASCII digit or more.
pub open spec fn is_decimal_text(t: Seq<u8>) -> bool {
    t.len() > 0 && forall|i: int| 0 <= i < t.len() ==> is_ascii_digit(#[trigger] t[i])
}

/// The value of decimal text: ASCII digits, the most significant first.
pub open spec fn text_value(t: Seq<u8>) -> nat {
    decimal_value(t.map_values(|c: u8| (c - 48) as u8))
}

/// The value is zero exactly where all digits are.
proof fn lemma_zero_digits(d: Seq<u32>)
    ensures
        (digits_value(d) == 0) == (forall|i: int| 0 <= i < d.len() ==> d[i] == 0),
    decreases d.len(),
{
    if d.len() > 0 {
        lemma_zero_digits(d.drop_first());
        if digits_value(d) == 0 {
            assert forall|i: int| 0 <= i < d.len() implies d[i] == 0 by {
                if i > 0 {
                    assert(d[i] == d.drop_first()[i - 1]);
                }
            }
        }
        if forall|i: int| 0 <= i < d.len() ==> d[i] == 0 {
            assert forall|i: int| 0 <= i < d.len() - 1 implies d.drop_first()[i] == 0 by {
                assert(d.drop_first()[i] == d[i + 1]);
            }
        }
    }
}

impl BigNum {
    /// The number that base-2^32 digits, the least significant first, spell.
    pub fn from_digits(digits: Vec<u32>) -> (r: BigNum)
        ensures
            r@ == digits_value(digits@),
    {
        BigNum { digits }
    }

    /// The base-2^32 digits, the least significant first.
    pub fn to_digits(&self) -> (r: Vec<u32>)
        ensures
            digits_value(r@) == self@,
    {
        self.digits.clone()
    }

    /// A small number.
    pub fn from_u32(x: u32) -> (r: BigNum)
        ensures
            r@ == x,
    {
        let r = BigNum { digits: vec![x] };
        assert(r.digits@.drop_first() =~= Seq::<u32>::empty());
        assert(digits_value(Seq::<u32>::empty()) == 0);
        r
    }

    /// Whether the value is zero.
    pub fn is_zero(&self) -> (r: bool)
        ensures
            r == (self@ == 0),
    {
        proof {
            lemma_zero_digits(self.digits@);
        }
        let mut i: usize = 0;
        while i < self.digits.len()
            invariant
                i <= self.digits@.len(),
                forall|j: int| 0 <= j < i ==> self.digits@[j] == 0,
            decreases self.digits@.len() - i,
        {
            if self.digits[i] != 0 {
                proof {
                    lemma_zero_digits(self.digits@);
                    assert(self.digits@[i as int] != 0);
                }
                return false;
            }
            i = i + 1;
        }
        true
    }

    /// Whether the value is odd.
    pub fn is_odd(&self) -> (r: bool)
        ensures
            r == (self@ % 2 == 1),
    {
        if self.digits.len() == 0 {
            false
        } else {
            let d: u32 = self.digits[0];
            let ghost rest = digits_value(self.digits@.drop_first());
            assert((d as nat + 0x1_0000_0000 * rest) % 2 == d as nat % 2) by (nonlinear_arith);
            d % 2 == 1
        }
    }

    /// A copy.
    pub fn clone_num(&self) -> (r: BigNum)
        ensures
            r@ == self@,
    {
        BigNum { digits: self.digits.clone() }
    }

    /// Whether the values are equal.
    pub fn equals(&self, other: &BigNum) -> (r: bool)
        ensures
            r == (self@ == other@),
    {
        big_eq(self, other)
    }

    /// The remainder of the value modulo `m`.
    pub fn rem(&self, m: &BigNum) -> (r: BigNum)
        requires
            m@ > 0,
        ensures
            r@ == self@ % m@,
    {
        big_rem(self, m)
    }

    /// The product of the values modulo `m`.
    pub fn mul_mod(&self, other: &BigNum, m: &BigNum) -> (r: BigNum)
        requires
            m@ > 0,
        ensures
            r@ == (self@ * other@) % m@,
    {
        big_rem(&big_mul(self, other), m)
    }

    /// The difference of the values modulo `m`, for values below `m`; the
    /// result lies in `[0, m)`.
    pub fn sub_mod(&self, other: &BigNum, m: &BigNum) -> (r: BigNum)
        requires
            m@ > 0,
            self@ < m@,
            other@ < m@,
        ensures
            r@ == (self@ - other@) % (m@ as int),
    {
        let sum = big_add(self, m);
        let diff = big_sub(&sum, other);
        proof {
            lemma_mod_add_multiples_vanish(self@ - other@, m@ as int);
        }
        big_rem(&diff, m)
    }

    /// A number drawn at random from `[low, high)`.
    pub fn random_range(low: &BigNum, high: &BigNum) -> (r: BigNum)
        requires
            low@ < high@,
        ensures
            low@ <= r@ < high@,
    {
        big_random_range(low, high)
    }

    /// Decimal text of the value: ASCII digits, the most significant first.
    pub fn to_decimal(&self) -> (r: Vec<u8>)
        ensures
            is_decimal_text(r@),
            text_value(r@) == self@,
    {
        let d = big_to_decimal(self);
        let mut r: Vec<u8> = Vec::new();
        let mut i: usize = 0;
        while i < d.len()
            invariant
                all_decimal(d@),
                i <= d@.len(),
                r@.len() == i,
                forall|j: int| 0 <= j < i ==> #[trigger] r@[j] == ascii_digit(d@[j]),
            decreases d@.len() - i,
        {
            r.push(d[i] + 48);
            i = i + 1;
        }
        assert(r@.map_values(|c: u8| (c - 48) as u8) =~= d@);
        r
    }

    /// The value of decimal text; nothing where the text is empty or a byte
    /// is not an ASCII digit.
    pub fn from_decimal(t: &[u8]) -> (r: Option<BigNum>)
        ensures
            r.is_some() == is_decimal_text(t@),
            r.is_some() ==> r.unwrap()@ == text_value(t@),
    {
        if t.len() == 0 {
            return None;
        }
        let mut d: Vec<u8> = Vec::new();
        let mut i: usize = 0;
        while i < t.len()
            invariant
                i <= t@.len(),
                d@.len() == i,
                forall|j: int| 0 <= j < i ==> is_ascii_digit(#[trigger] t@[j]),
                forall|j: int| 0 <= j < i ==> #[trigger] d@[j] == (t@[j] - 48) as u8,
            decreases t@.len() - i,
        {
            let c: u8 = t[i];
            if c < 48 || c > 57 {
                return None;
            }
            d.push(c - 48);
            i = i + 1;
        }
        assert(d@ =~= t@.map_values(|c: u8| (c - 48) as u8));
        big_from_decimal(d.as_slice())
    }
}

/// One step of square-and-multiply keeps `s t^u mod m`.
proof fn lemma_square_multiply_step(s: int, t: int, u: nat, m: int)
    requires
        m > 0,
        u > 0,
        s >= 0,
        t >= 0,
    ensures
        u % 2 == 1 ==> (((s * t) % m) * pow((t * t) % m, u / 2)) % m == (s * pow(t, u)) % m,
        u % 2 == 0 ==> (s * pow((t * t) % m, u / 2)) % m == (s * pow(t, u)) % m,
{
    let h = u / 2;
    lemma_square_is_pow2(t);
    lemma_pow_multiplies(t, 2, h);
    lemma_pow_mod_noop(t * t, h, m);
    let q = pow(t * t, h);
    let qm = pow((t * t) % m, h);
    assert(qm % m == q % m);
    lemma_mul_mod_noop_right(s, qm, m);
    lemma_mul_mod_noop_right(s, q, m);
    assert(pow(t, 2 * h) == q);
    if u % 2 == 1 {
        assert(u == 2 * h + 1);
        lemma_pow_adds(t, 1, 2 * h);
        lemma_pow1(t);
        assert(pow(t, u) == t * pow(t, 2 * h));
        lemma_mul_mod_noop_left(s * t, qm, m);
        lemma_mul_mod_noop_right(s * t, qm, m);
        lemma_mul_mod_noop_right(s * t, q, m);
        assert((s * t) * q == s * (t * q)) by (nonlinear_arith);
    } else {
        assert(u == 2 * h);
    }
}

/// `num` to the power `exp`, modulo `m`, by square-and-multiply.
pub fn mod_pow(num: BigNum, exp: BigNum, m: BigNum) -> (r: BigNum)
    requires
        m@ > 0,
    ensures
        r@ == pow(num@ as int, exp@) % (m@ as int),
{
    let ghost target = pow(num@ as int, exp@) % (m@ as int);
    let one = BigNum::from_u32(1);
    let mut s = big_rem(&one, &m);
    let mut t = num;
    let mut u = exp;
    proof {
        lemma_mul_mod_noop_left(1, pow(num@ as int, exp@), m@ as int);
    }
    while !u.is_zero()
        invariant
            m@ > 0,
            s@ < m@,
            (s@ * pow(t@ as int, u@)) % (m@ as int) == target,
        decreases u@,
    {
        proof {
            lemma_square_multiply_step(s@ as int, t@ as int, u@, m@ as int);
        }
        if u.is_odd() {
            s = big_rem(&big_mul(&s, &t), &m);
        }
        u = big_half(&u);
        t = big_rem(&big_mul(&t, &t), &m);
    }
    proof {
        lemma_small_mod(s@, m@);
        assert(pow(t@ as int, 0) == 1) by {
            reveal(pow);
        }
    }
    s
}

} // verus!
